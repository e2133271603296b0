//! Decimal digit sequences: their value, and the facts about it that comparisons rest on.

use vstd::prelude::*;

verus! {

/// Ten to the power `n`.
pub open spec fn pow10(n: nat) -> nat
    decreases n,
{
    if n == 0 {
        1
    } else {
        10 * pow10((n - 1) as nat)
    }
}

/// The number a sequence of decimal digits spells, most significant first.
pub open spec fn digits_value(s: Seq<u8>) -> nat
    decreases s.len(),
{
    if s.len() == 0 {
        0
    } else {
        digits_value(s.drop_last()) * 10 + s.last() as nat
    }
}

/// Every entry is a decimal digit.
pub open spec fn all_digits(s: Seq<u8>) -> bool {
    forall|i: int| 0 <= i < s.len() ==> #[trigger] s[i] < 10
}

/// `n` zero digits.
pub open spec fn zero_digits(n: nat) -> Seq<u8> {
    Seq::new(n, |i: int| 0u8)
}

pub proof fn lemma_pow10_positive(n: nat)
    ensures
        pow10(n) >= 1,
    decreases n,
{
    if n > 0 {
        lemma_pow10_positive((n - 1) as nat);
    }
}

/// The value of a concatenation: the front scaled past the back, plus the back.
pub proof fn lemma_value_concat(a: Seq<u8>, b: Seq<u8>)
    ensures
        digits_value(a + b) == digits_value(a) * pow10(b.len()) + digits_value(b),
    decreases b.len(),
{
    if b.len() == 0 {
        assert(a + b =~= a);
        assert(pow10(b.len()) == 1);
        assert(digits_value(b) == 0);
        assert(digits_value(a) * 1 == digits_value(a));
    } else {
        let b1 = b.drop_last();
        assert((a + b).drop_last() =~= a + b1);
        assert((a + b).last() == b.last());
        lemma_value_concat(a, b1);
        let va = digits_value(a);
        let vb1 = digits_value(b1);
        let p = pow10(b1.len());
        let l = b.last() as nat;
        assert(digits_value(a + b1) == va * p + vb1);
        assert(digits_value(a + b) == digits_value(a + b1) * 10 + l);
        assert(digits_value(b) == vb1 * 10 + l);
        assert(b.len() == b1.len() + 1);
        assert(pow10(b.len()) == 10 * p);
        assert((va * p + vb1) * 10 + l == va * (10 * p) + (vb1 * 10 + l)) by (nonlinear_arith);
        assert(digits_value(a + b) == digits_value(a) * pow10(b.len()) + digits_value(b));
    }
}

/// Digits below ten spell a number below ten to the power of their count.
pub proof fn lemma_value_bound(s: Seq<u8>)
    requires
        all_digits(s),
    ensures
        digits_value(s) < pow10(s.len()),
    decreases s.len(),
{
    if s.len() > 0 {
        let s1 = s.drop_last();
        assert(all_digits(s1)) by {
            assert forall|i: int| 0 <= i < s1.len() implies #[trigger] s1[i] < 10 by {
                assert(s1[i] == s[i]);
            }
        }
        lemma_value_bound(s1);
        assert(s.last() == s[s.len() - 1]);
        let v1 = digits_value(s1);
        let p = pow10(s1.len());
        assert(v1 + 1 <= p);
        assert(v1 * 10 + s.last() < p * 10) by (nonlinear_arith)
            requires
                v1 + 1 <= p,
                s.last() < 10,
        ;
    }
}

/// One digit spells itself.
pub proof fn lemma_single_digit(d: u8)
    ensures
        digits_value(seq![d]) == d,
{
    assert(seq![d].drop_last() =~= Seq::<u8>::empty());
    reveal_with_fuel(digits_value, 2);
}

/// Zeros spell nothing.
pub proof fn lemma_zeros_value(n: nat)
    ensures
        digits_value(zero_digits(n)) == 0,
    decreases n,
{
    if n > 0 {
        assert(zero_digits(n).drop_last() =~= zero_digits((n - 1) as nat));
        lemma_zeros_value((n - 1) as nat);
    }
}

/// Zeros in front change nothing; zeros behind scale by ten per zero.
pub proof fn lemma_padding(s: Seq<u8>, front: nat, back: nat)
    ensures
        digits_value(zero_digits(front) + s) == digits_value(s),
        digits_value(s + zero_digits(back)) == digits_value(s) * pow10(back),
{
    lemma_value_concat(zero_digits(front), s);
    lemma_zeros_value(front);
    lemma_value_concat(s, zero_digits(back));
    lemma_zeros_value(back);
}

/// A leading digit that is not zero puts the value at or above the power of ten below its place.
pub proof fn lemma_value_lower_bound(s: Seq<u8>)
    requires
        s.len() > 0,
        s[0] != 0,
    ensures
        digits_value(s) >= pow10((s.len() - 1) as nat),
        digits_value(s) > 0,
{
    let rest = s.drop_first();
    assert(seq![s[0]] + rest =~= s);
    lemma_value_concat(seq![s[0]], rest);
    lemma_single_digit(s[0]);
    lemma_pow10_positive(rest.len());
    let p = pow10(rest.len());
    assert(s[0] * p >= p) by (nonlinear_arith)
        requires
            s[0] >= 1,
    ;
}

/// Of two digit sequences of one length that agree up to `i` and differ there, the one with
/// the smaller digit at `i` is the smaller number.
pub proof fn lemma_first_difference(a: Seq<u8>, b: Seq<u8>, i: int)
    requires
        a.len() == b.len(),
        all_digits(a),
        all_digits(b),
        0 <= i < a.len(),
        a.take(i) =~= b.take(i),
        a[i] < b[i],
    ensures
        digits_value(a) < digits_value(b),
{
    let n = a.len();
    let pa = a.take(i);
    let ra = a.skip(i + 1);
    let rb = b.skip(i + 1);
    assert(a =~= pa + seq![a[i]] + ra);
    assert(b =~= pa + seq![b[i]] + rb);
    assert(all_digits(ra)) by {
        assert forall|j: int| 0 <= j < ra.len() implies #[trigger] ra[j] < 10 by {
            assert(ra[j] == a[i + 1 + j]);
        }
    }
    assert(all_digits(rb)) by {
        assert forall|j: int| 0 <= j < rb.len() implies #[trigger] rb[j] < 10 by {
            assert(rb[j] == b[i + 1 + j]);
        }
    }
    lemma_value_concat(pa + seq![a[i]], ra);
    lemma_value_concat(pa + seq![b[i]], rb);
    lemma_value_concat(pa, seq![a[i]]);
    lemma_value_concat(pa, seq![b[i]]);
    lemma_single_digit(a[i]);
    lemma_single_digit(b[i]);
    assert(pow10(1) == 10) by {
        reveal_with_fuel(pow10, 2);
    }
    lemma_value_bound(ra);
    let p = pow10(ra.len());
    let vp = digits_value(pa);
    let x = a[i] as int;
    let y = b[i] as int;
    let va = digits_value(ra) as int;
    let vb = digits_value(rb) as int;
    assert((vp * 10 + x) * p + va < (vp * 10 + y) * p + vb) by (nonlinear_arith)
        requires
            x < y,
            0 <= va < p,
            0 <= vb,
    ;
}

} // verus!
