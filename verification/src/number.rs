//! Numbers as exact decimals: what a JSON numeral says, compared and printed without rounding.

use vstd::prelude::*;

use crate::digits::{
    all_digits, digits_value, lemma_first_difference, lemma_padding, lemma_pow10_positive,
    lemma_value_concat, lemma_value_lower_bound, lemma_zeros_value, pow10, zero_digits,
};
use crate::text::{chars_of, string_of};
use vstd::std_specs::cmp::PartialEqSpecImpl;

verus! {

/// A decimal number: whether it is negative, its digits (most significant first), and the power
/// of ten that the last digit stands for. Its value is the digits' number times ten to that power,
/// negated when the sign says so.
pub type NumV = (bool, Seq<u8>, int);

pub open spec fn is_digit_char(c: char) -> bool {
    '0' <= c && c <= '9'
}

/// The digit a character `'0'..='9'` stands for.
pub open spec fn digit_of_char(c: char) -> u8 {
    (c as int - 48) as u8
}

/// The character that writes a digit.
pub open spec fn digit_char(d: u8) -> char {
    (d as int + 48) as char
}

pub open spec fn char_digits(s: Seq<char>) -> Seq<u8> {
    s.map_values(|c: char| digit_of_char(c))
}

pub open spec fn digits_text(m: Seq<u8>) -> Seq<char> {
    m.map_values(|d: u8| digit_char(d))
}

pub open spec fn zero_chars(n: nat) -> Seq<char> {
    Seq::new(n, |i: int| '0')
}

/// Where the run of digit characters that starts at `p` ends.
pub open spec fn digits_end(t: Seq<char>, p: int) -> int
    decreases t.len() - p,
{
    if 0 <= p < t.len() && is_digit_char(t[p]) {
        digits_end(t, p + 1)
    } else {
        p
    }
}

/// What a numeral means, if `t` is one: an optional `-`, digits, optionally `.` and more digits,
/// and optionally `e` or `E`, a sign, and one to three digits of exponent; 24 characters at most.
/// These are the texts serde_json writes for the numbers it has read.
pub open spec fn numeral(t: Seq<char>) -> Option<NumV> {
    let n = t.len() as int;
    let neg = n > 0 && t[0] == '-';
    let p0: int = if neg { 1 } else { 0 };
    let p1 = digits_end(t, p0);
    let has_frac = p1 < n && t[p1] == '.';
    let p2 = if has_frac { digits_end(t, p1 + 1) } else { p1 };
    let has_exp = p2 < n && (t[p2] == 'e' || t[p2] == 'E');
    let signed_exp = has_exp && p2 + 1 < n && (t[p2 + 1] == '+' || t[p2 + 1] == '-');
    let p3 = if signed_exp { p2 + 2 } else { p2 + 1 };
    let p4 = if has_exp { digits_end(t, p3) } else { p2 };
    let frac: Seq<char> = if has_frac { t.subrange(p1 + 1, p2) } else { Seq::empty() };
    let exp_value: int = if has_exp { digits_value(char_digits(t.subrange(p3, p4))) as int } else { 0 };
    let exp_neg = signed_exp && t[p2 + 1] == '-';
    if n <= 24 && p1 > p0 && (has_frac ==> p2 > p1 + 1) && p4 == n && (has_exp ==> 1 <= p4 - p3 <= 3) {
        Some((neg, char_digits(t.subrange(p0, p1) + frac), (if exp_neg { -exp_value } else { exp_value }) - frac.len()))
    } else {
        None
    }
}

/// The first place at or after `i` whose digit is not zero.
pub open spec fn first_nonzero(m: Seq<u8>, i: int) -> int
    decreases m.len() - i,
{
    if 0 <= i < m.len() && m[i] == 0 {
        first_nonzero(m, i + 1)
    } else {
        i
    }
}

/// The end of the digits before `j` once trailing zeros are left off.
pub open spec fn nonzero_end(m: Seq<u8>, j: int) -> int
    decreases j,
{
    if 0 < j <= m.len() && m[j - 1] == 0 {
        nonzero_end(m, j - 1)
    } else {
        j
    }
}

/// The same number written without leading or trailing zero digits; zero has no digits and
/// exponent 0, and keeps its sign.
pub open spec fn canonical_of(n: NumV) -> NumV {
    let m = n.1;
    let s = first_nonzero(m, 0);
    if s >= m.len() {
        (n.0, Seq::empty(), 0)
    } else {
        let e = nonzero_end(m, m.len() as int);
        (n.0, m.subrange(s, e), n.2 + (m.len() - e))
    }
}

/// A number in the one form that each value (and sign of zero) has.
pub open spec fn is_canonical(n: NumV) -> bool {
    &&& all_digits(n.1)
    &&& n.1.len() <= 24
    &&& -1100 <= n.2 <= 1100
    &&& n.1.len() == 0 ==> n.2 == 0
    &&& n.1.len() > 0 ==> n.1[0] != 0 && n.1.last() != 0
}

/// The size of a number counted in units of ten to the power `k`.
pub open spec fn magnitude(n: NumV, k: int) -> int {
    (digits_value(n.1) * pow10((n.2 - k) as nat)) as int
}

pub open spec fn signed_scaled(n: NumV, k: int) -> int {
    if n.0 {
        -magnitude(n, k)
    } else {
        magnitude(n, k)
    }
}

pub open spec fn min_int(a: int, b: int) -> int {
    if a <= b {
        a
    } else {
        b
    }
}

/// `a` is at most `b`, as exact values (so the two zeros are equal).
pub open spec fn num_le(a: NumV, b: NumV) -> bool {
    let k = min_int(a.2, b.2);
    signed_scaled(a, k) <= signed_scaled(b, k)
}

/// The number is above zero.
pub open spec fn num_positive(a: NumV) -> bool {
    !a.0 && digits_value(a.1) > 0
}

/// The number is zero, of either sign.
pub open spec fn num_is_zero(a: NumV) -> bool {
    digits_value(a.1) == 0
}

/// How the number reads in plain decimal: a `-` for a negative number (and for negative zero),
/// no exponent, no leading zeros but the one before a point, and a point only before digits
/// that are not all zero.
pub open spec fn plain_text(n: NumV) -> Seq<char> {
    let sign: Seq<char> = if n.0 { seq!['-'] } else { Seq::empty() };
    let ds = digits_text(n.1);
    let len = n.1.len() as int;
    if len == 0 {
        sign + seq!['0']
    } else if n.2 >= 0 {
        sign + ds + zero_chars(n.2 as nat)
    } else if -n.2 < len {
        sign + ds.take(len + n.2) + seq!['.'] + ds.skip(len + n.2)
    } else {
        sign + seq!['0', '.'] + zero_chars((-n.2 - len) as nat) + ds
    }
}

/// How a natural number reads in decimal.
pub open spec fn nat_text(n: nat) -> Seq<char>
    decreases n,
{
    if n < 10 {
        seq![digit_char(n as u8)]
    } else {
        nat_text(n / 10) + seq![digit_char((n % 10) as u8)]
    }
}

/// An exact decimal number, held in its canonical form.
#[derive(Debug)]
pub struct Num {
    negative: bool,
    digits: Vec<u8>,
    exponent: i64,
}

impl View for Num {
    type V = NumV;

    closed spec fn view(&self) -> NumV {
        (self.negative, self.digits@, self.exponent as int)
    }
}

proof fn lemma_digits_end(t: Seq<char>, p: int)
    requires
        0 <= p <= t.len(),
    ensures
        p <= digits_end(t, p) <= t.len(),
        forall|q: int| p <= q < digits_end(t, p) ==> is_digit_char(#[trigger] t[q]),
        digits_end(t, p) < t.len() ==> !is_digit_char(t[digits_end(t, p)]),
    decreases t.len() - p,
{
    if p < t.len() && is_digit_char(t[p]) {
        lemma_digits_end(t, p + 1);
    }
}

proof fn lemma_first_nonzero(m: Seq<u8>, i: int)
    requires
        0 <= i <= m.len(),
    ensures
        i <= first_nonzero(m, i) <= m.len(),
        forall|q: int| i <= q < first_nonzero(m, i) ==> #[trigger] m[q] == 0,
        first_nonzero(m, i) < m.len() ==> m[first_nonzero(m, i)] != 0,
    decreases m.len() - i,
{
    if i < m.len() && m[i] == 0 {
        lemma_first_nonzero(m, i + 1);
    }
}

proof fn lemma_nonzero_end(m: Seq<u8>, j: int, i: int)
    requires
        0 <= i < j <= m.len(),
        m[i] != 0,
    ensures
        i < nonzero_end(m, j) <= j,
        m[nonzero_end(m, j) - 1] != 0,
        forall|q: int| nonzero_end(m, j) <= q < j ==> #[trigger] m[q] == 0,
    decreases j,
{
    if m[j - 1] == 0 {
        lemma_nonzero_end(m, j - 1, i);
    }
}

/// Canonical form keeps the digits within bounds and is canonical.
proof fn lemma_canonical_of(n: NumV)
    requires
        all_digits(n.1),
        n.1.len() <= 24,
        -1030 <= n.2 <= 1000,
    ensures
        is_canonical(canonical_of(n)),
        canonical_of(n).0 == n.0,
{
    let m = n.1;
    lemma_first_nonzero(m, 0);
    let s = first_nonzero(m, 0);
    if s < m.len() {
        lemma_nonzero_end(m, m.len() as int, s);
        let e = nonzero_end(m, m.len() as int);
        let d = m.subrange(s, e);
        assert(all_digits(d)) by {
            assert forall|q: int| 0 <= q < d.len() implies #[trigger] d[q] < 10 by {
                assert(d[q] == m[s + q]);
            }
        }
        assert(d[0] == m[s]);
        assert(d.last() == m[e - 1]);
    }
}

impl Num {
    #[verifier::type_invariant]
    spec fn well_formed(self) -> bool {
        is_canonical(self@)
    }

    /// Zero.
    pub fn zero() -> (r: Num)
        ensures
            r@ == (false, Seq::<u8>::empty(), 0int),
    {
        Num { negative: false, digits: Vec::new(), exponent: 0 }
    }

    /// The same number, in a value of its own.
    pub fn duplicate(&self) -> (r: Num)
        ensures
            r@ == self@,
    {
        proof {
            use_type_invariant(self);
        }
        let digits = self.digits.clone();
        assert(digits@ =~= self.digits@);
        Num { negative: self.negative, digits, exponent: self.exponent }
    }

    /// The number a numeral writes, or `None` for a text that is not a numeral of the kind
    /// [`numeral`] describes.
    #[verifier::rlimit(40)]
    #[verifier::spinoff_prover]
    pub fn from_numeral(text: &str) -> (r: Option<Num>)
        ensures
            match numeral(text@) {
                Some(p) => r matches Some(x) && x@ == canonical_of(p),
                None => r is None,
            },
    {
        let t = chars_of(text);
        let n = t.len();
        if n > 24 {
            return None;
        }
        let ghost ts = t@;
        let neg = n > 0 && t[0] == '-';
        let p0: usize = if neg { 1 } else { 0 };
        let p1 = scan_digits(&t, p0);
        if p1 == p0 {
            return None;
        }
        let has_frac = p1 < n && t[p1] == '.';
        let p2 = if has_frac { scan_digits(&t, p1 + 1) } else { p1 };
        if has_frac && p2 == p1 + 1 {
            return None;
        }
        let has_exp = p2 < n && (t[p2] == 'e' || t[p2] == 'E');
        let signed_exp = has_exp && p2 + 1 < n && (t[p2 + 1] == '+' || t[p2 + 1] == '-');
        let p3 = if signed_exp { p2 + 2 } else { p2 + 1 };
        let p4 = if has_exp { scan_digits(&t, p3) } else { p2 };
        if p4 != n {
            return None;
        }
        if has_exp && (p4 == p3 || p4 - p3 > 3) {
            return None;
        }
        proof {
            lemma_digits_end(ts, p0 as int);
            if has_frac {
                lemma_digits_end(ts, p1 + 1);
            }
            if has_exp {
                lemma_digits_end(ts, p3 as int);
            }
        }
        let mut mant: Vec<u8> = Vec::new();
        push_digits(&mut mant, &t, p0, p1);
        let frac_len: usize = if has_frac { p2 - p1 - 1 } else { 0 };
        if has_frac {
            push_digits(&mut mant, &t, p1 + 1, p2);
        }
        let ghost frac: Seq<char> = if has_frac { ts.subrange(p1 + 1, p2 as int) } else { Seq::empty() };
        proof {
            assert(char_digits(ts.subrange(p0 as int, p1 as int) + frac) =~= char_digits(ts.subrange(p0 as int, p1 as int)) + char_digits(frac));
            if !has_frac {
                assert(char_digits(frac) =~= Seq::<u8>::empty());
            }
        }
        let exp_value: u32 = if has_exp { small_value(&t, p3, p4) } else { 0 };
        let exp_neg = signed_exp && t[p2 + 1] == '-';
        let e: i64 = if exp_neg { -(exp_value as i64) } else { exp_value as i64 };
        let e = e - frac_len as i64;
        Some(canonical(neg, mant, e))
    }

    /// Whether this number is at most `other`.
    pub fn le(&self, other: &Num) -> (r: bool)
        ensures
            r == num_le(self@, other@),
    {
        proof {
            use_type_invariant(self);
            use_type_invariant(other);
        }
        let a_neg = self.negative && self.digits.len() > 0;
        let b_neg = other.negative && other.digits.len() > 0;
        let ghost k = min_int(self@.2, other@.2);
        proof {
            lemma_magnitude_sign(self@, k);
            lemma_magnitude_sign(other@, k);
        }
        if a_neg && !b_neg {
            true
        } else if !a_neg && b_neg {
            false
        } else {
            let c = compare_magnitudes(self, other);
            if a_neg {
                c >= 0
            } else {
                c <= 0
            }
        }
    }

    /// Whether this number is above zero.
    pub fn is_positive(&self) -> (r: bool)
        ensures
            r == num_positive(self@),
    {
        proof {
            use_type_invariant(self);
            lemma_magnitude_sign(self@, self@.2);
        }
        !self.negative && self.digits.len() > 0
    }

    /// Whether this number is zero (of either sign).
    pub fn is_zero(&self) -> (r: bool)
        ensures
            r == num_is_zero(self@),
    {
        proof {
            use_type_invariant(self);
            lemma_magnitude_sign(self@, self@.2);
        }
        self.digits.len() == 0
    }

    /// The number in plain decimal, as [`plain_text`] writes it.
    pub fn to_text(&self) -> (r: String)
        ensures
            r@ == plain_text(self@),
    {
        let mut out: Vec<char> = Vec::new();
        self.push_text(&mut out);
        assert(out@ =~= plain_text(self@));
        string_of(out.as_slice())
    }

    /// Appends the number in plain decimal.
    #[verifier::rlimit(40)]
    #[verifier::spinoff_prover]
    pub fn push_text(&self, out: &mut Vec<char>)
        ensures
            final(out)@ == old(out)@ + plain_text(self@),
    {
        proof {
            use_type_invariant(self);
        }
        let ghost start = out@;
        if self.negative {
            out.push('-');
        }
        let ghost sign: Seq<char> = if self.negative { seq!['-'] } else { Seq::empty() };
        assert(out@ =~= start + sign);
        let len = self.digits.len();
        let ghost ds = digits_text(self.digits@);
        if len == 0 {
            out.push('0');
            assert(out@ =~= start + plain_text(self@));
        } else if self.exponent >= 0 {
            push_digit_chars(out, &self.digits, 0, len);
            assert(self.digits@.subrange(0, len as int) =~= self.digits@);
            push_zero_chars(out, self.exponent as usize);
            assert(out@ =~= start + plain_text(self@));
        } else if ((-self.exponent) as usize) < len {
            let point = len - ((-self.exponent) as usize);
            push_digit_chars(out, &self.digits, 0, point);
            out.push('.');
            push_digit_chars(out, &self.digits, point, len);
            proof {
                assert(digits_text(self.digits@.subrange(0, point as int)) =~= ds.take(point as int));
                assert(digits_text(self.digits@.subrange(point as int, len as int)) =~= ds.skip(point as int));
            }
            assert(out@ =~= start + plain_text(self@));
        } else {
            out.push('0');
            out.push('.');
            push_zero_chars(out, ((-self.exponent) as usize) - len);
            push_digit_chars(out, &self.digits, 0, len);
            assert(self.digits@.subrange(0, len as int) =~= self.digits@);
            assert(out@ =~= start + plain_text(self@));
        }
    }
}

/// The same number written the same way: equal digits and exponent, and the same sign unless
/// both are zero (a zero of either sign equals the other, as floats do).
pub open spec fn num_same_form(a: NumV, b: NumV) -> bool {
    &&& a.1 == b.1
    &&& a.2 == b.2
    &&& (a.0 == b.0 || a.1.len() == 0)
}

impl PartialEq for Num {
    fn eq(&self, other: &Self) -> (r: bool) {
        proof {
            use_type_invariant(self);
            use_type_invariant(other);
        }
        if self.exponent != other.exponent || self.digits.len() != other.digits.len() {
            return false;
        }
        if self.digits.len() > 0 && self.negative != other.negative {
            return false;
        }
        let mut i: usize = 0;
        while i < self.digits.len()
            invariant
                i <= self.digits.len() == other.digits.len(),
                self.digits@.take(i as int) =~= other.digits@.take(i as int),
            decreases self.digits.len() - i,
        {
            if self.digits[i] != other.digits[i] {
                return false;
            }
            assert(self.digits@.take(i + 1) =~= self.digits@.take(i as int).push(self.digits@[i as int]));
            assert(other.digits@.take(i + 1) =~= other.digits@.take(i as int).push(other.digits@[i as int]));
            i = i + 1;
        }
        assert(self.digits@ =~= self.digits@.take(i as int));
        assert(other.digits@ =~= other.digits@.take(i as int));
        true
    }
}

impl PartialEqSpecImpl for Num {
    open spec fn obeys_eq_spec() -> bool {
        true
    }

    open spec fn eq_spec(&self, other: &Num) -> bool {
        num_same_form(self@, other@)
    }
}

impl Clone for Num {
    fn clone(&self) -> (r: Self)
        ensures
            r@ == self@,
    {
        self.duplicate()
    }
}

/// Where the digits that start at `p` end.
fn scan_digits(t: &Vec<char>, p: usize) -> (r: usize)
    requires
        p <= t.len(),
    ensures
        r as int == digits_end(t@, p as int),
        p <= r <= t.len(),
{
    let mut i = p;
    while i < t.len() && '0' <= t[i] && t[i] <= '9'
        invariant
            p <= i <= t.len(),
            digits_end(t@, p as int) == digits_end(t@, i as int),
        decreases t.len() - i,
    {
        i = i + 1;
    }
    i
}

/// Appends the digits that the characters `t[from..to]` write.
fn push_digits(out: &mut Vec<u8>, t: &Vec<char>, from: usize, to: usize)
    requires
        from <= to <= t.len(),
        forall|q: int| from <= q < to ==> is_digit_char(#[trigger] t@[q]),
        all_digits(old(out)@),
    ensures
        final(out)@ == old(out)@ + char_digits(t@.subrange(from as int, to as int)),
        all_digits(final(out)@),
{
    let ghost start = out@;
    let mut i = from;
    while i < to
        invariant
            from <= i <= to <= t.len(),
            forall|q: int| from <= q < to ==> is_digit_char(#[trigger] t@[q]),
            out@ == start + char_digits(t@.subrange(from as int, i as int)),
            all_digits(out@),
            all_digits(start),
        decreases to - i,
    {
        let c = t[i];
        assert(is_digit_char(t@[i as int]));
        let d = (c as u32 - 48) as u8;
        let ghost prev = out@;
        out.push(d);
        assert(t@.subrange(from as int, i + 1) =~= t@.subrange(from as int, i as int).push(c));
        assert(out@ =~= start + char_digits(t@.subrange(from as int, i + 1)));
        assert(all_digits(out@)) by {
            assert forall|q: int| 0 <= q < out@.len() implies #[trigger] out@[q] < 10 by {
                if q < out@.len() - 1 {
                    assert(out@[q] == prev[q]);
                }
            }
        }
        i = i + 1;
    }
}

/// The value of the one to three digit characters `t[from..to]`.
fn small_value(t: &Vec<char>, from: usize, to: usize) -> (r: u32)
    requires
        from < to <= t.len(),
        to - from <= 3,
        forall|q: int| from <= q < to ==> is_digit_char(#[trigger] t@[q]),
    ensures
        r as int == digits_value(char_digits(t@.subrange(from as int, to as int))),
        r < 1000,
{
    let mut v: u32 = 0;
    let mut i = from;
    while i < to
        invariant
            from <= i <= to <= t.len(),
            to - from <= 3,
            forall|q: int| from <= q < to ==> is_digit_char(#[trigger] t@[q]),
            v as int == digits_value(char_digits(t@.subrange(from as int, i as int))),
            v < pow10((i - from) as nat),
        decreases to - i,
    {
        let c = t[i];
        assert(is_digit_char(t@[i as int]));
        let ghost prev = char_digits(t@.subrange(from as int, i as int));
        let ghost next = char_digits(t@.subrange(from as int, i + 1));
        assert(next.drop_last() =~= prev);
        assert(next.last() == digit_of_char(c));
        proof {
            assert(pow10((i + 1 - from) as nat) == 10 * pow10((i - from) as nat));
            assert(pow10(0) == 1);
            reveal_with_fuel(pow10, 4);
        }
        v = v * 10 + (c as u32 - 48);
        i = i + 1;
    }
    proof {
        reveal_with_fuel(pow10, 4);
    }
    v
}

/// The canonical number with this sign, these digits and this exponent.
fn canonical(neg: bool, m: Vec<u8>, e: i64) -> (r: Num)
    requires
        all_digits(m@),
        m.len() <= 24,
        -1030 <= e <= 1000,
    ensures
        r@ == canonical_of((neg, m@, e as int)),
{
    proof {
        lemma_canonical_of((neg, m@, e as int));
        lemma_first_nonzero(m@, 0);
    }
    let len = m.len();
    let mut s: usize = 0;
    while s < len && m[s] == 0
        invariant
            s <= len == m.len(),
            first_nonzero(m@, 0) == first_nonzero(m@, s as int),
        decreases len - s,
    {
        s = s + 1;
    }
    if s == len {
        return Num { negative: neg, digits: Vec::new(), exponent: 0 };
    }
    proof {
        lemma_nonzero_end(m@, len as int, s as int);
    }
    let mut end: usize = len;
    while end > 0 && m[end - 1] == 0
        invariant
            end <= len == m.len(),
            nonzero_end(m@, len as int) == nonzero_end(m@, end as int),
        decreases end,
    {
        end = end - 1;
    }
    let mut d: Vec<u8> = Vec::new();
    let mut i = s;
    while i < end
        invariant
            s <= i <= end <= len == m.len(),
            d@ == m@.subrange(s as int, i as int),
        decreases end - i,
    {
        d.push(m[i]);
        assert(m@.subrange(s as int, i + 1) =~= m@.subrange(s as int, i as int).push(m@[i as int]));
        i = i + 1;
    }
    Num { negative: neg, digits: d, exponent: e + (len - end) as i64 }
}

/// The number's size in units of ten to the `k`: zero exactly when it has no digits.
proof fn lemma_magnitude_sign(n: NumV, k: int)
    requires
        is_canonical(n),
        k <= n.2,
    ensures
        n.1.len() == 0 ==> digits_value(n.1) == 0 && magnitude(n, k) == 0,
        n.1.len() > 0 ==> digits_value(n.1) > 0 && magnitude(n, k) > 0,
{
    lemma_pow10_positive((n.2 - k) as nat);
    let p = pow10((n.2 - k) as nat);
    if n.1.len() == 0 {
        assert(digits_value(n.1) == 0);
        assert(0 * p == 0);
    } else {
        lemma_value_lower_bound(n.1);
        let v = digits_value(n.1);
        assert(v * p > 0) by (nonlinear_arith)
            requires
                v > 0,
                p >= 1,
        ;
    }
}

/// `zeros(front) ++ m ++ zeros(back)`.
fn padded(m: &Vec<u8>, front: usize, back: usize) -> (r: Vec<u8>)
    requires
        all_digits(m@),
    ensures
        r@ == zero_digits(front as nat) + m@ + zero_digits(back as nat),
        all_digits(r@),
{
    let mut r: Vec<u8> = Vec::new();
    let mut i: usize = 0;
    while i < front
        invariant
            i <= front,
            r@ == zero_digits(i as nat),
        decreases front - i,
    {
        r.push(0);
        assert(r@ =~= zero_digits((i + 1) as nat));
        i = i + 1;
    }
    let mut j: usize = 0;
    while j < m.len()
        invariant
            j <= m.len(),
            r@ == zero_digits(front as nat) + m@.take(j as int),
        decreases m.len() - j,
    {
        r.push(m[j]);
        assert(m@.take(j + 1) =~= m@.take(j as int).push(m@[j as int]));
        assert(r@ =~= zero_digits(front as nat) + m@.take(j + 1));
        j = j + 1;
    }
    assert(m@.take(m.len() as int) =~= m@);
    let mut k: usize = 0;
    while k < back
        invariant
            k <= back,
            r@ == zero_digits(front as nat) + m@ + zero_digits(k as nat),
        decreases back - k,
    {
        r.push(0);
        assert(r@ =~= zero_digits(front as nat) + m@ + zero_digits((k + 1) as nat));
        k = k + 1;
    }
    assert(all_digits(r@)) by {
        let z1 = zero_digits(front as nat);
        let z2 = zero_digits(back as nat);
        assert forall|q: int| 0 <= q < r@.len() implies #[trigger] r@[q] < 10 by {
            if q < front {
                assert(r@[q] == z1[q]);
            } else if q < front + m.len() {
                assert(r@[q] == m@[q - front]);
            } else {
                assert(r@[q] == z2[q - front - m.len()]);
            }
        }
    }
    r
}

proof fn lemma_padded_value(m: Seq<u8>, front: nat, back: nat)
    ensures
        digits_value(zero_digits(front) + m + zero_digits(back)) == digits_value(m) * pow10(back),
{
    lemma_value_concat(zero_digits(front) + m, zero_digits(back));
    lemma_padding(m, front, back);
    lemma_zeros_value(back);
}

/// How the sizes of two numbers compare: -1, 0 or 1.
fn compare_magnitudes(a: &Num, b: &Num) -> (r: i8)
    ensures
        ({
            let k = min_int(a@.2, b@.2);
            &&& (r == -1) == (magnitude(a@, k) < magnitude(b@, k))
            &&& (r == 0) == (magnitude(a@, k) == magnitude(b@, k))
            &&& (r == 1) == (magnitude(a@, k) > magnitude(b@, k))
        }),
{
    proof {
        use_type_invariant(a);
        use_type_invariant(b);
    }
    let k = if a.exponent <= b.exponent { a.exponent } else { b.exponent };
    let back_a = (a.exponent - k) as usize;
    let back_b = (b.exponent - k) as usize;
    let len_a = a.digits.len() + back_a;
    let len_b = b.digits.len() + back_b;
    let width = if len_a <= len_b { len_b } else { len_a };
    let x = padded(&a.digits, width - len_a, back_a);
    let y = padded(&b.digits, width - len_b, back_b);
    proof {
        lemma_padded_value(a.digits@, (width - len_a) as nat, back_a as nat);
        lemma_padded_value(b.digits@, (width - len_b) as nat, back_b as nat);
    }
    let ghost kk = min_int(a@.2, b@.2);
    assert(kk == k as int);
    assert(digits_value(x@) == magnitude(a@, kk));
    assert(digits_value(y@) == magnitude(b@, kk));
    compare_digit_seqs(&x, &y)
}

/// How the numbers that two digit sequences of one length spell compare: -1, 0 or 1.
fn compare_digit_seqs(x: &Vec<u8>, y: &Vec<u8>) -> (r: i8)
    requires
        x.len() == y.len(),
        all_digits(x@),
        all_digits(y@),
    ensures
        (r == -1) == (digits_value(x@) < digits_value(y@)),
        (r == 0) == (digits_value(x@) == digits_value(y@)),
        (r == 1) == (digits_value(x@) > digits_value(y@)),
{
    let width = x.len();
    let mut i: usize = 0;
    while i < width
        invariant
            i <= width == x.len() == y.len(),
            x@.take(i as int) =~= y@.take(i as int),
            all_digits(x@),
            all_digits(y@),
        decreases width - i,
    {
        if x[i] < y[i] {
            proof {
                lemma_first_difference(x@, y@, i as int);
            }
            return -1;
        }
        if y[i] < x[i] {
            proof {
                lemma_first_difference(y@, x@, i as int);
            }
            return 1;
        }
        assert(x@.take(i + 1) =~= x@.take(i as int).push(x@[i as int]));
        assert(y@.take(i + 1) =~= y@.take(i as int).push(y@[i as int]));
        i = i + 1;
    }
    assert(x@ =~= x@.take(width as int));
    assert(y@ =~= y@.take(width as int));
    0
}

/// Appends the characters that write `m[from..to]`.
fn push_digit_chars(out: &mut Vec<char>, m: &Vec<u8>, from: usize, to: usize)
    requires
        from <= to <= m.len(),
        all_digits(m@),
    ensures
        final(out)@ == old(out)@ + digits_text(m@.subrange(from as int, to as int)),
{
    let ghost start = out@;
    let mut i = from;
    while i < to
        invariant
            from <= i <= to <= m.len(),
            all_digits(m@),
            out@ == start + digits_text(m@.subrange(from as int, i as int)),
        decreases to - i,
    {
        let d = m[i];
        assert(d < 10);
        out.push((d + 48) as char);
        assert(m@.subrange(from as int, i + 1) =~= m@.subrange(from as int, i as int).push(d));
        assert(out@ =~= start + digits_text(m@.subrange(from as int, i + 1)));
        i = i + 1;
    }
}

/// Appends `n` zero characters.
fn push_zero_chars(out: &mut Vec<char>, n: usize)
    ensures
        final(out)@ == old(out)@ + zero_chars(n as nat),
{
    let ghost start = out@;
    let mut i: usize = 0;
    while i < n
        invariant
            i <= n,
            out@ == start + zero_chars(i as nat),
        decreases n - i,
    {
        out.push('0');
        assert(out@ =~= start + zero_chars((i + 1) as nat));
        i = i + 1;
    }
}

/// Appends `n` in decimal.
pub fn push_decimal(out: &mut Vec<char>, n: u64)
    ensures
        final(out)@ == old(out)@ + nat_text(n as nat),
    decreases n,
{
    if n >= 10 {
        push_decimal(out, n / 10);
    }
    let d = (n % 10) as u8;
    out.push((d + 48) as char);
}

/// Two numbers are equal in value: each is at most the other.
pub open spec fn num_same_value(a: NumV, b: NumV) -> bool {
    num_le(a, b) && num_le(b, a)
}

/// Leaving off leading and trailing zero digits keeps a number's value: what the reader keeps
/// of a numeral is exactly the number it writes.
pub proof fn law_canonical_keeps_value(n: NumV)
    requires
        all_digits(n.1),
    ensures
        num_same_value(canonical_of(n), n),
        canonical_of(n).0 == n.0,
{
    let m = n.1;
    let len = m.len() as int;
    lemma_first_nonzero(m, 0);
    let s = first_nonzero(m, 0);
    let c = canonical_of(n);
    if s >= len {
        assert(m =~= zero_digits(len as nat)) by {
            assert forall|q: int| 0 <= q < len implies m[q] == zero_digits(len as nat)[q] by {
                assert(m[q] == 0);
            }
        }
        lemma_zeros_value(len as nat);
        let k = min_int(c.2, n.2);
        lemma_pow10_positive((c.2 - k) as nat);
        lemma_pow10_positive((n.2 - k) as nat);
        assert(c.1 =~= Seq::<u8>::empty());
        assert(digits_value(c.1) == 0);
        assert(digits_value(m) == 0);
        let pc = pow10((c.2 - k) as nat);
        let pn = pow10((n.2 - k) as nat);
        assert(0 * pc == 0 && 0 * pn == 0);
        assert(magnitude(c, k) == 0);
        assert(magnitude(n, k) == 0);
    } else {
        lemma_nonzero_end(m, len, s);
        let e = nonzero_end(m, len);
        let d = m.subrange(s, e);
        let z = (len - e) as nat;
        assert(m =~= zero_digits(s as nat) + d + zero_digits(z)) by {
            let w = zero_digits(s as nat) + d + zero_digits(z);
            assert forall|q: int| 0 <= q < len implies m[q] == w[q] by {
                if q < s {
                    assert(m[q] == 0);
                } else if q < e {
                    assert(w[q] == d[q - s]);
                } else {
                    assert(m[q] == 0);
                }
            }
        }
        lemma_value_concat(zero_digits(s as nat) + d, zero_digits(z));
        lemma_padding(d, s as nat, z);
        lemma_zeros_value(z);
        assert(digits_value(m) == digits_value(d) * pow10(z));
        assert(c == (n.0, d, n.2 + z));
        let k = min_int(c.2, n.2);
        assert(k == n.2);
        assert(magnitude(c, k) == digits_value(d) * pow10(z));
        assert(pow10(0) == 1);
        assert(magnitude(n, k) == digits_value(m) * 1);
    }
}

/// The order on numbers: each number is at most itself, any two are ordered one way or the
/// other, the two zeros are equal, and a number is positive exactly when it is not at most
/// zero.
pub proof fn law_num_order(a: NumV, b: NumV)
    ensures
        num_le(a, a),
        num_le(a, b) || num_le(b, a),
        num_is_zero(a) && num_is_zero(b) ==> num_le(a, b),
        num_positive(a) <==> !num_le(a, (false, Seq::empty(), 0)),
{
    let z: NumV = (false, Seq::empty(), 0);
    let k = min_int(a.2, z.2);
    lemma_pow10_positive((a.2 - k) as nat);
    assert(digits_value(z.1) == 0);
    assert(magnitude(z, k) == 0);
    let p = pow10((a.2 - k) as nat);
    if digits_value(a.1) > 0 {
        assert(digits_value(a.1) * p > 0) by (nonlinear_arith)
            requires
                digits_value(a.1) > 0,
                p >= 1,
        ;
    } else {
        assert(digits_value(a.1) * p == 0);
    }
    if num_is_zero(a) && num_is_zero(b) {
        let kb = min_int(a.2, b.2);
        assert(0 * pow10((a.2 - kb) as nat) == 0);
        assert(0 * pow10((b.2 - kb) as nat) == 0);
    }
}

/// A natural number's decimal text is made of digit characters, starts with a digit that is
/// not zero (unless the number is zero, written `0`), and spells the number back.
pub proof fn law_nat_text_reads_back(n: nat)
    ensures
        nat_text(n).len() >= 1,
        forall|i: int| 0 <= i < nat_text(n).len() ==> is_digit_char(#[trigger] nat_text(n)[i]),
        n > 0 ==> nat_text(n)[0] != '0',
        n == 0 ==> nat_text(n) == seq!['0'],
        digits_value(char_digits(nat_text(n))) == n,
    decreases n,
{
    if n >= 10 {
        law_nat_text_reads_back(n / 10);
        let front = nat_text(n / 10);
        let d = digit_char((n % 10) as u8);
        let t = nat_text(n);
        assert(t == front + seq![d]);
        assert forall|i: int| 0 <= i < t.len() implies is_digit_char(#[trigger] t[i]) by {
            if i < front.len() {
                assert(t[i] == front[i]);
            }
        }
        assert(t[0] == front[0]);
        let ds = char_digits(t);
        assert(ds.drop_last() =~= char_digits(front));
        assert(ds.last() == (n % 10) as u8);
        assert(digits_value(ds) == digits_value(ds.drop_last()) * 10 + ds.last() as nat);
        assert((n / 10) * 10 + n % 10 == n);
    } else {
        let ds = char_digits(nat_text(n));
        assert(ds.len() == 1 && ds[0] == n as u8);
        assert(ds.drop_last() =~= Seq::<u8>::empty());
        assert(digits_value(ds) == digits_value(ds.drop_last()) * 10 + ds.last() as nat);
    }
}

} // verus!
