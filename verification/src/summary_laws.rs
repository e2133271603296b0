//! What the layer summary counts: each kind once, with the number of layers of that kind, in
//! order of first appearance.

use vstd::prelude::*;

use crate::number::nat_text;
use crate::summary::{join_counts, lemma_name_index, name_index, summary_text, tally};

verus! {

/// How many of `names` are `k`.
pub open spec fn occurrences(names: Seq<Seq<char>>, k: Seq<char>) -> nat
    decreases names.len(),
{
    if names.len() == 0 {
        0
    } else {
        occurrences(names.drop_last(), k) + if names.last() == k {
            1nat
        } else {
            0nat
        }
    }
}

/// Each name is counted once: no two entries of the tally share a name.
pub open spec fn names_distinct(t: Seq<(Seq<char>, nat)>) -> bool {
    forall|p: int, q: int| 0 <= p < q < t.len() ==> #[trigger] t[p].0 != #[trigger] t[q].0
}

/// Each entry's count is how many of `names` carry its name.
pub open spec fn counts_exact(t: Seq<(Seq<char>, nat)>, names: Seq<Seq<char>>) -> bool {
    forall|p: int| 0 <= p < t.len() ==> #[trigger] t[p].1 == occurrences(names, t[p].0)
}

/// `k` is one of `names`.
pub open spec fn occurs_in(names: Seq<Seq<char>>, k: Seq<char>) -> bool {
    exists|i: int| 0 <= i < names.len() && #[trigger] names[i] == k
}

/// Some entry of `t` carries the name `k`.
pub open spec fn has_entry(t: Seq<(Seq<char>, nat)>, k: Seq<char>) -> bool {
    exists|p: int| 0 <= p < t.len() && #[trigger] t[p].0 == k
}

/// Each entry's name is one of `names`.
pub open spec fn keys_occur(t: Seq<(Seq<char>, nat)>, names: Seq<Seq<char>>) -> bool {
    forall|p: int| 0 <= p < t.len() ==> occurs_in(names, #[trigger] t[p].0)
}

/// Each of `names` has an entry.
pub open spec fn names_covered(t: Seq<(Seq<char>, nat)>, names: Seq<Seq<char>>) -> bool {
    forall|i: int| 0 <= i < names.len() ==> has_entry(t, #[trigger] names[i])
}

/// An entry stands before another exactly when its name shows up first: wherever the later
/// entry's name occurs, the earlier entry's name has occurred before.
pub open spec fn first_appearance_order(t: Seq<(Seq<char>, nat)>, names: Seq<Seq<char>>) -> bool {
    forall|p: int, q: int, j: int|
        0 <= p < q < t.len() && 0 <= j < names.len() && #[trigger] names[j] == #[trigger] t[q].0
            ==> occurs_before(names, #[trigger] t[p].0, j)
}

/// `k` is one of the first `j` of `names`.
pub open spec fn occurs_before(names: Seq<Seq<char>>, k: Seq<char>, j: int) -> bool {
    exists|i: int| 0 <= i < j && #[trigger] names[i] == k
}

proof fn lemma_name_absent(counts: Seq<(Seq<char>, nat)>, name: Seq<char>, from: int)
    requires
        0 <= from <= counts.len(),
        name_index(counts, name, from) == counts.len(),
    ensures
        forall|p: int| from <= p < counts.len() ==> #[trigger] counts[p].0 != name,
    decreases counts.len() - from,
{
    if from < counts.len() {
        lemma_name_absent(counts, name, from + 1);
    }
}

proof fn lemma_occurrences_none(names: Seq<Seq<char>>, k: Seq<char>)
    requires
        forall|i: int| 0 <= i < names.len() ==> #[trigger] names[i] != k,
    ensures
        occurrences(names, k) == 0,
    decreases names.len(),
{
    if names.len() > 0 {
        let init = names.drop_last();
        assert forall|i: int| 0 <= i < init.len() implies #[trigger] init[i] != k by {
            assert(init[i] == names[i]);
        }
        lemma_occurrences_none(init, k);
    }
}

/// The layer summary counts each kind exactly once: its names are pairwise distinct, each
/// count is the number of layers of that kind, every layer's kind has an entry, every entry
/// is the kind of some layer, and the entries stand in the order their kinds first appear.
pub proof fn law_tally_counts_by_kind(names: Seq<Seq<char>>)
    ensures
        names_distinct(tally(names)),
        counts_exact(tally(names), names),
        keys_occur(tally(names), names),
        names_covered(tally(names), names),
        first_appearance_order(tally(names), names),
    decreases names.len(),
{
    if names.len() > 0 {
        let init = names.drop_last();
        law_tally_counts_by_kind(init);
        let t = tally(init);
        let k = names.last();
        let last = names.len() - 1;
        let j = name_index(t, k, 0);
        lemma_name_index(t, k, 0);
        let u = tally(names);
        assert forall|i: int| 0 <= i < init.len() implies #[trigger] init[i] == names[i] by {}
        if j < t.len() {
            assert(u == t.update(j, (k, t[j].1 + 1)));
            assert forall|p: int| 0 <= p < u.len() implies #[trigger] u[p].0 == t[p].0 by {}
            assert(names_distinct(u)) by {
                assert forall|p: int, q: int| 0 <= p < q < u.len() implies #[trigger] u[p].0
                    != #[trigger] u[q].0 by {
                    assert(t[p].0 != t[q].0);
                }
            }
            assert(counts_exact(u, names)) by {
                assert forall|p: int| 0 <= p < u.len() implies #[trigger] u[p].1 == occurrences(
                    names,
                    u[p].0,
                ) by {
                    assert(t[p].1 == occurrences(init, t[p].0));
                    if p != j {
                        assert(t[p].0 != t[j].0);
                    }
                }
            }
            assert(keys_occur(u, names)) by {
                assert forall|p: int| 0 <= p < u.len() implies occurs_in(names, #[trigger] u[p].0) by {
                    assert(occurs_in(init, t[p].0));
                    let i = choose|i: int| 0 <= i < init.len() && #[trigger] init[i] == t[p].0;
                    assert(names[i] == u[p].0);
                }
            }
            assert(names_covered(u, names)) by {
                assert forall|i: int| 0 <= i < names.len() implies has_entry(u, #[trigger] names[i]) by {
                    if i == last {
                        assert(u[j].0 == names[i]);
                    } else {
                        assert(init[i] == names[i]);
                        assert(has_entry(t, init[i]));
                        let p = choose|p: int| 0 <= p < t.len() && #[trigger] t[p].0 == init[i];
                        assert(u[p].0 == names[i]);
                    }
                }
            }
            assert(first_appearance_order(u, names)) by {
                assert forall|p: int, q: int, jj: int|
                    0 <= p < q < u.len() && 0 <= jj < names.len() && #[trigger] names[jj]
                        == #[trigger] u[q].0 implies occurs_before(names, #[trigger] u[p].0, jj) by {
                    if jj == last {
                        // the last name is the entry at `j`, so `q` is `j`
                        assert(t[q].0 == k);
                        if q != j {
                            assert(t[q].0 != t[j].0);
                        }
                        assert(occurs_in(init, t[p].0));
                        let i = choose|i: int| 0 <= i < init.len() && #[trigger] init[i] == t[p].0;
                        assert(names[i] == u[p].0);
                    } else {
                        assert(init[jj] == t[q].0);
                        assert(occurs_before(init, t[p].0, jj));
                        let i = choose|i: int| 0 <= i < jj && #[trigger] init[i] == t[p].0;
                        assert(names[i] == u[p].0);
                    }
                }
            }
        } else {
            lemma_name_absent(t, k, 0);
            assert(u == t.push((k, 1)));
            assert forall|i: int| 0 <= i < init.len() implies #[trigger] init[i] != k by {
                assert(has_entry(t, init[i]));
                let p = choose|p: int| 0 <= p < t.len() && #[trigger] t[p].0 == init[i];
                assert(t[p].0 != k);
            }
            lemma_occurrences_none(init, k);
            assert forall|p: int| 0 <= p < t.len() implies #[trigger] u[p] == t[p] by {}
            assert(u[t.len() as int] == (k, 1nat));
            assert(names_distinct(u)) by {
                assert forall|p: int, q: int| 0 <= p < q < u.len() implies #[trigger] u[p].0
                    != #[trigger] u[q].0 by {
                    if q < t.len() {
                        assert(t[p].0 != t[q].0);
                    } else {
                        assert(t[p].0 != k);
                    }
                }
            }
            assert(counts_exact(u, names)) by {
                assert forall|p: int| 0 <= p < u.len() implies #[trigger] u[p].1 == occurrences(
                    names,
                    u[p].0,
                ) by {
                    if p < t.len() {
                        assert(t[p].1 == occurrences(init, t[p].0));
                        assert(t[p].0 != k);
                    }
                }
            }
            assert(keys_occur(u, names)) by {
                assert forall|p: int| 0 <= p < u.len() implies occurs_in(names, #[trigger] u[p].0) by {
                    if p < t.len() {
                        assert(occurs_in(init, t[p].0));
                        let i = choose|i: int| 0 <= i < init.len() && #[trigger] init[i] == t[p].0;
                        assert(names[i] == u[p].0);
                    } else {
                        assert(names[last] == u[p].0);
                    }
                }
            }
            assert(names_covered(u, names)) by {
                assert forall|i: int| 0 <= i < names.len() implies has_entry(u, #[trigger] names[i]) by {
                    if i == last {
                        assert(u[t.len() as int].0 == names[i]);
                    } else {
                        assert(init[i] == names[i]);
                        assert(has_entry(t, init[i]));
                        let p = choose|p: int| 0 <= p < t.len() && #[trigger] t[p].0 == init[i];
                        assert(u[p].0 == names[i]);
                    }
                }
            }
            assert(first_appearance_order(u, names)) by {
                assert forall|p: int, q: int, jj: int|
                    0 <= p < q < u.len() && 0 <= jj < names.len() && #[trigger] names[jj]
                        == #[trigger] u[q].0 implies occurs_before(names, #[trigger] u[p].0, jj) by {
                    if q == t.len() {
                        // the new name occurs nowhere before the last place
                        if jj != last {
                            assert(init[jj] == names[jj]);
                            assert(init[jj] != k);
                        }
                        assert(occurs_in(init, t[p].0));
                        let i = choose|i: int| 0 <= i < init.len() && #[trigger] init[i] == t[p].0;
                        assert(names[i] == u[p].0);
                    } else {
                        if jj == last {
                            assert(t[q].0 != k);
                        }
                        assert(init[jj] == t[q].0);
                        assert(occurs_before(init, t[p].0, jj));
                        let i = choose|i: int| 0 <= i < jj && #[trigger] init[i] == t[p].0;
                        assert(names[i] == u[p].0);
                    }
                }
            }
        }
    }
}

/// The summary text lists the counts in their order, one `"<count> <kind>"` each, split by
/// `", "`: one count alone is its number, a space and its kind; two runs of counts joined
/// read as the first run, `", "`, then the second; and no layers at all read `"0"`.
pub proof fn law_summary_text_joins(
    a: Seq<(Seq<char>, nat)>,
    b: Seq<(Seq<char>, nat)>,
    c: (Seq<char>, nat),
)
    ensures
        join_counts(seq![c]) == nat_text(c.1) + " "@ + c.0,
        summary_text(seq![c]) == nat_text(c.1) + " "@ + c.0,
        a.len() > 0 && b.len() > 0 ==> join_counts(a + b) == join_counts(a) + ", "@ + join_counts(
            b,
        ),
        summary_text(Seq::empty()) == "0"@,
    decreases b.len(),
{
    if a.len() > 0 && b.len() > 0 {
        let ab = a + b;
        assert(ab.drop_last() =~= a + b.drop_last());
        assert(ab.last() == b.last());
        if b.len() == 1 {
            assert(b.drop_last() =~= Seq::<(Seq<char>, nat)>::empty());
            assert(ab.drop_last() =~= a);
        } else {
            law_summary_text_joins(a, b.drop_last(), c);
            assert(join_counts(ab) =~= join_counts(a) + ", "@ + join_counts(b));
        }
    }
}

} // verus!
