//! A document's layers in a few words: how many of each type, in order of first appearance.

use vstd::prelude::*;

use crate::model::{LayerV, LottieModel};
use crate::number::{nat_text, push_decimal};
use crate::report::kind_text;
use crate::text::{push_str, string_of};

verus! {

/// Where `name` first stands in `counts`, or `counts.len()` when it does not.
pub open spec fn name_index(counts: Seq<(Seq<char>, nat)>, name: Seq<char>, from: int) -> int
    decreases counts.len() - from,
{
    if 0 <= from < counts.len() && counts[from].0 != name {
        name_index(counts, name, from + 1)
    } else {
        from
    }
}

/// How many times each name occurs, in order of first appearance.
pub open spec fn tally(names: Seq<Seq<char>>) -> Seq<(Seq<char>, nat)>
    decreases names.len(),
{
    if names.len() == 0 {
        Seq::empty()
    } else {
        let t = tally(names.drop_last());
        let k = names.last();
        let j = name_index(t, k, 0);
        if j < t.len() {
            t.update(j, (k, t[j].1 + 1))
        } else {
            t.push((k, 1))
        }
    }
}

/// `"3 shape"`.
pub open spec fn count_text(c: (Seq<char>, nat)) -> Seq<char> {
    nat_text(c.1) + " "@ + c.0
}

/// The counts joined by `", "`.
pub open spec fn join_counts(counts: Seq<(Seq<char>, nat)>) -> Seq<char>
    decreases counts.len(),
{
    if counts.len() <= 1 {
        if counts.len() == 0 {
            Seq::empty()
        } else {
            count_text(counts[0])
        }
    } else {
        join_counts(counts.drop_last()) + ", "@ + count_text(counts.last())
    }
}

/// `"0"` for no layers, else the counts joined.
pub open spec fn summary_text(counts: Seq<(Seq<char>, nat)>) -> Seq<char> {
    if counts.len() == 0 {
        "0"@
    } else {
        join_counts(counts)
    }
}

/// The layer-type names of a document's layers, in file order.
pub open spec fn layer_names(layers: Seq<LayerV>) -> Seq<Seq<char>> {
    layers.map_values(|l: LayerV| kind_text(l.kind))
}

pub proof fn lemma_name_index(counts: Seq<(Seq<char>, nat)>, name: Seq<char>, from: int)
    requires
        0 <= from <= counts.len(),
    ensures
        from <= name_index(counts, name, from) <= counts.len(),
        name_index(counts, name, from) < counts.len() ==> counts[name_index(counts, name, from)].0
            == name,
    decreases counts.len() - from,
{
    if from < counts.len() && counts[from].0 != name {
        lemma_name_index(counts, name, from + 1);
    }
}

/// "4 shape", or "3 shape, 1 null": the layer count, by kind, in order of first appearance.
pub fn layer_summary(model: &LottieModel) -> (r: String)
    ensures
        r@ == summary_text(tally(layer_names(model@.layers))),
{
    let ghost names = layer_names(model@.layers);
    let mut counts: Vec<(String, usize)> = Vec::new();
    let mut i: usize = 0;
    assert(names.take(0) =~= Seq::<Seq<char>>::empty());
    while i < model.layers.len()
        invariant
            i <= model.layers.len(),
            names == layer_names(model@.layers),
            counts@.map_values(|p: (String, usize)| (p.0@, p.1 as nat)) =~= tally(names.take(i as int)),
            forall|q: int| 0 <= q < counts@.len() ==> #[trigger] counts@[q].1 <= i,
        decreases model.layers.len() - i,
    {
        let ghost before = counts@.map_values(|p: (String, usize)| (p.0@, p.1 as nat));
        let name = model.layers[i].kind.describe();
        assert(names[i as int] == name@);
        assert(names.take(i + 1).drop_last() =~= names.take(i as int));
        assert(names.take(i + 1).last() == name@);
        proof {
            lemma_name_index(before, name@, 0);
        }
        let mut j: usize = 0;
        while j < counts.len() && counts[j].0 != name
            invariant
                j <= counts.len(),
                before == counts@.map_values(|p: (String, usize)| (p.0@, p.1 as nat)),
                name_index(before, name@, 0) == name_index(before, name@, j as int),
            decreases counts.len() - j,
        {
            j = j + 1;
        }
        if j < counts.len() {
            let n = counts[j].1;
            counts.set(j, (name, n + 1));
            assert(counts@.map_values(|p: (String, usize)| (p.0@, p.1 as nat)) =~= tally(names.take(i + 1)));
        } else {
            counts.push((name, 1));
            assert(counts@.map_values(|p: (String, usize)| (p.0@, p.1 as nat)) =~= tally(names.take(i + 1)));
        }
        i = i + 1;
    }
    assert(names.take(model.layers.len() as int) =~= names);
    let ghost all = counts@.map_values(|p: (String, usize)| (p.0@, p.1 as nat));
    let mut out: Vec<char> = Vec::new();
    if counts.len() == 0 {
        push_str(&mut out, "0");
    } else {
        let mut k: usize = 0;
        while k < counts.len()
            invariant
                k <= counts.len(),
                counts.len() > 0,
                all == counts@.map_values(|p: (String, usize)| (p.0@, p.1 as nat)),
                out@ == join_counts(all.take(k as int)),
            decreases counts.len() - k,
        {
            let ghost before = out@;
            if k > 0 {
                push_str(&mut out, ", ");
            }
            push_decimal(&mut out, counts[k].1 as u64);
            push_str(&mut out, " ");
            push_str(&mut out, counts[k].0.as_str());
            assert(all.take(k + 1).drop_last() =~= all.take(k as int));
            if k == 0 {
                assert(all.take(1)[0] == all[0]);
                assert(out@ =~= join_counts(all.take(1)));
            } else {
                assert(out@ =~= join_counts(all.take(k + 1)));
            }
            k = k + 1;
        }
        assert(all.take(counts.len() as int) =~= all);
    }
    string_of(out.as_slice())
}

} // verus!
