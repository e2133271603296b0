//! What `verify` reports, defect by defect: each defect of the document and of every layer,
//! whatever else is wrong, once, in file order.

use vstd::prelude::*;

use crate::laws::law_asset_lookup;
use crate::model::{asset_lookup, document_issues, issues_of, layer_issues, layers_issues, IssueV, LayerKind, LottieModelV};
use crate::number::{num_le, num_positive};

verus! {

/// `x` names a real defect of `m`, with the values `m` carries.
pub open spec fn is_defect(m: LottieModelV, x: IssueV) -> bool {
    match x {
        IssueV::NoFrames { in_point, out_point } => in_point == m.in_point && out_point
            == m.out_point && num_le(m.out_point, m.in_point),
        IssueV::ZeroFrameRate { frame_rate } => frame_rate == m.frame_rate && !num_positive(
            m.frame_rate,
        ),
        IssueV::NoSize { width, height } => width == m.width && height == m.height && (
        !num_positive(m.width) || !num_positive(m.height)),
        IssueV::EmptyLayers => m.layers.len() == 0,
        IssueV::UnknownLayerType { layer, ty } => layer < m.layers.len() && m.layers[layer as int].kind
            == LayerKind::Unknown(ty),
        IssueV::MissingAsset { layer, id } => layer < m.layers.len() && m.layers[layer as int].ref_id
            == Some(id) && forall|j: int| 0 <= j < m.assets.len() ==> #[trigger] m.assets[j].id != id,
        IssueV::LayerNeverShows { layer } => layer < m.layers.len() && num_le(
            m.layers[layer as int].out_point,
            m.layers[layer as int].in_point,
        ),
    }
}

/// Where an issue stands in file order: the document's own (no frames, frame rate, size, no
/// layers) first, then each layer's in layer order, and within a layer its type, its asset,
/// then its timing.
pub open spec fn report_rank(x: IssueV) -> int {
    match x {
        IssueV::NoFrames { .. } => 0,
        IssueV::ZeroFrameRate { .. } => 1,
        IssueV::NoSize { .. } => 2,
        IssueV::EmptyLayers => 3,
        IssueV::UnknownLayerType { layer, .. } => 4 + 3 * (layer as int),
        IssueV::MissingAsset { layer, .. } => 5 + 3 * (layer as int),
        IssueV::LayerNeverShows { layer } => 6 + 3 * (layer as int),
    }
}

/// Each issue stands strictly after the ones before it in file order.
pub open spec fn in_file_order(s: Seq<IssueV>) -> bool {
    forall|a: int, b: int|
        0 <= a < b < s.len() ==> report_rank(#[trigger] s[a]) < report_rank(#[trigger] s[b])
}

spec fn ranks_within(s: Seq<IssueV>, lo: int, hi: int) -> bool {
    forall|k: int| 0 <= k < s.len() ==> lo <= #[trigger] report_rank(s[k]) < hi
}

proof fn lemma_join(s1: Seq<IssueV>, s2: Seq<IssueV>, lo: int, mid: int, hi: int)
    requires
        lo <= mid <= hi,
        in_file_order(s1),
        in_file_order(s2),
        ranks_within(s1, lo, mid),
        ranks_within(s2, mid, hi),
    ensures
        in_file_order(s1 + s2),
        ranks_within(s1 + s2, lo, hi),
        forall|x: IssueV| #[trigger] (s1 + s2).contains(x) <==> s1.contains(x) || s2.contains(x),
{
    let s = s1 + s2;
    assert forall|a: int, b: int| 0 <= a < b < s.len() implies report_rank(#[trigger] s[a])
        < report_rank(#[trigger] s[b]) by {
        if b < s1.len() {
            assert(s[a] == s1[a] && s[b] == s1[b]);
        } else if a < s1.len() {
            assert(s[a] == s1[a] && s[b] == s2[b - s1.len()]);
            assert(report_rank(s1[a]) < mid);
            assert(mid <= report_rank(s2[b - s1.len()]));
        } else {
            assert(s[a] == s2[a - s1.len()] && s[b] == s2[b - s1.len()]);
        }
    }
    assert forall|k: int| 0 <= k < s.len() implies lo <= #[trigger] report_rank(s[k]) < hi by {
        if k < s1.len() {
            assert(s[k] == s1[k]);
        } else {
            assert(s[k] == s2[k - s1.len()]);
        }
    }
    assert forall|x: IssueV| #[trigger] s.contains(x) <==> s1.contains(x) || s2.contains(x) by {
        if s.contains(x) {
            let k = choose|k: int| 0 <= k < s.len() && s[k] == x;
            if k < s1.len() {
                assert(s1[k] == x);
            } else {
                assert(s2[k - s1.len()] == x);
            }
        }
        if s1.contains(x) {
            let k = choose|k: int| 0 <= k < s1.len() && s1[k] == x;
            assert(s[k] == x);
        }
        if s2.contains(x) {
            let k = choose|k: int| 0 <= k < s2.len() && s2[k] == x;
            assert(s[k + s1.len()] == x);
        }
    }
}

proof fn lemma_one(s: Seq<IssueV>, lo: int, hi: int)
    requires
        s.len() <= 1,
        s.len() == 1 ==> lo <= report_rank(s[0]) < hi,
    ensures
        in_file_order(s),
        ranks_within(s, lo, hi),
        forall|x: IssueV| #[trigger] s.contains(x) <==> (s.len() == 1 && s[0] == x),
{
    assert forall|x: IssueV| #[trigger] s.contains(x) <==> (s.len() == 1 && s[0] == x) by {
        if s.contains(x) {
            let k = choose|k: int| 0 <= k < s.len() && s[k] == x;
        }
    }
}

proof fn lemma_document_issues(m: LottieModelV)
    ensures
        in_file_order(document_issues(m)),
        ranks_within(document_issues(m), 0, 4),
        forall|x: IssueV| #[trigger] document_issues(m).contains(x) <==> (is_defect(m, x)
            && report_rank(x) < 4),
{
    let d1: Seq<IssueV> = if num_le(m.out_point, m.in_point) {
        seq![IssueV::NoFrames { in_point: m.in_point, out_point: m.out_point }]
    } else {
        Seq::empty()
    };
    let d2: Seq<IssueV> = if !num_positive(m.frame_rate) {
        seq![IssueV::ZeroFrameRate { frame_rate: m.frame_rate }]
    } else {
        Seq::empty()
    };
    let d3: Seq<IssueV> = if !num_positive(m.width) || !num_positive(m.height) {
        seq![IssueV::NoSize { width: m.width, height: m.height }]
    } else {
        Seq::empty()
    };
    let d4: Seq<IssueV> = if m.layers.len() == 0 {
        seq![IssueV::EmptyLayers]
    } else {
        Seq::empty()
    };
    assert(document_issues(m) == d1 + d2 + d3 + d4);
    lemma_one(d1, 0, 1);
    lemma_one(d2, 1, 2);
    lemma_one(d3, 2, 3);
    lemma_one(d4, 3, 4);
    lemma_join(d1, d2, 0, 1, 2);
    lemma_join(d1 + d2, d3, 0, 2, 3);
    lemma_join(d1 + d2 + d3, d4, 0, 3, 4);
    assert forall|x: IssueV| #[trigger] document_issues(m).contains(x) <==> (is_defect(m, x)
        && report_rank(x) < 4) by {
        assert(document_issues(m).contains(x) <==> d1.contains(x) || d2.contains(x)
            || d3.contains(x) || d4.contains(x));
    }
}

proof fn lemma_layer_issues(m: LottieModelV, i: nat)
    requires
        i < m.layers.len(),
    ensures
        in_file_order(layer_issues(m, i)),
        ranks_within(layer_issues(m, i), 4 + 3 * (i as int), 7 + 3 * (i as int)),
        forall|x: IssueV| #[trigger] layer_issues(m, i).contains(x) <==> (is_defect(m, x) && 4 + 3 * (i as int)
            <= report_rank(x) < 7 + 3 * (i as int)),
{
    let l = m.layers[i as int];
    let c1: Seq<IssueV> = match l.kind {
        LayerKind::Unknown(ty) => seq![IssueV::UnknownLayerType { layer: i, ty }],
        _ => Seq::empty(),
    };
    let c2: Seq<IssueV> = match l.ref_id {
        Some(id) => if asset_lookup(m.assets, id) is None {
            seq![IssueV::MissingAsset { layer: i, id }]
        } else {
            Seq::empty()
        },
        None => Seq::empty(),
    };
    let c3: Seq<IssueV> = if num_le(l.out_point, l.in_point) {
        seq![IssueV::LayerNeverShows { layer: i }]
    } else {
        Seq::empty()
    };
    if let Some(id) = l.ref_id {
        law_asset_lookup(m.assets, id);
    }
    assert(layer_issues(m, i) == c1 + c2 + c3);
    lemma_one(c1, 4 + 3 * (i as int), 5 + 3 * (i as int));
    lemma_one(c2, 5 + 3 * (i as int), 6 + 3 * (i as int));
    lemma_one(c3, 6 + 3 * (i as int), 7 + 3 * (i as int));
    lemma_join(c1, c2, 4 + 3 * (i as int), 5 + 3 * (i as int), 6 + 3 * (i as int));
    lemma_join(c1 + c2, c3, 4 + 3 * (i as int), 6 + 3 * (i as int), 7 + 3 * (i as int));
    assert forall|x: IssueV| #[trigger] layer_issues(m, i).contains(x) <==> (is_defect(m, x) && 4
        + 3 * (i as int) <= report_rank(x) < 7 + 3 * (i as int)) by {
        assert(layer_issues(m, i).contains(x) <==> c1.contains(x) || c2.contains(x)
            || c3.contains(x));
        match x {
            IssueV::UnknownLayerType { layer, ty } => {
                if 4 + 3 * (i as int) <= report_rank(x) < 7 + 3 * (i as int) {
                    assert(layer == i);
                }
            },
            IssueV::MissingAsset { layer, id } => {
                if 4 + 3 * (i as int) <= report_rank(x) < 7 + 3 * (i as int) {
                    assert(layer == i);
                }
            },
            IssueV::LayerNeverShows { layer } => {
                if 4 + 3 * (i as int) <= report_rank(x) < 7 + 3 * (i as int) {
                    assert(layer == i);
                }
            },
            _ => {},
        }
    }
}

proof fn lemma_layers_issues(m: LottieModelV, n: nat)
    requires
        n <= m.layers.len(),
    ensures
        in_file_order(layers_issues(m, n)),
        ranks_within(layers_issues(m, n), 4, 4 + 3 * (n as int)),
        forall|x: IssueV| #[trigger] layers_issues(m, n).contains(x) <==> (is_defect(m, x) && 4
            <= report_rank(x) < 4 + 3 * (n as int)),
    decreases n,
{
    if n == 0 {
        lemma_one(layers_issues(m, n), 4, 4);
    } else {
        let k = (n - 1) as nat;
        lemma_layers_issues(m, k);
        lemma_layer_issues(m, k);
        lemma_join(layers_issues(m, k), layer_issues(m, k), 4, 4 + 3 * (k as int), 4 + 3 * (n as int));
    }
}

/// `verify` reports every defect of the document and of each of its layers, and nothing
/// else, each once, in file order: an issue is in the report exactly when it names a real
/// defect with the values the document carries (a layer's defects are reported whatever is
/// wrong with the document as a whole), and each issue stands strictly after the ones before
/// it in file order.
pub proof fn law_verify_reports_every_defect(m: LottieModelV)
    ensures
        forall|x: IssueV| #[trigger] issues_of(m).contains(x) <==> is_defect(m, x),
        in_file_order(issues_of(m)),
{
    let n = m.layers.len();
    lemma_document_issues(m);
    lemma_layers_issues(m, n);
    lemma_join(document_issues(m), layers_issues(m, n), 0, 4, 4 + 3 * (n as int));
    assert forall|x: IssueV| #[trigger] issues_of(m).contains(x) <==> is_defect(m, x) by {
        if is_defect(m, x) {
            assert(0 <= report_rank(x) < 4 + 3 * (n as int));
        }
    }
}

} // verus!
