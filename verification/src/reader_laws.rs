//! What the reader takes from a document, stated member by member.

use vstd::prelude::*;

use crate::json::{json_get, Json};
use crate::model::{
    asset_of, assets_of, kind_of_ty, layer_of, marker_of, markers_of, model_of, number_value,
    AssetKindV, AssetV, LayerKind, LayerV, LottieErrorV, LottieModelV, MarkerV,
};
use crate::number::{num_is_zero, NumV};

verus! {

/// Zero.
pub open spec fn zero_num() -> NumV {
    (false, Seq::empty(), 0)
}

/// The number stored under `key`, or zero when the member is absent or not a number.
pub open spec fn member_number(v: Json, key: Seq<char>) -> NumV {
    match json_get(v, key) {
        Some(Json::Number { text, uint }) => number_value(text@),
        _ => zero_num(),
    }
}

/// The string stored under `key`, if the member is a string.
pub open spec fn member_text(v: Json, key: Seq<char>) -> Option<Seq<char>> {
    match json_get(v, key) {
        Some(Json::Str(s)) => Some(s@),
        _ => None,
    }
}

/// The non-negative integer stored under `key`, if the member is one.
pub open spec fn member_u64(v: Json, key: Seq<char>) -> Option<u64> {
    match json_get(v, key) {
        Some(Json::Number { text, uint }) => uint,
        _ => None,
    }
}

/// The member stored under `key` is a number that is not zero.
pub open spec fn member_nonzero(v: Json, key: Seq<char>) -> bool {
    match json_get(v, key) {
        Some(Json::Number { text, uint }) => !num_is_zero(number_value(text@)),
        _ => false,
    }
}

/// A marker is kept exactly when its `cm` is a string; its name is that string, its frame the
/// number under `tm` and its duration the number under `dr` (zero when absent).
pub proof fn law_marker_members(v: Json)
    ensures
        marker_of(v) is Some <==> member_text(v, "cm"@) is Some,
        member_text(v, "cm"@) matches Some(name) ==> marker_of(v) == Some(
            MarkerV {
                name,
                frame: member_number(v, "tm"@),
                duration: member_number(v, "dr"@),
            },
        ),
{
}

/// A layer's index is the integer under `ind`, its name the string under `nm`, its type the one
/// the integer under `ty` names (unknown, with the largest number, when there is none), its in
/// and out points the numbers under `ip` and `op` (zero when absent), and its asset the string
/// under `refId`.
pub proof fn law_layer_members(v: Json)
    ensures
        layer_of(v) == (LayerV {
            index: member_u64(v, "ind"@),
            name: member_text(v, "nm"@),
            kind: match member_u64(v, "ty"@) {
                Some(t) => kind_of_ty(t),
                None => LayerKind::Unknown(0xffff_ffff_ffff_ffff),
            },
            in_point: member_number(v, "ip"@),
            out_point: member_number(v, "op"@),
            ref_id: member_text(v, "refId"@),
        }),
{
}

/// Each type number the format defines names its own type.
pub proof fn law_layer_type_numbers()
    ensures
        kind_of_ty(0) == LayerKind::Precomp,
        kind_of_ty(1) == LayerKind::Solid,
        kind_of_ty(2) == LayerKind::Image,
        kind_of_ty(3) == LayerKind::Null,
        kind_of_ty(4) == LayerKind::Shape,
        kind_of_ty(5) == LayerKind::Text,
        kind_of_ty(6) == LayerKind::Audio,
        kind_of_ty(7) == LayerKind::VideoPlaceholder,
        kind_of_ty(8) == LayerKind::ImageSequence,
        kind_of_ty(9) == LayerKind::Video,
        kind_of_ty(10) == LayerKind::ImagePlaceholder,
        kind_of_ty(11) == LayerKind::Guide,
        kind_of_ty(12) == LayerKind::Adjustment,
        kind_of_ty(13) == LayerKind::Camera,
        kind_of_ty(14) == LayerKind::Light,
        kind_of_ty(15) == LayerKind::Data,
        forall|t: u64| t > 15 ==> kind_of_ty(t) == LayerKind::Unknown(t),
{
}

/// An asset is kept exactly when its `id` is a string. It is a precomposition, counting the
/// layers, when `layers` is an array, and otherwise an image with the file under `p`, embedded
/// when the number under `e` is not zero.
pub proof fn law_asset_members(v: Json)
    ensures
        asset_of(v) is Some <==> member_text(v, "id"@) is Some,
        member_text(v, "id"@) matches Some(id) ==> asset_of(v) == Some(
            AssetV {
                id,
                kind: match json_get(v, "layers"@) {
                    Some(Json::Array(items)) => AssetKindV::Precomp { layers: items@.len() },
                    _ => AssetKindV::Image {
                        file: member_text(v, "p"@),
                        embedded: member_nonzero(v, "e"@),
                    },
                },
            },
        ),
{
}

pub open spec fn keeps_marker(j: Json) -> bool {
    marker_of(j) is Some
}

pub open spec fn keeps_asset(j: Json) -> bool {
    asset_of(j) is Some
}

/// The markers are those of the items that carry one, in file order.
pub proof fn law_markers_in_order(items: Seq<Json>)
    ensures
        markers_of(items) == items.filter(|j: Json| keeps_marker(j)).map_values(
            |j: Json| marker_of(j)->0,
        ),
    decreases items.len(),
{
    reveal(Seq::filter);
    if items.len() > 0 {
        law_markers_in_order(items.drop_last());
        let f = items.drop_last().filter(|j: Json| keeps_marker(j));
        if keeps_marker(items.last()) {
            assert(items.filter(|j: Json| keeps_marker(j)) == f.push(items.last()));
            assert(f.push(items.last()).map_values(|j: Json| marker_of(j)->0) =~= f.map_values(
                |j: Json| marker_of(j)->0,
            ).push(marker_of(items.last())->0));
        } else {
            assert(items.filter(|j: Json| keeps_marker(j)) == f);
        }
    } else {
        assert(items.filter(|j: Json| keeps_marker(j)) =~= Seq::<Json>::empty());
    }
}

/// The assets are those of the items that carry one, in file order.
pub proof fn law_assets_in_order(items: Seq<Json>)
    ensures
        assets_of(items) == items.filter(|j: Json| keeps_asset(j)).map_values(
            |j: Json| asset_of(j)->0,
        ),
    decreases items.len(),
{
    reveal(Seq::filter);
    if items.len() > 0 {
        law_assets_in_order(items.drop_last());
        let f = items.drop_last().filter(|j: Json| keeps_asset(j));
        if keeps_asset(items.last()) {
            assert(items.filter(|j: Json| keeps_asset(j)) == f.push(items.last()));
            assert(f.push(items.last()).map_values(|j: Json| asset_of(j)->0) =~= f.map_values(
                |j: Json| asset_of(j)->0,
            ).push(asset_of(items.last())->0));
        } else {
            assert(items.filter(|j: Json| keeps_asset(j)) == f);
        }
    } else {
        assert(items.filter(|j: Json| keeps_asset(j)) =~= Seq::<Json>::empty());
    }
}

/// The items of a list member: absent or null is no items, an array its items.
pub open spec fn list_items(v: Json, key: Seq<char>) -> Seq<Json> {
    match json_get(v, key) {
        Some(Json::Array(items)) => items@,
        _ => Seq::empty(),
    }
}

/// A list member that is present, not null, and not an array.
pub open spec fn bad_list(v: Json, key: Seq<char>) -> bool {
    match json_get(v, key) {
        None => false,
        Some(Json::Null) => false,
        Some(Json::Array(_)) => false,
        _ => true,
    }
}

/// A text member that is present, not null, and not a string.
pub open spec fn bad_text(v: Json, key: Seq<char>) -> bool {
    match json_get(v, key) {
        None => false,
        Some(Json::Null) => false,
        Some(Json::Str(_)) => false,
        _ => true,
    }
}

/// A required number member that is present and not a number.
pub open spec fn bad_number(v: Json, key: Seq<char>) -> bool {
    match json_get(v, key) {
        Some(Json::Number { text, uint }) => false,
        None => false,
        _ => true,
    }
}

/// What a read document holds: the string under `v` and `nm`, the numbers under `fr`, `ip`,
/// `op`, `w` and `h`, the 3D flag when the number under `ddd` is not zero, one layer per item of
/// `layers`, and the assets and markers of the items of `assets` and `markers` that carry one.
pub proof fn law_document_members(v: Json)
    ensures
        model_of(v) matches Ok(m) ==> {
            &&& m.version == member_text(v, "v"@)
            &&& m.name == member_text(v, "nm"@)
            &&& m.frame_rate == member_number(v, "fr"@)
            &&& m.in_point == member_number(v, "ip"@)
            &&& m.out_point == member_number(v, "op"@)
            &&& m.width == member_number(v, "w"@)
            &&& m.height == member_number(v, "h"@)
            &&& m.three_d == member_nonzero(v, "ddd"@)
            &&& m.layers.len() == list_items(v, "layers"@).len()
            &&& forall|i: int|
                0 <= i < m.layers.len() ==> #[trigger] m.layers[i] == layer_of(
                    list_items(v, "layers"@)[i],
                )
            &&& m.assets == assets_of(list_items(v, "assets"@))
            &&& m.markers == markers_of(list_items(v, "markers"@))
        },
{
}

/// When a document cannot be read, the error names the first member, in the order `layers`,
/// `assets`, `markers`, `v`, `nm`, `fr`, `ip`, `op`, `w`, `h`, that has the wrong shape or, for
/// a required number, is absent; a value that is not an object is not a document at all. A
/// document whose members all have their shapes is read.
pub proof fn law_document_errors(v: Json)
    ensures
        !(v is Object) ==> model_of(v) == Err::<LottieModelV, LottieErrorV>(LottieErrorV::NotAnObject),
        v is Object && bad_list(v, "layers"@) ==> model_of(v) == Err::<LottieModelV, LottieErrorV>(
            LottieErrorV::BadField { field: "layers"@, expected: "an array"@ },
        ),
        v is Object && !bad_list(v, "layers"@) && bad_list(v, "assets"@) ==> model_of(v) == Err::<
            LottieModelV,
            LottieErrorV,
        >(LottieErrorV::BadField { field: "assets"@, expected: "an array"@ }),
        v is Object && !bad_list(v, "layers"@) && !bad_list(v, "assets"@) && bad_list(v, "markers"@)
            ==> model_of(v) == Err::<LottieModelV, LottieErrorV>(
            LottieErrorV::BadField { field: "markers"@, expected: "an array"@ },
        ),
        ({
            let lists_ok = v is Object && !bad_list(v, "layers"@) && !bad_list(v, "assets"@)
                && !bad_list(v, "markers"@);
            &&& lists_ok && bad_text(v, "v"@) ==> model_of(v) == Err::<LottieModelV, LottieErrorV>(
                LottieErrorV::BadField { field: "v"@, expected: "a string"@ },
            )
            &&& lists_ok && !bad_text(v, "v"@) && bad_text(v, "nm"@) ==> model_of(v) == Err::<
                LottieModelV,
                LottieErrorV,
            >(LottieErrorV::BadField { field: "nm"@, expected: "a string"@ })
        }),
        ({
            let texts_ok = v is Object && !bad_list(v, "layers"@) && !bad_list(v, "assets"@)
                && !bad_list(v, "markers"@) && !bad_text(v, "v"@) && !bad_text(v, "nm"@);
            &&& texts_ok && json_get(v, "fr"@) is None ==> model_of(v) == Err::<LottieModelV, LottieErrorV>(
                LottieErrorV::MissingField("fr"@),
            )
            &&& texts_ok && bad_number(v, "fr"@) ==> model_of(v) == Err::<LottieModelV, LottieErrorV>(
                LottieErrorV::BadField { field: "fr"@, expected: "a number"@ },
            )
        }),
        ({
            let fr_ok = v is Object && !bad_list(v, "layers"@) && !bad_list(v, "assets"@)
                && !bad_list(v, "markers"@) && !bad_text(v, "v"@) && !bad_text(v, "nm"@)
                && json_get(v, "fr"@) is Some && !bad_number(v, "fr"@);
            &&& fr_ok && json_get(v, "ip"@) is None ==> model_of(v) == Err::<LottieModelV, LottieErrorV>(
                LottieErrorV::MissingField("ip"@),
            )
            &&& fr_ok && bad_number(v, "ip"@) ==> model_of(v) == Err::<LottieModelV, LottieErrorV>(
                LottieErrorV::BadField { field: "ip"@, expected: "a number"@ },
            )
        }),
        ({
            let ip_ok = v is Object && !bad_list(v, "layers"@) && !bad_list(v, "assets"@)
                && !bad_list(v, "markers"@) && !bad_text(v, "v"@) && !bad_text(v, "nm"@)
                && json_get(v, "fr"@) is Some && !bad_number(v, "fr"@) && json_get(v, "ip"@) is Some
                && !bad_number(v, "ip"@);
            &&& ip_ok && json_get(v, "op"@) is None ==> model_of(v) == Err::<LottieModelV, LottieErrorV>(
                LottieErrorV::MissingField("op"@),
            )
            &&& ip_ok && bad_number(v, "op"@) ==> model_of(v) == Err::<LottieModelV, LottieErrorV>(
                LottieErrorV::BadField { field: "op"@, expected: "a number"@ },
            )
        }),
        ({
            let op_ok = v is Object && !bad_list(v, "layers"@) && !bad_list(v, "assets"@)
                && !bad_list(v, "markers"@) && !bad_text(v, "v"@) && !bad_text(v, "nm"@)
                && json_get(v, "fr"@) is Some && !bad_number(v, "fr"@) && json_get(v, "ip"@) is Some
                && !bad_number(v, "ip"@) && json_get(v, "op"@) is Some && !bad_number(v, "op"@);
            &&& op_ok && json_get(v, "w"@) is None ==> model_of(v) == Err::<LottieModelV, LottieErrorV>(
                LottieErrorV::MissingField("w"@),
            )
            &&& op_ok && bad_number(v, "w"@) ==> model_of(v) == Err::<LottieModelV, LottieErrorV>(
                LottieErrorV::BadField { field: "w"@, expected: "a number"@ },
            )
            &&& op_ok && json_get(v, "w"@) is Some && !bad_number(v, "w"@) && json_get(v, "h"@) is None
                ==> model_of(v) == Err::<LottieModelV, LottieErrorV>(LottieErrorV::MissingField("h"@))
            &&& op_ok && json_get(v, "w"@) is Some && !bad_number(v, "w"@) && bad_number(v, "h"@)
                ==> model_of(v) == Err::<LottieModelV, LottieErrorV>(
                LottieErrorV::BadField { field: "h"@, expected: "a number"@ },
            )
            &&& op_ok && json_get(v, "w"@) is Some && !bad_number(v, "w"@) && json_get(v, "h"@) is Some
                && !bad_number(v, "h"@) ==> model_of(v) is Ok
        }),
{
}

} // verus!
