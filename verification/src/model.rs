//! The headless half of the piece: read a Lottie document, report what is in it, and say what a
//! player would refuse, with no toolkit in the loop.
//!
//! The reader is deliberately shallow. It takes the top-level facts (version, name, frame rate,
//! in and out points, size), each layer's identity and timing, the asset ids, and the markers,
//! and ignores everything else (shapes, keyframes, expressions) so files written by a newer
//! exporter parse. Each number is read as the float serde_json's `as_f64` gives for it and kept as
//! the shortest decimal that reads back as that float; numbers are compared as those decimals,
//! which order exactly as the floats do.

use vstd::prelude::*;
use vstd::string::StringSliceAdditionalSpecFns;

use crate::json::{json_get, json_of_bytes, read_json_bytes, read_json_text, Json};
use crate::number::{canonical_of, num_is_zero, num_le, num_positive, numeral, Num, NumV};

verus! {

/// A Lottie document's top-level facts, plus its layers, assets, and markers.
#[derive(Clone, Debug, PartialEq)]
pub struct LottieModel {
    /// The exporter version (`v`), e.g. `"5.9.0"`, when the file records one.
    pub version: Option<String>,
    /// The composition name (`nm`), when the file records one.
    pub name: Option<String>,
    /// Frames per second (`fr`).
    pub frame_rate: Num,
    /// The first frame (`ip`).
    pub in_point: Num,
    /// The frame after the last one (`op`); `op - ip` is the frame count.
    pub out_point: Num,
    /// Composition width in pixels (`w`).
    pub width: Num,
    /// Composition height in pixels (`h`).
    pub height: Num,
    /// Whether the composition is flagged as 3D (`ddd`).
    pub three_d: bool,
    /// The root layers, in file order.
    pub layers: Vec<Layer>,
    /// The assets a layer may reference by id (`assets`).
    pub assets: Vec<Asset>,
    /// Named points on the timeline (`markers`), in file order.
    pub markers: Vec<Marker>,
}

/// One root layer: what it is and when it plays.
#[derive(Clone, Debug, PartialEq)]
pub struct Layer {
    /// The layer's index in the file (`ind`), when it records one.
    pub index: Option<u64>,
    /// The layer name (`nm`), when it records one.
    pub name: Option<String>,
    /// The layer type (`ty`).
    pub kind: LayerKind,
    /// The frame the layer appears on (`ip`).
    pub in_point: Num,
    /// The frame the layer disappears on (`op`).
    pub out_point: Num,
    /// The asset this layer draws (`refId`), for image and precomp layers.
    pub ref_id: Option<String>,
}

/// The layer types the format defines (`ty`), plus a catch-all for a number this crate does
/// not know.
#[derive(Clone, Copy, Debug, PartialEq, Eq, Structural)]
pub enum LayerKind {
    Precomp,
    Solid,
    Image,
    Null,
    Shape,
    Text,
    Audio,
    VideoPlaceholder,
    ImageSequence,
    Video,
    ImagePlaceholder,
    Guide,
    Adjustment,
    Camera,
    Light,
    Data,
    Unknown(u64),
}

/// An entry in the document's asset list.
#[derive(Clone, Debug, PartialEq)]
pub struct Asset {
    /// The id layers reference (`id`).
    pub id: String,
    /// What the asset is.
    pub kind: AssetKind,
}

/// The two asset shapes a player loads: a bitmap, or a nested composition.
#[derive(Clone, Debug, PartialEq)]
pub enum AssetKind {
    /// An image: its file name (`p`), and whether the file is embedded as a data URI (`e`).
    Image { file: Option<String>, embedded: bool },
    /// A precomposition: how many layers it holds.
    Precomp { layers: usize },
}

/// A named point on the timeline.
#[derive(Clone, Debug, PartialEq)]
pub struct Marker {
    /// The marker's comment (`cm`), which is what a player exposes as its name.
    pub name: String,
    /// The frame the marker sits on (`tm`).
    pub frame: Num,
    /// How many frames it spans (`dr`); zero for a point.
    pub duration: Num,
}

/// Why a document could not be read at all. Anything a reader can parse is a [`LottieModel`],
/// and what is wrong with it is a matter for [`LottieModel::verify`].
#[derive(Clone, Debug, PartialEq)]
pub enum LottieError {
    /// The text is not JSON.
    Json(String),
    /// The JSON is not an object.
    NotAnObject,
    /// A required top-level number is absent.
    MissingField(&'static str),
    /// A field is present with the wrong shape.
    BadField { field: &'static str, expected: &'static str },
}

/// Something a player will refuse or render badly; [`Issue::describe`] gives one plain sentence,
/// so a label or a test assertion can show it as is.
#[derive(Clone, Debug, PartialEq)]
pub enum Issue {
    /// `op` is not after `ip`: the animation has no frames to play.
    NoFrames { in_point: Num, out_point: Num },
    /// `fr` is zero or negative: no frame lasts any time at all.
    ZeroFrameRate { frame_rate: Num },
    /// `w` or `h` is zero or negative: nothing can be drawn.
    NoSize { width: Num, height: Num },
    /// The layer list is empty: the composition is blank.
    EmptyLayers,
    /// A layer references an asset id the asset list does not carry.
    MissingAsset { layer: usize, id: String },
    /// A layer's type number is one this crate (and likely the player) does not know.
    UnknownLayerType { layer: usize, ty: u64 },
    /// A layer's out point is not after its in point: it never shows.
    LayerNeverShows { layer: usize },
}

// ---------------------------------------------------------------------------------------------
// The model as mathematics.
// ---------------------------------------------------------------------------------------------

pub open spec fn opt_text_view(o: Option<String>) -> Option<Seq<char>> {
    match o {
        Some(s) => Some(s@),
        None => None,
    }
}

pub struct LayerV {
    pub index: Option<u64>,
    pub name: Option<Seq<char>>,
    pub kind: LayerKind,
    pub in_point: NumV,
    pub out_point: NumV,
    pub ref_id: Option<Seq<char>>,
}

pub enum AssetKindV {
    Image { file: Option<Seq<char>>, embedded: bool },
    Precomp { layers: nat },
}

pub struct AssetV {
    pub id: Seq<char>,
    pub kind: AssetKindV,
}

pub struct MarkerV {
    pub name: Seq<char>,
    pub frame: NumV,
    pub duration: NumV,
}

pub struct LottieModelV {
    pub version: Option<Seq<char>>,
    pub name: Option<Seq<char>>,
    pub frame_rate: NumV,
    pub in_point: NumV,
    pub out_point: NumV,
    pub width: NumV,
    pub height: NumV,
    pub three_d: bool,
    pub layers: Seq<LayerV>,
    pub assets: Seq<AssetV>,
    pub markers: Seq<MarkerV>,
}

pub enum LottieErrorV {
    Json(Seq<char>),
    NotAnObject,
    MissingField(Seq<char>),
    BadField { field: Seq<char>, expected: Seq<char> },
}

impl View for Layer {
    type V = LayerV;

    open spec fn view(&self) -> LayerV {
        LayerV {
            index: self.index,
            name: opt_text_view(self.name),
            kind: self.kind,
            in_point: self.in_point@,
            out_point: self.out_point@,
            ref_id: opt_text_view(self.ref_id),
        }
    }
}

impl View for Asset {
    type V = AssetV;

    open spec fn view(&self) -> AssetV {
        AssetV {
            id: self.id@,
            kind: match self.kind {
                AssetKind::Image { file, embedded } => AssetKindV::Image {
                    file: opt_text_view(file),
                    embedded,
                },
                AssetKind::Precomp { layers } => AssetKindV::Precomp { layers: layers as nat },
            },
        }
    }
}

impl View for Marker {
    type V = MarkerV;

    open spec fn view(&self) -> MarkerV {
        MarkerV { name: self.name@, frame: self.frame@, duration: self.duration@ }
    }
}

impl View for LottieModel {
    type V = LottieModelV;

    open spec fn view(&self) -> LottieModelV {
        LottieModelV {
            version: opt_text_view(self.version),
            name: opt_text_view(self.name),
            frame_rate: self.frame_rate@,
            in_point: self.in_point@,
            out_point: self.out_point@,
            width: self.width@,
            height: self.height@,
            three_d: self.three_d,
            layers: self.layers@.map_values(|l: Layer| l@),
            assets: self.assets@.map_values(|a: Asset| a@),
            markers: self.markers@.map_values(|m: Marker| m@),
        }
    }
}

impl View for LottieError {
    type V = LottieErrorV;

    open spec fn view(&self) -> LottieErrorV {
        match self {
            LottieError::Json(e) => LottieErrorV::Json(e@),
            LottieError::NotAnObject => LottieErrorV::NotAnObject,
            LottieError::MissingField(f) => LottieErrorV::MissingField(f@),
            LottieError::BadField { field, expected } => LottieErrorV::BadField {
                field: field@,
                expected: expected@,
            },
        }
    }
}

pub enum IssueV {
    NoFrames { in_point: NumV, out_point: NumV },
    ZeroFrameRate { frame_rate: NumV },
    NoSize { width: NumV, height: NumV },
    EmptyLayers,
    MissingAsset { layer: nat, id: Seq<char> },
    UnknownLayerType { layer: nat, ty: u64 },
    LayerNeverShows { layer: nat },
}

impl View for Issue {
    type V = IssueV;

    open spec fn view(&self) -> IssueV {
        match self {
            Issue::NoFrames { in_point, out_point } => IssueV::NoFrames {
                in_point: in_point@,
                out_point: out_point@,
            },
            Issue::ZeroFrameRate { frame_rate } => IssueV::ZeroFrameRate { frame_rate: frame_rate@ },
            Issue::NoSize { width, height } => IssueV::NoSize { width: width@, height: height@ },
            Issue::EmptyLayers => IssueV::EmptyLayers,
            Issue::MissingAsset { layer, id } => IssueV::MissingAsset {
                layer: *layer as nat,
                id: id@,
            },
            Issue::UnknownLayerType { layer, ty } => IssueV::UnknownLayerType {
                layer: *layer as nat,
                ty: *ty,
            },
            Issue::LayerNeverShows { layer } => IssueV::LayerNeverShows { layer: *layer as nat },
        }
    }
}

/// What a read gives back, as mathematics.
pub open spec fn model_result_view(r: Result<LottieModel, LottieError>) -> Result<
    LottieModelV,
    LottieErrorV,
> {
    match r {
        Ok(m) => Ok(m@),
        Err(e) => Err(e@),
    }
}

/// The layer type that a `ty` number names.
pub open spec fn kind_of_ty(ty: u64) -> LayerKind {
    if ty == 0 {
        LayerKind::Precomp
    } else if ty == 1 {
        LayerKind::Solid
    } else if ty == 2 {
        LayerKind::Image
    } else if ty == 3 {
        LayerKind::Null
    } else if ty == 4 {
        LayerKind::Shape
    } else if ty == 5 {
        LayerKind::Text
    } else if ty == 6 {
        LayerKind::Audio
    } else if ty == 7 {
        LayerKind::VideoPlaceholder
    } else if ty == 8 {
        LayerKind::ImageSequence
    } else if ty == 9 {
        LayerKind::Video
    } else if ty == 10 {
        LayerKind::ImagePlaceholder
    } else if ty == 11 {
        LayerKind::Guide
    } else if ty == 12 {
        LayerKind::Adjustment
    } else if ty == 13 {
        LayerKind::Camera
    } else if ty == 14 {
        LayerKind::Light
    } else if ty == 15 {
        LayerKind::Data
    } else {
        LayerKind::Unknown(ty)
    }
}

/// The exact value of a number's text (zero for a text that is not a numeral, which serde_json
/// never prints).
pub open spec fn number_value(text: Seq<char>) -> NumV {
    match numeral(text) {
        Some(p) => canonical_of(p),
        None => (false, Seq::empty(), 0),
    }
}

/// `as_f64`: the number a value is, when it is one.
pub open spec fn as_number(v: Option<Json>) -> Option<NumV> {
    match v {
        Some(Json::Number { text, uint }) => Some(number_value(text@)),
        _ => None,
    }
}

/// `and_then(as_f64).unwrap_or(0.0)`.
pub open spec fn number_or_zero(v: Option<Json>) -> NumV {
    match as_number(v) {
        Some(n) => n,
        None => (false, Seq::empty(), 0),
    }
}

/// `and_then(as_f64).unwrap_or(0.0) != 0.0`.
pub open spec fn nonzero_number(v: Option<Json>) -> bool {
    match as_number(v) {
        Some(n) => !num_is_zero(n),
        None => false,
    }
}

/// `and_then(as_u64)`.
pub open spec fn as_u64(v: Option<Json>) -> Option<u64> {
    match v {
        Some(Json::Number { text, uint }) => uint,
        _ => None,
    }
}

/// `and_then(as_str)`.
pub open spec fn as_text(v: Option<Json>) -> Option<Seq<char>> {
    match v {
        Some(Json::Str(s)) => Some(s@),
        _ => None,
    }
}

/// One layer as the reader takes it from its JSON value.
pub open spec fn layer_of(v: Json) -> LayerV {
    LayerV {
        index: as_u64(json_get(v, "ind"@)),
        name: as_text(json_get(v, "nm"@)),
        kind: kind_of_ty(
            match as_u64(json_get(v, "ty"@)) {
                Some(t) => t,
                None => u64::MAX,
            },
        ),
        in_point: number_or_zero(json_get(v, "ip"@)),
        out_point: number_or_zero(json_get(v, "op"@)),
        ref_id: as_text(json_get(v, "refId"@)),
    }
}

/// One asset, when its value carries a string `id`.
pub open spec fn asset_of(v: Json) -> Option<AssetV> {
    match json_get(v, "id"@) {
        Some(Json::Str(id)) => Some(
            AssetV {
                id: id@,
                kind: match json_get(v, "layers"@) {
                    Some(Json::Array(items)) => AssetKindV::Precomp { layers: items@.len() },
                    _ => AssetKindV::Image {
                        file: as_text(json_get(v, "p"@)),
                        embedded: nonzero_number(json_get(v, "e"@)),
                    },
                },
            },
        ),
        _ => None,
    }
}

/// One marker, when its value carries a string comment.
pub open spec fn marker_of(v: Json) -> Option<MarkerV> {
    match json_get(v, "cm"@) {
        Some(Json::Str(name)) => Some(
            MarkerV {
                name: name@,
                frame: number_or_zero(json_get(v, "tm"@)),
                duration: number_or_zero(json_get(v, "dr"@)),
            },
        ),
        _ => None,
    }
}

pub open spec fn assets_of(items: Seq<Json>) -> Seq<AssetV>
    decreases items.len(),
{
    if items.len() == 0 {
        Seq::empty()
    } else {
        let front = assets_of(items.drop_last());
        match asset_of(items.last()) {
            Some(a) => front.push(a),
            None => front,
        }
    }
}

pub open spec fn markers_of(items: Seq<Json>) -> Seq<MarkerV>
    decreases items.len(),
{
    if items.len() == 0 {
        Seq::empty()
    } else {
        let front = markers_of(items.drop_last());
        match marker_of(items.last()) {
            Some(m) => front.push(m),
            None => front,
        }
    }
}

/// A list field: absent or null reads as empty; anything but an array is a bad field.
pub open spec fn list_field(v: Json, key: Seq<char>) -> Result<Seq<Json>, LottieErrorV> {
    match json_get(v, key) {
        None => Ok(Seq::empty()),
        Some(Json::Null) => Ok(Seq::empty()),
        Some(Json::Array(items)) => Ok(items@),
        Some(_) => Err(LottieErrorV::BadField { field: key, expected: "an array"@ }),
    }
}

/// A text field: absent or null reads as none; anything but a string is a bad field.
pub open spec fn text_field(v: Json, key: Seq<char>) -> Result<Option<Seq<char>>, LottieErrorV> {
    match json_get(v, key) {
        None => Ok(None),
        Some(Json::Null) => Ok(None),
        Some(Json::Str(s)) => Ok(Some(s@)),
        Some(_) => Err(LottieErrorV::BadField { field: key, expected: "a string"@ }),
    }
}

/// A required number: absent is a missing field; anything but a number is a bad field.
pub open spec fn number_field(v: Json, key: Seq<char>) -> Result<NumV, LottieErrorV> {
    match json_get(v, key) {
        None => Err(LottieErrorV::MissingField(key)),
        Some(Json::Number { text, uint }) => Ok(number_value(text@)),
        Some(_) => Err(LottieErrorV::BadField { field: key, expected: "a number"@ }),
    }
}

/// What the reader makes of a JSON value. The fields are read in this order, and the first one
/// that fails is the error: `layers`, `assets`, `markers`, `v`, `nm`, `fr`, `ip`, `op`, `w`, `h`.
pub open spec fn model_of(v: Json) -> Result<LottieModelV, LottieErrorV> {
    if !(v is Object) {
        Err(LottieErrorV::NotAnObject)
    } else {
        match list_field(v, "layers"@) {
            Err(e) => Err(e),
            Ok(layers) => match list_field(v, "assets"@) {
                Err(e) => Err(e),
                Ok(assets) => match list_field(v, "markers"@) {
                    Err(e) => Err(e),
                    Ok(markers) => match text_field(v, "v"@) {
                        Err(e) => Err(e),
                        Ok(version) => match text_field(v, "nm"@) {
                            Err(e) => Err(e),
                            Ok(name) => match number_field(v, "fr"@) {
                                Err(e) => Err(e),
                                Ok(frame_rate) => match number_field(v, "ip"@) {
                                    Err(e) => Err(e),
                                    Ok(in_point) => match number_field(v, "op"@) {
                                        Err(e) => Err(e),
                                        Ok(out_point) => match number_field(v, "w"@) {
                                            Err(e) => Err(e),
                                            Ok(width) => match number_field(v, "h"@) {
                                                Err(e) => Err(e),
                                                Ok(height) => Ok(
                                                    LottieModelV {
                                                        version,
                                                        name,
                                                        frame_rate,
                                                        in_point,
                                                        out_point,
                                                        width,
                                                        height,
                                                        three_d: nonzero_number(
                                                            json_get(v, "ddd"@),
                                                        ),
                                                        layers: layers.map_values(
                                                            |j: Json| layer_of(j),
                                                        ),
                                                        assets: assets_of(assets),
                                                        markers: markers_of(markers),
                                                    },
                                                ),
                                            },
                                        },
                                    },
                                },
                            },
                        },
                    },
                },
            },
        }
    }
}

/// What reading a document's UTF-8 bytes gives: the model, or the error.
pub open spec fn read_bytes(bytes: Seq<u8>) -> Result<LottieModelV, LottieErrorV> {
    match json_of_bytes(bytes) {
        Ok(v) => model_of(v),
        Err(e) => Err(LottieErrorV::Json(e@)),
    }
}

/// What reading a document's text gives.
pub open spec fn read_text(text: Seq<char>) -> Result<LottieModelV, LottieErrorV> {
    read_bytes(vstd::utf8::encode_utf8(text))
}

/// The first asset with this id.
pub open spec fn asset_lookup(assets: Seq<AssetV>, id: Seq<char>) -> Option<AssetV>
    decreases assets.len(),
{
    if assets.len() == 0 {
        None
    } else if assets[0].id == id {
        Some(assets[0])
    } else {
        asset_lookup(assets.drop_first(), id)
    }
}

/// The issues the document as a whole has, in the order `verify` reports them: no frames, a
/// frame rate that is not positive, no size, no layers.
pub open spec fn document_issues(m: LottieModelV) -> Seq<IssueV> {
    (if num_le(m.out_point, m.in_point) {
        seq![IssueV::NoFrames { in_point: m.in_point, out_point: m.out_point }]
    } else {
        Seq::empty()
    }) + (if !num_positive(m.frame_rate) {
        seq![IssueV::ZeroFrameRate { frame_rate: m.frame_rate }]
    } else {
        Seq::empty()
    }) + (if !num_positive(m.width) || !num_positive(m.height) {
        seq![IssueV::NoSize { width: m.width, height: m.height }]
    } else {
        Seq::empty()
    }) + (if m.layers.len() == 0 {
        seq![IssueV::EmptyLayers]
    } else {
        Seq::empty()
    })
}

/// The issues of the layer at index `i`, in the order `verify` reports them: an unknown type, a
/// reference to an asset the document lacks, an out point not after the in point.
pub open spec fn layer_issues(m: LottieModelV, i: nat) -> Seq<IssueV> {
    let l = m.layers[i as int];
    (match l.kind {
        LayerKind::Unknown(ty) => seq![IssueV::UnknownLayerType { layer: i, ty }],
        _ => Seq::empty(),
    }) + (match l.ref_id {
        Some(id) => if asset_lookup(m.assets, id) is None {
            seq![IssueV::MissingAsset { layer: i, id }]
        } else {
            Seq::empty()
        },
        None => Seq::empty(),
    }) + (if num_le(l.out_point, l.in_point) {
        seq![IssueV::LayerNeverShows { layer: i }]
    } else {
        Seq::empty()
    })
}

/// The issues of the first `n` layers, layer after layer.
pub open spec fn layers_issues(m: LottieModelV, n: nat) -> Seq<IssueV>
    decreases n,
{
    if n == 0 {
        Seq::empty()
    } else {
        layers_issues(m, (n - 1) as nat) + layer_issues(m, (n - 1) as nat)
    }
}

/// Everything a player would refuse or render badly, in file order.
pub open spec fn issues_of(m: LottieModelV) -> Seq<IssueV> {
    document_issues(m) + layers_issues(m, m.layers.len())
}

// ---------------------------------------------------------------------------------------------
// The reader.
// ---------------------------------------------------------------------------------------------

impl LayerKind {
    /// The layer type a `ty` number names; a number the format does not define is kept.
    pub fn from_ty(ty: u64) -> (r: Self)
        ensures
            r == kind_of_ty(ty),
    {
        match ty {
            0 => LayerKind::Precomp,
            1 => LayerKind::Solid,
            2 => LayerKind::Image,
            3 => LayerKind::Null,
            4 => LayerKind::Shape,
            5 => LayerKind::Text,
            6 => LayerKind::Audio,
            7 => LayerKind::VideoPlaceholder,
            8 => LayerKind::ImageSequence,
            9 => LayerKind::Video,
            10 => LayerKind::ImagePlaceholder,
            11 => LayerKind::Guide,
            12 => LayerKind::Adjustment,
            13 => LayerKind::Camera,
            14 => LayerKind::Light,
            15 => LayerKind::Data,
            other => LayerKind::Unknown(other),
        }
    }
}

fn clone_text(o: Option<&String>) -> (r: Option<String>)
    ensures
        opt_text_view(r) == match o {
            Some(s) => Some(s@),
            None => None::<Seq<char>>,
        },
{
    match o {
        Some(s) => Some(s.clone()),
        None => None,
    }
}

fn number_of(text: &String) -> (r: Num)
    ensures
        r@ == number_value(text@),
{
    match Num::from_numeral(text.as_str()) {
        Some(n) => n,
        None => Num::zero(),
    }
}

/// `and_then(as_f64).unwrap_or(0.0)`.
fn read_number_or_zero(v: Option<&Json>) -> (r: Num)
    ensures
        r@ == number_or_zero(match v {
            Some(j) => Some(*j),
            None => None,
        }),
{
    match v {
        Some(Json::Number { text, uint }) => number_of(text),
        _ => Num::zero(),
    }
}

/// `and_then(as_f64).unwrap_or(0.0) != 0.0`.
fn read_nonzero(v: Option<&Json>) -> (r: bool)
    ensures
        r == nonzero_number(match v {
            Some(j) => Some(*j),
            None => None,
        }),
{
    match v {
        Some(Json::Number { text, uint }) => !number_of(text).is_zero(),
        _ => false,
    }
}

/// `and_then(as_str).map(str::to_string)`.
fn read_text_member(v: Option<&Json>) -> (r: Option<String>)
    ensures
        opt_text_view(r) == as_text(match v {
            Some(j) => Some(*j),
            None => None,
        }),
{
    match v {
        Some(Json::Str(s)) => Some(s.clone()),
        _ => None,
    }
}

/// `and_then(as_u64)`.
fn read_u64(v: Option<&Json>) -> (r: Option<u64>)
    ensures
        r == as_u64(match v {
            Some(j) => Some(*j),
            None => None,
        }),
{
    match v {
        Some(Json::Number { text, uint }) => *uint,
        _ => None,
    }
}

pub open spec fn some_ref(v: Option<&Json>) -> Option<Json> {
    match v {
        Some(j) => Some(*j),
        None => None,
    }
}

impl Layer {
    fn from_json(v: &Json) -> (r: Layer)
        ensures
            r@ == layer_of(*v),
    {
        let ty = match read_u64(v.get("ty")) {
            Some(t) => t,
            None => u64::MAX,
        };
        Layer {
            index: read_u64(v.get("ind")),
            name: read_text_member(v.get("nm")),
            kind: LayerKind::from_ty(ty),
            in_point: read_number_or_zero(v.get("ip")),
            out_point: read_number_or_zero(v.get("op")),
            ref_id: read_text_member(v.get("refId")),
        }
    }
}

impl Asset {
    fn from_json(v: &Json) -> (r: Option<Asset>)
        ensures
            match r {
                Some(a) => asset_of(*v) == Some(a@),
                None => asset_of(*v) is None,
            },
    {
        let id = match v.get("id") {
            Some(Json::Str(s)) => s.clone(),
            _ => return None,
        };
        let kind = match v.get("layers") {
            Some(Json::Array(items)) => AssetKind::Precomp { layers: items.len() },
            _ => AssetKind::Image {
                file: read_text_member(v.get("p")),
                embedded: read_nonzero(v.get("e")),
            },
        };
        Some(Asset { id, kind })
    }
}

impl Marker {
    fn from_json(v: &Json) -> (r: Option<Marker>)
        ensures
            match r {
                Some(m) => marker_of(*v) == Some(m@),
                None => marker_of(*v) is None,
            },
    {
        let name = match v.get("cm") {
            Some(Json::Str(s)) => s.clone(),
            _ => return None,
        };
        Some(
            Marker {
                name,
                frame: read_number_or_zero(v.get("tm")),
                duration: read_number_or_zero(v.get("dr")),
            },
        )
    }
}

/// A list field of the document; `None` stands for the empty list that an absent or null field
/// reads as.
fn read_list<'a>(v: &'a Json, key: &'static str) -> (r: Result<Option<&'a Vec<Json>>, LottieError>)
    ensures
        match r {
            Ok(Some(items)) => list_field(*v, key@) == Ok::<Seq<Json>, LottieErrorV>(items@),
            Ok(None) => list_field(*v, key@) == Ok::<Seq<Json>, LottieErrorV>(Seq::empty()),
            Err(e) => list_field(*v, key@) == Err::<Seq<Json>, LottieErrorV>(e@),
        },
{
    match v.get(key) {
        None => Ok(None),
        Some(Json::Null) => Ok(None),
        Some(Json::Array(items)) => Ok(Some(items)),
        Some(_) => Err(LottieError::BadField { field: key, expected: "an array" }),
    }
}

/// A text field of the document.
fn read_text_field(v: &Json, key: &'static str) -> (r: Result<Option<String>, LottieError>)
    ensures
        match r {
            Ok(t) => text_field(*v, key@) == Ok::<Option<Seq<char>>, LottieErrorV>(opt_text_view(t)),
            Err(e) => text_field(*v, key@) == Err::<Option<Seq<char>>, LottieErrorV>(e@),
        },
{
    match v.get(key) {
        None => Ok(None),
        Some(Json::Null) => Ok(None),
        Some(Json::Str(s)) => Ok(Some(s.clone())),
        Some(_) => Err(LottieError::BadField { field: key, expected: "a string" }),
    }
}

/// A required number of the document.
fn read_number_field(v: &Json, key: &'static str) -> (r: Result<Num, LottieError>)
    ensures
        match r {
            Ok(n) => number_field(*v, key@) == Ok::<NumV, LottieErrorV>(n@),
            Err(e) => number_field(*v, key@) == Err::<NumV, LottieErrorV>(e@),
        },
{
    match v.get(key) {
        None => Err(LottieError::MissingField(key)),
        Some(Json::Number { text, uint }) => Ok(number_of(text)),
        Some(_) => Err(LottieError::BadField { field: key, expected: "a number" }),
    }
}

fn read_layers(items: Option<&Vec<Json>>) -> (r: Vec<Layer>)
    ensures
        r@.map_values(|l: Layer| l@) == (match items {
            Some(v) => v@,
            None => Seq::<Json>::empty(),
        }).map_values(|j: Json| layer_of(j)),
{
    let mut out: Vec<Layer> = Vec::new();
    match items {
        None => {
            assert(out@.map_values(|l: Layer| l@) =~= Seq::<Json>::empty().map_values(|j: Json| layer_of(j)));
        },
        Some(items) => {
            let mut i: usize = 0;
            while i < items.len()
                invariant
                    i <= items.len(),
                    out@.map_values(|l: Layer| l@) =~= items@.take(i as int).map_values(|j: Json| layer_of(j)),
                decreases items.len() - i,
            {
                let ghost before = out@;
                let layer = Layer::from_json(&items[i]);
                out.push(layer);
                assert(out@.map_values(|l: Layer| l@) =~= before.map_values(|l: Layer| l@).push(layer_of(items@[i as int])));
                assert(items@.take(i + 1) =~= items@.take(i as int).push(items@[i as int]));
                assert(out@.map_values(|l: Layer| l@) =~= items@.take(i + 1).map_values(|j: Json| layer_of(j)));
                i = i + 1;
            }
            assert(items@.take(items.len() as int) =~= items@);
        },
    }
    out
}

fn read_assets(items: Option<&Vec<Json>>) -> (r: Vec<Asset>)
    ensures
        r@.map_values(|a: Asset| a@) == assets_of(match items {
            Some(v) => v@,
            None => Seq::<Json>::empty(),
        }),
{
    let mut out: Vec<Asset> = Vec::new();
    match items {
        None => {
            assert(out@.map_values(|a: Asset| a@) =~= assets_of(Seq::<Json>::empty()));
        },
        Some(items) => {
            let mut i: usize = 0;
            assert(items@.take(0) =~= Seq::<Json>::empty());
            while i < items.len()
                invariant
                    i <= items.len(),
                    out@.map_values(|a: Asset| a@) =~= assets_of(items@.take(i as int)),
                decreases items.len() - i,
            {
                let ghost before = out@;
                assert(items@.take(i + 1).drop_last() =~= items@.take(i as int));
                assert(items@.take(i + 1).last() == items@[i as int]);
                match Asset::from_json(&items[i]) {
                    Some(a) => {
                        out.push(a);
                        assert(out@.map_values(|a: Asset| a@) =~= before.map_values(|a: Asset| a@).push(a@));
                    },
                    None => {},
                }
                i = i + 1;
            }
            assert(items@.take(items.len() as int) =~= items@);
        },
    }
    out
}

fn read_markers(items: Option<&Vec<Json>>) -> (r: Vec<Marker>)
    ensures
        r@.map_values(|m: Marker| m@) == markers_of(match items {
            Some(v) => v@,
            None => Seq::<Json>::empty(),
        }),
{
    let mut out: Vec<Marker> = Vec::new();
    match items {
        None => {
            assert(out@.map_values(|m: Marker| m@) =~= markers_of(Seq::<Json>::empty()));
        },
        Some(items) => {
            let mut i: usize = 0;
            assert(items@.take(0) =~= Seq::<Json>::empty());
            while i < items.len()
                invariant
                    i <= items.len(),
                    out@.map_values(|m: Marker| m@) =~= markers_of(items@.take(i as int)),
                decreases items.len() - i,
            {
                let ghost before = out@;
                assert(items@.take(i + 1).drop_last() =~= items@.take(i as int));
                assert(items@.take(i + 1).last() == items@[i as int]);
                match Marker::from_json(&items[i]) {
                    Some(m) => {
                        out.push(m);
                        assert(out@.map_values(|m: Marker| m@) =~= before.map_values(|m: Marker| m@).push(m@));
                    },
                    None => {},
                }
                i = i + 1;
            }
            assert(items@.take(items.len() as int) =~= items@);
        },
    }
    out
}

impl LottieModel {
    /// Reads a document from its JSON value: the facts a player needs, or why the value is not a
    /// document at all.
    pub fn from_json(value: &Json) -> (r: Result<LottieModel, LottieError>)
        ensures
            model_result_view(r) == model_of(*value),
    {
        match value {
            Json::Object(_) => {},
            _ => {
                return Err(LottieError::NotAnObject);
            },
        }
        let layer_items = match read_list(value, "layers") {
            Ok(l) => l,
            Err(e) => return Err(e),
        };
        let asset_items = match read_list(value, "assets") {
            Ok(l) => l,
            Err(e) => return Err(e),
        };
        let marker_items = match read_list(value, "markers") {
            Ok(l) => l,
            Err(e) => return Err(e),
        };
        let layers = read_layers(layer_items);
        let assets = read_assets(asset_items);
        let markers = read_markers(marker_items);
        let version = match read_text_field(value, "v") {
            Ok(t) => t,
            Err(e) => return Err(e),
        };
        let name = match read_text_field(value, "nm") {
            Ok(t) => t,
            Err(e) => return Err(e),
        };
        let frame_rate = match read_number_field(value, "fr") {
            Ok(n) => n,
            Err(e) => return Err(e),
        };
        let in_point = match read_number_field(value, "ip") {
            Ok(n) => n,
            Err(e) => return Err(e),
        };
        let out_point = match read_number_field(value, "op") {
            Ok(n) => n,
            Err(e) => return Err(e),
        };
        let width = match read_number_field(value, "w") {
            Ok(n) => n,
            Err(e) => return Err(e),
        };
        let height = match read_number_field(value, "h") {
            Ok(n) => n,
            Err(e) => return Err(e),
        };
        let three_d = read_nonzero(value.get("ddd"));
        Ok(
            LottieModel {
                version,
                name,
                frame_rate,
                in_point,
                out_point,
                width,
                height,
                three_d,
                layers,
                assets,
                markers,
            },
        )
    }

    /// Reads a document from its JSON text.
    pub fn parse(text: &str) -> (r: Result<Self, LottieError>)
        ensures
            model_result_view(r) == read_text(text@),
    {
        match read_json_text(text) {
            Ok(v) => Self::from_json(&v),
            Err(e) => Err(LottieError::Json(e)),
        }
    }

    /// Reads a document from its JSON bytes (a file read into memory, an asset fetched at run
    /// time).
    pub fn from_slice(bytes: &[u8]) -> (r: Result<Self, LottieError>)
        ensures
            model_result_view(r) == read_bytes(bytes@),
            !vstd::utf8::valid_utf8(bytes@) ==> r matches Err(LottieError::Json(_)),
    {
        match read_json_bytes(bytes) {
            Ok(v) => Self::from_json(&v),
            Err(e) => Err(LottieError::Json(e)),
        }
    }
}

impl LottieModel {
    /// The asset with this id, if the document carries one (the first, if it carries several).
    pub fn asset(&self, id: &str) -> (r: Option<&Asset>)
        ensures
            match r {
                Some(a) => asset_lookup(self@.assets, id@) == Some(a@),
                None => asset_lookup(self@.assets, id@) is None,
            },
    {
        let key = String::from_str(id);
        let ghost all = self@.assets;
        let mut i: usize = 0;
        assert(all.skip(0) =~= all);
        while i < self.assets.len()
            invariant
                i <= self.assets.len(),
                key@ == id@,
                all == self.assets@.map_values(|a: Asset| a@),
                asset_lookup(all, id@) == asset_lookup(all.skip(i as int), id@),
            decreases self.assets.len() - i,
        {
            let ghost rest = all.skip(i as int);
            assert(rest[0] == self.assets@[i as int]@);
            if self.assets[i].id == key {
                assert(rest.len() > 0 && rest[0].id == id@);
                let found = &self.assets[i];
                return Some(found);
            }
            assert(rest.drop_first() =~= all.skip(i + 1));
            i = i + 1;
        }
        None
    }

    /// Everything a player would refuse or render badly, in file order. Empty means the
    /// document is playable as far as its structure goes; it says nothing about how it looks.
    pub fn verify(&self) -> (r: Vec<Issue>)
        ensures
            r@.map_values(|i: Issue| i@) == issues_of(self@),
    {
        let mut issues: Vec<Issue> = Vec::new();
        if self.out_point.le(&self.in_point) {
            issues.push(
                Issue::NoFrames {
                    in_point: self.in_point.duplicate(),
                    out_point: self.out_point.duplicate(),
                },
            );
        }
        if !self.frame_rate.is_positive() {
            issues.push(Issue::ZeroFrameRate { frame_rate: self.frame_rate.duplicate() });
        }
        if !self.width.is_positive() || !self.height.is_positive() {
            issues.push(
                Issue::NoSize { width: self.width.duplicate(), height: self.height.duplicate() },
            );
        }
        if self.layers.len() == 0 {
            issues.push(Issue::EmptyLayers);
        }
        let ghost m = self@;
        assert(issues@.map_values(|i: Issue| i@) =~= document_issues(m));
        let mut i: usize = 0;
        while i < self.layers.len()
            invariant
                i <= self.layers.len(),
                m == self@,
                issues@.map_values(|x: Issue| x@) =~= document_issues(m) + layers_issues(m, i as nat),
            decreases self.layers.len() - i,
        {
            self.push_layer_issues(i, &mut issues);
            assert(layers_issues(m, (i + 1) as nat) == layers_issues(m, i as nat) + layer_issues(m, i as nat));
            i = i + 1;
        }
        issues
    }

    /// Appends the issues of the layer at index `i`.
    fn push_layer_issues(&self, i: usize, issues: &mut Vec<Issue>)
        requires
            i < self.layers.len(),
        ensures
            final(issues)@.map_values(|x: Issue| x@) == old(issues)@.map_values(|x: Issue| x@)
                + layer_issues(self@, i as nat),
    {
        let ghost m = self@;
        let ghost before = issues@.map_values(|x: Issue| x@);
        let layer = &self.layers[i];
        assert(m.layers[i as int] == layer@);
        if let LayerKind::Unknown(ty) = layer.kind {
            issues.push(Issue::UnknownLayerType { layer: i, ty });
        }
        let ghost after_kind = issues@.map_values(|x: Issue| x@);
        if let Some(id) = &layer.ref_id {
            if self.asset(id.as_str()).is_none() {
                issues.push(Issue::MissingAsset { layer: i, id: id.clone() });
            }
        }
        let ghost after_ref = issues@.map_values(|x: Issue| x@);
        if layer.out_point.le(&layer.in_point) {
            issues.push(Issue::LayerNeverShows { layer: i });
        }
        proof {
            let l = m.layers[i as int];
            let k_part: Seq<IssueV> = match l.kind {
                LayerKind::Unknown(ty) => seq![IssueV::UnknownLayerType { layer: i as nat, ty }],
                _ => Seq::empty(),
            };
            assert(after_kind =~= before + k_part);
            let r_part: Seq<IssueV> = match l.ref_id {
                Some(id) => if asset_lookup(m.assets, id) is None {
                    seq![IssueV::MissingAsset { layer: i as nat, id }]
                } else {
                    Seq::empty()
                },
                None => Seq::empty(),
            };
            assert(after_ref =~= after_kind + r_part);
            let n_part: Seq<IssueV> = if num_le(l.out_point, l.in_point) {
                seq![IssueV::LayerNeverShows { layer: i as nat }]
            } else {
                Seq::empty()
            };
            assert(issues@.map_values(|x: Issue| x@) =~= after_ref + n_part);
            assert(layer_issues(m, i as nat) =~= k_part + r_part + n_part);
        }
    }
}

} // verus!
