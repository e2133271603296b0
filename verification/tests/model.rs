//! The headless reader, against documents written out here: the facts the demo's animations
//! carry, one that exercises every arm of the reader, and deliberately broken siblings.

use day_piece_lottie::model::{AssetKind, Issue, LayerKind, LottieError, LottieModel};
use day_piece_lottie::Num;

const HELLO: &str = r#"{"v": "5.9.0", "nm": "hello", "fr": 30, "ip": 0, "op": 60, "w": 200, "h": 200,
  "ddd": 0, "assets": [],
  "layers": [{"ddd": 0, "ind": 1, "ty": 4, "nm": "square", "ip": 0, "op": 60, "st": 0,
    "ks": {"o": {"a": 0, "k": 100}, "r": {"a": 1, "k": [{"t": 0, "s": [0]}, {"t": 60, "s": [360]}]}},
    "shapes": [{"ty": "rc", "s": {"a": 0, "k": [80, 80]}, "r": {"a": 0, "k": 12}}]}],
  "markers": []}"#;

const RICH: &str = r#"{"v": "5.7.4", "nm": "rich", "fr": 30, "ip": 0, "op": 90, "w": 512, "h": 512,
  "ddd": 0,
  "assets": [
    {"id": "img_0", "w": 64, "h": 64, "u": "images/", "p": "photo.png", "e": 0},
    {"id": "comp_0", "layers": [{"ty": 4, "ip": 0, "op": 30}]},
    {"p": "no-id.png"}
  ],
  "layers": [
    {"ind": 1, "ty": 4, "nm": "shape", "ip": 0, "op": 90},
    {"ind": 2, "ty": 2, "nm": "photo", "refId": "img_0", "ip": 0, "op": 90},
    {"ind": 3, "ty": 0, "nm": "nested", "refId": "comp_0", "ip": 5, "op": 90}
  ],
  "markers": [
    {"cm": "intro", "tm": 0, "dr": 30},
    {"cm": "loop", "tm": 30, "dr": 30},
    {"tm": 60}
  ]}"#;

const NO_FRAMES: &str = r#"{"v": "5.9.0", "nm": "no-frames", "fr": 30, "ip": 0, "op": 0, "w": 200, "h": 200,
  "layers": [{"ty": 4, "nm": "square", "ip": -1, "op": 60}]}"#;

const EMPTY_LAYERS: &str = r#"{"v": "5.9.0", "nm": "empty-layers", "fr": 30, "ip": 0, "op": 60, "w": 200, "h": 200,
  "layers": []}"#;

const MISSING_ASSET: &str = r#"{"v": "5.9.0", "nm": "missing-asset", "fr": 30, "ip": 0, "op": 60, "w": 200, "h": 200,
  "assets": [],
  "layers": [
    {"ty": 4, "nm": "square", "ip": 0, "op": 60},
    {"ty": 2, "nm": "photo", "refId": "img_0", "ip": 0, "op": 60}
  ]}"#;

const TRUNCATED: &str = r#"{"v": "5.9.0", "nm": "truncated", "fr": 30, "ip": 0, "op": 60, "w": 200, "h": 200, "layers": [{"ty": 4, "nm""#;

const HAMBURGER: &str = r#"{"v": "4.8.0", "fr": 30, "ip": 0, "op": 180, "w": 400, "h": 300, "ddd": 0,
  "assets": [],
  "layers": [
    {"ddd": 0, "ind": 1, "ty": 3, "nm": "Null 1", "ip": 0, "op": 180},
    {"ddd": 0, "ind": 2, "ty": 4, "nm": "top", "parent": 1, "ip": 0, "op": 180},
    {"ddd": 0, "ind": 3, "ty": 4, "nm": "middle", "parent": 1, "ip": 0, "op": 180},
    {"ddd": 0, "ind": 4, "ty": 4, "nm": "bottom", "parent": 1, "ip": 0, "op": 180}
  ]}"#;

/// A number as the float it writes.
fn f(n: &Num) -> f64 {
    n.to_text().parse().expect("a number prints as plain decimal")
}

/// `op - ip`, as the app computes it.
fn frames(m: &LottieModel) -> f64 {
    f(&m.out_point) - f(&m.in_point)
}

/// One pass in seconds, zero for a frame rate that is not positive, as the app computes it.
fn duration_secs(m: &LottieModel) -> f64 {
    if f(&m.frame_rate) > 0.0 {
        frames(m) / f(&m.frame_rate)
    } else {
        0.0
    }
}

fn num(text: &str) -> Num {
    Num::from_numeral(text).expect("a numeral")
}

/// The demo's animation, as the demo and the Showcase display it.
#[test]
fn hello_reads_back_its_facts() {
    let model = LottieModel::parse(HELLO).expect("hello.json parses");
    assert_eq!(model.name.as_deref(), Some("hello"));
    assert_eq!(model.version.as_deref(), Some("5.9.0"));
    assert_eq!(f(&model.frame_rate), 30.0);
    assert_eq!((f(&model.in_point), f(&model.out_point)), (0.0, 60.0));
    assert_eq!(frames(&model), 60.0);
    assert_eq!(duration_secs(&model), 2.0);
    assert_eq!((f(&model.width), f(&model.height)), (200.0, 200.0));
    assert!(!model.three_d);
    assert_eq!(model.layers.len(), 1);
    assert_eq!(model.layers[0].kind, LayerKind::Shape);
    assert_eq!(model.layers[0].name.as_deref(), Some("square"));
    assert!(model.assets.is_empty());
    assert!(model.markers.is_empty());
    assert!(model.verify().is_empty(), "{:?}", model.verify());
}

/// Bytes and text are the same reader.
#[test]
fn bytes_and_text_agree() {
    let a = LottieModel::parse(HELLO).expect("text");
    let b = LottieModel::from_slice(HELLO.as_bytes()).expect("bytes");
    assert_eq!(a, b);
}

/// Assets, precomps, markers, and layer references all read back.
#[test]
fn rich_reads_assets_layers_and_markers() {
    let model = LottieModel::parse(RICH).expect("rich.json parses");
    assert_eq!(model.layers.len(), 3);
    assert_eq!(model.layers[1].kind, LayerKind::Image);
    assert_eq!(model.layers[1].ref_id.as_deref(), Some("img_0"));
    assert_eq!(model.layers[2].kind, LayerKind::Precomp);
    assert_eq!(f(&model.layers[2].in_point), 5.0);

    let img = model.asset("img_0").expect("image asset");
    assert_eq!(
        img.kind,
        AssetKind::Image {
            file: Some("photo.png".into()),
            embedded: false
        }
    );
    let comp = model.asset("comp_0").expect("precomp asset");
    assert_eq!(comp.kind, AssetKind::Precomp { layers: 1 });
    assert!(model.asset("nope").is_none());

    assert_eq!(model.markers.len(), 2);
    assert_eq!(model.markers[1].name, "loop");
    assert_eq!(
        (f(&model.markers[1].frame), f(&model.markers[1].duration)),
        (30.0, 30.0)
    );
    assert!(model.verify().is_empty(), "{:?}", model.verify());
}

/// Each broken file names its one defect, in words a label can show.
#[test]
fn broken_files_name_their_defect() {
    let model = LottieModel::parse(NO_FRAMES).expect("parses; the defect is semantic");
    let issues = model.verify();
    assert_eq!(
        issues,
        [Issue::NoFrames {
            in_point: num("0"),
            out_point: num("0")
        }]
    );
    assert_eq!(duration_secs(&model), 0.0);
    assert_eq!(
        issues[0].describe(),
        "no frames to play: the out point (0) is not after the in point (0)"
    );

    let model = LottieModel::parse(EMPTY_LAYERS).expect("parses");
    assert_eq!(model.verify(), [Issue::EmptyLayers]);

    let model = LottieModel::parse(MISSING_ASSET).expect("parses");
    assert_eq!(
        model.verify(),
        [Issue::MissingAsset {
            layer: 1,
            id: "img_0".into()
        }]
    );
    assert_eq!(
        model.verify()[0].describe(),
        "layer 1 references the asset `img_0`, which is not in the file"
    );
}

/// What cannot be read at all is an error, not a model with issues.
#[test]
fn unreadable_documents_are_errors() {
    assert!(matches!(
        LottieModel::parse(TRUNCATED),
        Err(LottieError::Json(_))
    ));
    assert_eq!(LottieModel::parse("[1, 2]"), Err(LottieError::NotAnObject));
    assert_eq!(
        LottieModel::parse(r#"{"fr": 30, "ip": 0, "op": 60, "w": 10}"#),
        Err(LottieError::MissingField("h"))
    );
    let err = LottieModel::parse(r#"{"fr": "fast", "ip": 0, "op": 60, "w": 10, "h": 10}"#)
        .expect_err("fr is a string");
    assert_eq!(err.describe(), "the field `fr` is not a number");
}

/// Layer-level checks: an unknown type number and a layer that ends before it starts.
#[test]
fn layer_defects_are_reported_by_index() {
    let text = r#"{"fr": 24, "ip": 0, "op": 48, "w": 100, "h": 100, "layers": [
        {"ty": 4, "ip": 0, "op": 48},
        {"ty": 99, "ip": 0, "op": 48},
        {"ty": 4, "ip": 20, "op": 10}
    ]}"#;
    let model = LottieModel::parse(text).expect("parses");
    assert_eq!(model.layers[1].kind, LayerKind::Unknown(99));
    assert_eq!(model.layers[1].kind.describe(), "unknown type 99");
    assert_eq!(
        model.verify(),
        [
            Issue::UnknownLayerType { layer: 1, ty: 99 },
            Issue::LayerNeverShows { layer: 2 },
        ]
    );
}

/// The second animation the demo bundles: the facts its walkthrough asserts.
#[test]
fn hamburger_arrow_reads_back_its_facts() {
    let model = LottieModel::parse(HAMBURGER).expect("hamburger-arrow.json parses");
    assert_eq!(
        model.name, None,
        "the exporter recorded no composition name"
    );
    assert_eq!(frames(&model), 180.0);
    assert_eq!(f(&model.frame_rate), 30.0);
    assert_eq!(duration_secs(&model), 6.0);
    assert_eq!((f(&model.width), f(&model.height)), (400.0, 300.0));
    assert_eq!(model.layers.len(), 4);
    let shapes = model
        .layers
        .iter()
        .filter(|l| l.kind == LayerKind::Shape)
        .count();
    let nulls = model
        .layers
        .iter()
        .filter(|l| l.kind == LayerKind::Null)
        .count();
    assert_eq!((shapes, nulls), (3, 1), "three shapes under a null parent");
    assert!(model.verify().is_empty(), "{:?}", model.verify());
}
