//! The reader's arms, its errors, its issues and the sentences it writes.

use day_piece_lottie::model::{AssetKind, Issue, LayerKind, LottieError, LottieModel};
use day_piece_lottie::summary::layer_summary;
use day_piece_lottie::Num;

fn num(text: &str) -> Num {
    Num::from_numeral(text).expect("a numeral")
}

const PLAYABLE: &str = r#"{"fr": 25, "ip": 0, "op": 50, "w": 64, "h": 32, "layers": [
    {"ty": 1, "ip": 0, "op": 50}, {"ty": 2, "refId": "a", "ip": 10, "op": 20}],
    "assets": [{"id": "a", "p": "a.png"}]}"#;

#[test]
fn each_read_error_names_itself() {
    let e = LottieModel::parse("{\"fr\": ").unwrap_err();
    assert!(matches!(e, LottieError::Json(_)));
    assert!(e.describe().starts_with("not valid JSON: "), "{}", e.describe());
    assert_eq!(LottieModel::parse("7").unwrap_err().describe(), "the document is not a JSON object");
    assert_eq!(
        LottieModel::parse(r#"{"fr": 30, "ip": 0, "op": 60, "w": 10}"#).unwrap_err().describe(),
        "the required field `h` is missing"
    );
    assert_eq!(
        LottieModel::parse(r#"{"layers": 3}"#),
        Err(LottieError::BadField { field: "layers", expected: "an array" })
    );
    assert_eq!(
        LottieModel::parse(r#"{"fr": 30, "ip": 0, "op": 60, "w": 10, "h": 10, "v": 5}"#),
        Err(LottieError::BadField { field: "v", expected: "a string" })
    );
    assert_eq!(
        LottieModel::parse(r#"{"fr": null, "ip": 0, "op": 60, "w": 10, "h": 10}"#),
        Err(LottieError::BadField { field: "fr", expected: "a number" })
    );
}

#[test]
fn errors_come_in_reading_order() {
    // The lists are read first, then the texts, then the numbers.
    assert_eq!(
        LottieModel::parse(r#"{"markers": {}, "nm": 1}"#),
        Err(LottieError::BadField { field: "markers", expected: "an array" })
    );
    assert_eq!(
        LottieModel::parse(r#"{"nm": 1, "ip": 0}"#),
        Err(LottieError::BadField { field: "nm", expected: "a string" })
    );
    assert_eq!(LottieModel::parse(r#"{"ip": 0}"#), Err(LottieError::MissingField("fr")));
}

#[test]
fn null_and_absent_fields_read_as_empty() {
    let m = LottieModel::parse(
        r#"{"v": null, "nm": null, "fr": 1, "ip": 0, "op": 1, "w": 1, "h": 1, "layers": null}"#,
    )
    .unwrap();
    assert_eq!(m.version, None);
    assert_eq!(m.name, None);
    assert!(m.layers.is_empty() && m.assets.is_empty() && m.markers.is_empty());
    assert!(!m.three_d);
}

#[test]
fn the_three_d_flag_is_any_nonzero_number() {
    let read = |ddd: &str| {
        LottieModel::parse(&format!(
            r#"{{"fr": 1, "ip": 0, "op": 1, "w": 1, "h": 1, "ddd": {ddd}}}"#
        ))
        .unwrap()
        .three_d
    };
    assert!(read("1"));
    assert!(read("-0.5"));
    assert!(!read("0"));
    assert!(!read("0.0"));
    assert!(!read("true"));
}

#[test]
fn layers_assets_and_markers_take_their_defaults() {
    let m = LottieModel::parse(
        r#"{"fr": 1, "ip": 0, "op": 1, "w": 1, "h": 1,
        "layers": [{"nm": "bare"}, 5, {"ty": 1.0, "ind": -2, "ip": 1.5, "op": "x"}],
        "assets": [{"p": "no-id.png"}, {"id": "e", "e": 1}, {"id": 3}, {"id": "c", "layers": []}],
        "markers": [{"tm": 3}, {"cm": "only"}]}"#,
    )
    .unwrap();
    assert_eq!(m.layers.len(), 3);
    assert_eq!(m.layers[0].kind, LayerKind::Unknown(u64::MAX));
    assert_eq!(m.layers[0].name.as_deref(), Some("bare"));
    assert_eq!(m.layers[1].kind, LayerKind::Unknown(u64::MAX));
    assert_eq!(m.layers[1].name, None);
    assert_eq!(m.layers[2].kind, LayerKind::Unknown(u64::MAX));
    assert_eq!(m.layers[2].index, None);
    assert_eq!(m.layers[2].in_point, num("1.5"));
    assert_eq!(m.layers[2].out_point, num("0"));
    assert_eq!(m.assets.len(), 2);
    assert_eq!(m.assets[0].kind, AssetKind::Image { file: None, embedded: true });
    assert_eq!(m.assets[1].kind, AssetKind::Precomp { layers: 0 });
    assert_eq!(m.markers.len(), 1);
    assert_eq!(m.markers[0].name, "only");
    assert_eq!(m.markers[0].frame, num("0"));
}

#[test]
fn other_members_are_ignored() {
    let plain = LottieModel::parse(PLAYABLE).unwrap();
    let richer = LottieModel::parse(
        r#"{"meta": {"g": "newer exporter"}, "fr": 25, "ip": 0, "op": 50, "w": 64, "h": 32,
        "layers": [{"ty": 1, "ip": 0, "op": 50}, {"ty": 2, "refId": "a", "ip": 10, "op": 20}],
        "assets": [{"id": "a", "p": "a.png"}], "fonts": {"list": []}, "chars": []}"#,
    )
    .unwrap();
    assert_eq!(plain, richer);
}

#[test]
fn bytes_and_text_agree_beyond_ascii() {
    let text = r#"{"nm": "\u00e9t\u00e9 – ☀", "fr": 1, "ip": 0, "op": 1, "w": 1, "h": 1}"#;
    let a = LottieModel::parse(text).unwrap();
    let b = LottieModel::from_slice(text.as_bytes()).unwrap();
    assert_eq!(a, b);
    assert_eq!(a.name.as_deref(), Some("été – ☀"));
    assert!(matches!(LottieModel::from_slice(&[0x7b, 0xff]), Err(LottieError::Json(_))));
}

#[test]
fn a_playable_document_has_no_issues() {
    assert!(LottieModel::parse(PLAYABLE).unwrap().verify().is_empty());
}

#[test]
fn every_document_issue_comes_in_order() {
    let m = LottieModel::parse(r#"{"fr": -1, "ip": 5, "op": 2, "w": 0, "h": 100}"#).unwrap();
    let issues = m.verify();
    assert_eq!(
        issues,
        [
            Issue::NoFrames { in_point: num("5"), out_point: num("2") },
            Issue::ZeroFrameRate { frame_rate: num("-1") },
            Issue::NoSize { width: num("0"), height: num("100") },
            Issue::EmptyLayers,
        ]
    );
    assert_eq!(issues[0].describe(), "no frames to play: the out point (2) is not after the in point (5)");
    assert_eq!(issues[1].describe(), "the frame rate is -1, so no frame lasts any time");
    assert_eq!(issues[2].describe(), "the composition is 0 \u{d7} 100, so nothing can be drawn");
    assert_eq!(issues[3].describe(), "the composition has no layers");
}

#[test]
fn every_layer_issue_comes_in_order() {
    let m = LottieModel::parse(
        r#"{"fr": 1, "ip": 0, "op": 1, "w": 1, "h": 1, "layers": [
        {"ty": 17, "refId": "gone", "ip": 3, "op": 3}, {"ty": 4, "ip": 0, "op": 1}]}"#,
    )
    .unwrap();
    let issues = m.verify();
    assert_eq!(
        issues,
        [
            Issue::UnknownLayerType { layer: 0, ty: 17 },
            Issue::MissingAsset { layer: 0, id: "gone".into() },
            Issue::LayerNeverShows { layer: 0 },
        ]
    );
    assert_eq!(issues[0].describe(), "layer 0 has the unknown type 17");
    assert_eq!(issues[2].describe(), "layer 0 ends before it starts, so it never shows");
}

#[test]
fn one_defect_is_enough_to_be_reported() {
    let cases = [
        (r#""ip": 0, "op": 0"#, r#""fr": 25, "w": 64, "h": 32"#),
        (r#""ip": 0, "op": 50"#, r#""fr": 0, "w": 64, "h": 32"#),
        (r#""ip": 0, "op": 50"#, r#""fr": 25, "w": 64, "h": -32"#),
    ];
    for (time, rest) in cases {
        let text = format!(r#"{{{time}, {rest}, "layers": [{{"ty": 1, "ip": 0, "op": 50}}]}}"#);
        assert_eq!(LottieModel::parse(&text).unwrap().verify().len(), 1, "{text}");
    }
}

#[test]
fn the_first_asset_with_an_id_is_the_one_found() {
    let m = LottieModel::parse(
        r#"{"fr": 1, "ip": 0, "op": 1, "w": 1, "h": 1,
        "assets": [{"id": "x", "p": "first.png"}, {"id": "x", "p": "second.png"}]}"#,
    )
    .unwrap();
    assert_eq!(
        m.asset("x").unwrap().kind,
        AssetKind::Image { file: Some("first.png".into()), embedded: false }
    );
    assert!(m.asset("X").is_none());
}

#[test]
fn layer_types_have_their_names() {
    let names = [
        "precomp", "solid", "image", "null", "shape", "text", "audio", "video placeholder",
        "image sequence", "video", "image placeholder", "guide", "adjustment", "camera", "light",
        "data",
    ];
    for (ty, name) in names.iter().enumerate() {
        let kind = LayerKind::from_ty(ty as u64);
        assert_ne!(kind, LayerKind::Unknown(ty as u64));
        assert_eq!(kind.describe(), *name);
    }
    assert_eq!(LayerKind::from_ty(16), LayerKind::Unknown(16));
    assert_eq!(LayerKind::from_ty(u64::MAX).describe(), "unknown type 18446744073709551615");
}

#[test]
fn the_layer_summary_counts_by_kind_in_order_of_first_appearance() {
    let m = LottieModel::parse(
        r#"{"fr": 1, "ip": 0, "op": 1, "w": 1, "h": 1, "layers": [
        {"ty": 3}, {"ty": 4}, {"ty": 4}, {"ty": 4}]}"#,
    )
    .unwrap();
    assert_eq!(layer_summary(&m), "1 null, 3 shape");
    let m = LottieModel::parse(
        r#"{"fr": 1, "ip": 0, "op": 1, "w": 1, "h": 1, "layers": [{"ty": 4}, {"ty": 4}, {"ty": 4}, {"ty": 4}]}"#,
    )
    .unwrap();
    assert_eq!(layer_summary(&m), "4 shape");
    let m = LottieModel::parse(r#"{"fr": 1, "ip": 0, "op": 1, "w": 1, "h": 1}"#).unwrap();
    assert_eq!(layer_summary(&m), "0");
}

#[test]
fn a_negative_zero_reads_equal_to_zero() {
    let a = LottieModel::parse(r#"{"fr": 1, "ip": -0.0, "op": 1, "w": 1, "h": 1}"#).unwrap();
    let b = LottieModel::parse(r#"{"fr": 1, "ip": 0, "op": 1, "w": 1, "h": 1}"#).unwrap();
    assert_eq!(a, b);
}

#[test]
fn bytes_that_are_not_utf8_are_a_json_error() {
    assert!(matches!(LottieModel::from_slice(b"{\"nm\": \"\xff\"}"), Err(LottieError::Json(_))));
    assert!(matches!(LottieModel::from_slice(&[0xc3]), Err(LottieError::Json(_))));
}

#[test]
fn integers_read_as_the_floats_they_round_to() {
    let m = LottieModel::parse(
        r#"{"fr": 1, "ip": 9007199254740992, "op": 9007199254740993, "w": 1, "h": 1,
        "layers": [{"ty": 18446744073709551615, "ip": 0, "op": 1}]}"#,
    )
    .unwrap();
    assert_eq!(m.in_point, m.out_point);
    let issues = m.verify();
    assert_eq!(issues[0], Issue::NoFrames { in_point: num("9007199254740992"), out_point: num("9007199254740992") });
    assert_eq!(
        issues[0].describe(),
        "no frames to play: the out point (9007199254740992) is not after the in point (9007199254740992)"
    );
    assert_eq!(m.layers[0].kind, LayerKind::Unknown(u64::MAX));
    let m = LottieModel::parse(r#"{"fr": 1, "ip": 0, "op": 1, "w": 18446744073709551615, "h": 1}"#)
        .unwrap();
    assert_eq!(m.width.to_text(), format!("{}", u64::MAX as f64));
}
