//! The plain sentences that name layer types, read errors and issues.

use vstd::prelude::*;

use crate::model::{Issue, IssueV, LayerKind, LottieError, LottieErrorV};
use crate::number::{nat_text, plain_text, push_decimal};
use crate::text::{push_str, string_of};

verus! {

/// The name of a layer type.
pub open spec fn kind_text(k: LayerKind) -> Seq<char> {
    match k {
        LayerKind::Precomp => "precomp"@,
        LayerKind::Solid => "solid"@,
        LayerKind::Image => "image"@,
        LayerKind::Null => "null"@,
        LayerKind::Shape => "shape"@,
        LayerKind::Text => "text"@,
        LayerKind::Audio => "audio"@,
        LayerKind::VideoPlaceholder => "video placeholder"@,
        LayerKind::ImageSequence => "image sequence"@,
        LayerKind::Video => "video"@,
        LayerKind::ImagePlaceholder => "image placeholder"@,
        LayerKind::Guide => "guide"@,
        LayerKind::Adjustment => "adjustment"@,
        LayerKind::Camera => "camera"@,
        LayerKind::Light => "light"@,
        LayerKind::Data => "data"@,
        LayerKind::Unknown(n) => "unknown type "@ + nat_text(n as nat),
    }
}

/// The sentence for a read error.
pub open spec fn error_text(e: LottieErrorV) -> Seq<char> {
    match e {
        LottieErrorV::Json(msg) => "not valid JSON: "@ + msg,
        LottieErrorV::NotAnObject => "the document is not a JSON object"@,
        LottieErrorV::MissingField(name) => "the required field `"@ + name + "` is missing"@,
        LottieErrorV::BadField { field, expected } => "the field `"@ + field + "` is not "@
            + expected,
    }
}

/// The sentence for an issue.
pub open spec fn issue_text(i: IssueV) -> Seq<char> {
    match i {
        IssueV::NoFrames { in_point, out_point } => "no frames to play: the out point ("@
            + plain_text(out_point) + ") is not after the in point ("@ + plain_text(in_point)
            + ")"@,
        IssueV::ZeroFrameRate { frame_rate } => "the frame rate is "@ + plain_text(frame_rate)
            + ", so no frame lasts any time"@,
        IssueV::NoSize { width, height } => "the composition is "@ + plain_text(width) + " \u{d7} "@
            + plain_text(height) + ", so nothing can be drawn"@,
        IssueV::EmptyLayers => "the composition has no layers"@,
        IssueV::MissingAsset { layer, id } => "layer "@ + nat_text(layer) + " references the asset `"@
            + id + "`, which is not in the file"@,
        IssueV::UnknownLayerType { layer, ty } => "layer "@ + nat_text(layer)
            + " has the unknown type "@ + nat_text(ty as nat),
        IssueV::LayerNeverShows { layer } => "layer "@ + nat_text(layer)
            + " ends before it starts, so it never shows"@,
    }
}

impl LayerKind {
    /// The name of this layer type, e.g. `"shape"` or `"unknown type 99"`.
    pub fn describe(&self) -> (r: String)
        ensures
            r@ == kind_text(*self),
    {
        let mut out: Vec<char> = Vec::new();
        self.push_description(&mut out);
        assert(out@ =~= kind_text(*self));
        string_of(out.as_slice())
    }

    /// Appends the name of this layer type.
    pub fn push_description(&self, out: &mut Vec<char>)
        ensures
            final(out)@ == old(out)@ + kind_text(*self),
    {
        match self {
            LayerKind::Precomp => push_str(out, "precomp"),
            LayerKind::Solid => push_str(out, "solid"),
            LayerKind::Image => push_str(out, "image"),
            LayerKind::Null => push_str(out, "null"),
            LayerKind::Shape => push_str(out, "shape"),
            LayerKind::Text => push_str(out, "text"),
            LayerKind::Audio => push_str(out, "audio"),
            LayerKind::VideoPlaceholder => push_str(out, "video placeholder"),
            LayerKind::ImageSequence => push_str(out, "image sequence"),
            LayerKind::Video => push_str(out, "video"),
            LayerKind::ImagePlaceholder => push_str(out, "image placeholder"),
            LayerKind::Guide => push_str(out, "guide"),
            LayerKind::Adjustment => push_str(out, "adjustment"),
            LayerKind::Camera => push_str(out, "camera"),
            LayerKind::Light => push_str(out, "light"),
            LayerKind::Data => push_str(out, "data"),
            LayerKind::Unknown(n) => {
                let ghost start = out@;
                push_str(out, "unknown type ");
                push_decimal(out, *n);
                assert(out@ =~= start + kind_text(*self));
            },
        }
    }
}

impl LottieError {
    /// One plain sentence saying why the document could not be read.
    pub fn describe(&self) -> (r: String)
        ensures
            r@ == error_text(self@),
    {
        let mut out: Vec<char> = Vec::new();
        match self {
            LottieError::Json(e) => {
                push_str(&mut out, "not valid JSON: ");
                push_str(&mut out, e.as_str());
            },
            LottieError::NotAnObject => {
                push_str(&mut out, "the document is not a JSON object");
            },
            LottieError::MissingField(name) => {
                push_str(&mut out, "the required field `");
                push_str(&mut out, name);
                push_str(&mut out, "` is missing");
            },
            LottieError::BadField { field, expected } => {
                push_str(&mut out, "the field `");
                push_str(&mut out, field);
                push_str(&mut out, "` is not ");
                push_str(&mut out, expected);
            },
        }
        assert(out@ =~= error_text(self@));
        string_of(out.as_slice())
    }
}

impl Issue {
    /// One plain sentence saying what is wrong, so a label or a test can show it as is.
    pub fn describe(&self) -> (r: String)
        ensures
            r@ == issue_text(self@),
    {
        let mut out: Vec<char> = Vec::new();
        match self {
            Issue::NoFrames { in_point, out_point } => {
                push_str(&mut out, "no frames to play: the out point (");
                out_point.push_text(&mut out);
                push_str(&mut out, ") is not after the in point (");
                in_point.push_text(&mut out);
                push_str(&mut out, ")");
            },
            Issue::ZeroFrameRate { frame_rate } => {
                push_str(&mut out, "the frame rate is ");
                frame_rate.push_text(&mut out);
                push_str(&mut out, ", so no frame lasts any time");
            },
            Issue::NoSize { width, height } => {
                push_str(&mut out, "the composition is ");
                width.push_text(&mut out);
                push_str(&mut out, " \u{d7} ");
                height.push_text(&mut out);
                push_str(&mut out, ", so nothing can be drawn");
            },
            Issue::EmptyLayers => {
                push_str(&mut out, "the composition has no layers");
            },
            Issue::MissingAsset { layer, id } => {
                push_str(&mut out, "layer ");
                push_decimal(&mut out, *layer as u64);
                push_str(&mut out, " references the asset `");
                push_str(&mut out, id.as_str());
                push_str(&mut out, "`, which is not in the file");
            },
            Issue::UnknownLayerType { layer, ty } => {
                push_str(&mut out, "layer ");
                push_decimal(&mut out, *layer as u64);
                push_str(&mut out, " has the unknown type ");
                push_decimal(&mut out, *ty);
            },
            Issue::LayerNeverShows { layer } => {
                push_str(&mut out, "layer ");
                push_decimal(&mut out, *layer as u64);
                push_str(&mut out, " ends before it starts, so it never shows");
            },
        }
        assert(out@ =~= issue_text(self@));
        string_of(out.as_slice())
    }
}

} // verus!
