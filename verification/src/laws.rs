//! What holds of the library as a whole, across its functions.

use vstd::prelude::*;
use vstd::string::StringSliceAdditionalSpecFns;

use crate::json::{json_get, Json};
use crate::model::{
    asset_lookup, document_issues, issues_of, kind_of_ty, layer_issues, layers_issues, model_of,
    read_bytes, read_text, AssetV, LayerKind, LottieModelV,
};
use crate::number::{num_le, num_positive};
use crate::summary::tally;
use crate::web::{
    encode_char, encode_text, hex_digit, js_escape, js_escape_char, js_literal, percent_bytes,
    after_pause_of, ready_step_of, seq_contains, url_safe, PageReply, ReadyStep, READY_TRIES,
};

verus! {

/// Bytes and text are the same reader: reading a text gives what reading its UTF-8 bytes gives.
pub proof fn law_bytes_and_text_agree(text: &str)
    ensures
        read_text(text@) == read_bytes(text.spec_bytes()),
{
}

/// The layer at index `i` plays: its type is known, the asset it references is in the
/// document, and it ends after it starts.
pub open spec fn layer_plays(m: LottieModelV, i: int) -> bool {
    let l = m.layers[i];
    &&& !(l.kind is Unknown)
    &&& (l.ref_id matches Some(id) ==> asset_lookup(m.assets, id) is Some)
    &&& !num_le(l.out_point, l.in_point)
}

/// The document is playable as far as its structure goes.
pub open spec fn playable(m: LottieModelV) -> bool {
    &&& !num_le(m.out_point, m.in_point)
    &&& num_positive(m.frame_rate)
    &&& num_positive(m.width)
    &&& num_positive(m.height)
    &&& m.layers.len() > 0
    &&& forall|i: int| 0 <= i < m.layers.len() ==> layer_plays(m, i)
}

proof fn lemma_layer_issues_empty(m: LottieModelV, i: nat)
    requires
        i < m.layers.len(),
    ensures
        layer_issues(m, i).len() == 0 <==> layer_plays(m, i as int),
{
}

proof fn lemma_layers_issues_empty(m: LottieModelV, n: nat)
    requires
        n <= m.layers.len(),
    ensures
        layers_issues(m, n).len() == 0 <==> forall|i: int| 0 <= i < n ==> layer_plays(m, i),
    decreases n,
{
    if n > 0 {
        lemma_layers_issues_empty(m, (n - 1) as nat);
        lemma_layer_issues_empty(m, (n - 1) as nat);
        if layers_issues(m, n).len() == 0 {
            assert forall|i: int| 0 <= i < n implies layer_plays(m, i) by {
                if i == n - 1 {
                } else {
                }
            }
        }
    }
}

/// `verify` comes back empty exactly when the document is playable as far as its structure
/// goes: frames to play, a positive frame rate, a size, layers, and every layer of a known type,
/// with its asset present, showing for some time.
pub proof fn law_no_issues_iff_playable(m: LottieModelV)
    ensures
        issues_of(m).len() == 0 <==> playable(m),
{
    lemma_layers_issues_empty(m, m.layers.len());
}

/// Every issue names a real defect: each layer index an issue carries is the index of a layer.
pub proof fn law_issue_layers_exist(m: LottieModelV, n: nat)
    requires
        n <= m.layers.len(),
    ensures
        forall|k: int|
            0 <= k < layers_issues(m, n).len() ==> match #[trigger] layers_issues(m, n)[k] {
                crate::model::IssueV::MissingAsset { layer, id } => layer < n,
                crate::model::IssueV::UnknownLayerType { layer, ty } => layer < n,
                crate::model::IssueV::LayerNeverShows { layer } => layer < n,
                _ => false,
            },
    decreases n,
{
    if n > 0 {
        law_issue_layers_exist(m, (n - 1) as nat);
        let front = layers_issues(m, (n - 1) as nat);
        let last = layer_issues(m, (n - 1) as nat);
        assert forall|k: int| 0 <= k < layers_issues(m, n).len() implies match #[trigger] layers_issues(m, n)[k] {
            crate::model::IssueV::MissingAsset { layer, id } => layer < n,
            crate::model::IssueV::UnknownLayerType { layer, ty } => layer < n,
            crate::model::IssueV::LayerNeverShows { layer } => layer < n,
            _ => false,
        } by {
            if k < front.len() {
                assert(layers_issues(m, n)[k] == front[k]);
            } else {
                assert(layers_issues(m, n)[k] == last[k - front.len()]);
            }
        }
    }
}

/// `asset` finds an asset exactly when the document carries one with that id, and what it
/// finds is the first such asset.
pub proof fn law_asset_lookup(assets: Seq<AssetV>, id: Seq<char>)
    ensures
        asset_lookup(assets, id) is None <==> forall|i: int| 0 <= i < assets.len() ==> #[trigger] assets[i].id != id,
        asset_lookup(assets, id) matches Some(a) ==> exists|i: int|
            0 <= i < assets.len() && assets[i] == a && a.id == id && forall|j: int|
                0 <= j < i ==> #[trigger] assets[j].id != id,
    decreases assets.len(),
{
    if assets.len() > 0 {
        let rest = assets.drop_first();
        law_asset_lookup(rest, id);
        if assets[0].id != id {
            assert forall|i: int| 0 <= i < rest.len() implies rest[i] == assets[i + 1] by {}
            if asset_lookup(assets, id) is None {
                assert forall|i: int| 0 <= i < assets.len() implies #[trigger] assets[i].id != id by {
                    if i > 0 {
                        assert(assets[i] == rest[i - 1]);
                    }
                }
            }
            if let Some(a) = asset_lookup(assets, id) {
                let i = choose|i: int|
                    0 <= i < rest.len() && rest[i] == a && a.id == id && forall|j: int|
                        0 <= j < i ==> #[trigger] rest[j].id != id;
                assert(assets[i + 1] == a);
                assert forall|j: int| 0 <= j < i + 1 implies #[trigger] assets[j].id != id by {
                    if j > 0 {
                        assert(assets[j] == rest[j - 1]);
                    }
                }
            }
        } else {
            assert(assets[0].id == id);
        }
    }
}

/// The members of a document that the reader looks at.
pub open spec fn read_member(key: Seq<char>) -> bool {
    ||| key == "layers"@
    ||| key == "assets"@
    ||| key == "markers"@
    ||| key == "v"@
    ||| key == "nm"@
    ||| key == "fr"@
    ||| key == "ip"@
    ||| key == "op"@
    ||| key == "w"@
    ||| key == "h"@
    ||| key == "ddd"@
}

/// Files written by a newer exporter parse: two documents that agree on the members the reader
/// looks at read the same, whatever else either carries.
pub proof fn law_other_members_ignored(a: Json, b: Json)
    requires
        a is Object,
        b is Object,
        forall|key: Seq<char>| read_member(key) ==> json_get(a, key) == json_get(b, key),
    ensures
        model_of(a) == model_of(b),
{
    assert(read_member("layers"@));
    assert(json_get(a, "layers"@) == json_get(b, "layers"@));
    assert(read_member("assets"@));
    assert(json_get(a, "assets"@) == json_get(b, "assets"@));
    assert(read_member("markers"@));
    assert(json_get(a, "markers"@) == json_get(b, "markers"@));
    assert(read_member("v"@));
    assert(json_get(a, "v"@) == json_get(b, "v"@));
    assert(read_member("nm"@));
    assert(json_get(a, "nm"@) == json_get(b, "nm"@));
    assert(read_member("fr"@));
    assert(json_get(a, "fr"@) == json_get(b, "fr"@));
    assert(read_member("ip"@));
    assert(json_get(a, "ip"@) == json_get(b, "ip"@));
    assert(read_member("op"@));
    assert(json_get(a, "op"@) == json_get(b, "op"@));
    assert(read_member("w"@));
    assert(json_get(a, "w"@) == json_get(b, "w"@));
    assert(read_member("h"@));
    assert(json_get(a, "h"@) == json_get(b, "h"@));
    assert(read_member("ddd"@));
    assert(json_get(a, "ddd"@) == json_get(b, "ddd"@));
}

/// A type number the format defines names its type; any other number is kept as unknown.
pub proof fn law_layer_types(ty: u64)
    ensures
        kind_of_ty(ty) is Unknown <==> ty > 15,
        kind_of_ty(ty) matches LayerKind::Unknown(n) ==> n == ty,
{
}

/// The text a JavaScript string literal's body stands for, read escape by escape.
pub open spec fn js_unescape(t: Seq<char>) -> Seq<char>
    decreases t.len(),
{
    if t.len() == 0 {
        Seq::empty()
    } else if t[0] == '\\' && t.len() >= 2 {
        seq![
            if t[1] == 'n' {
                '\n'
            } else if t[1] == 'r' {
                '\r'
            } else {
                t[1]
            },
        ] + js_unescape(t.skip(2))
    } else {
        seq![t[0]] + js_unescape(t.drop_first())
    }
}

/// The body of a single-quoted literal does not end it early: every quote, line feed and
/// carriage return in it sits behind a backslash, and no backslash is left dangling at its end.
pub open spec fn js_sealed(t: Seq<char>) -> bool
    decreases t.len(),
{
    if t.len() == 0 {
        true
    } else if t[0] == '\\' {
        t.len() >= 2 && js_sealed(t.skip(2))
    } else if t[0] == '\'' || t[0] == '\n' || t[0] == '\r' {
        false
    } else {
        js_sealed(t.drop_first())
    }
}

proof fn lemma_escape_char_then(c: char, rest: Seq<char>)
    ensures
        js_unescape(js_escape_char(c) + rest) == seq![c] + js_unescape(rest),
        js_sealed(js_escape_char(c) + rest) == js_sealed(rest),
{
    let t = js_escape_char(c) + rest;
    if c == '\'' || c == '\\' || c == '\n' || c == '\r' {
        assert(t.skip(2) =~= rest);
    } else {
        assert(t.drop_first() =~= rest);
    }
}

proof fn lemma_escape_then(s: Seq<char>, rest: Seq<char>)
    ensures
        js_unescape(js_escape(s) + rest) == s + js_unescape(rest),
        js_sealed(js_escape(s) + rest) == js_sealed(rest),
    decreases s.len(),
{
    if s.len() == 0 {
        assert(js_escape(s) + rest =~= rest);
        assert(s + js_unescape(rest) =~= js_unescape(rest));
    } else {
        let front = s.drop_last();
        let c = s.last();
        lemma_escape_char_then(c, rest);
        lemma_escape_then(front, js_escape_char(c) + rest);
        assert(js_escape(s) + rest =~= js_escape(front) + (js_escape_char(c) + rest));
        assert(front + (seq![c] + js_unescape(rest)) =~= s + js_unescape(rest));
    }
}

proof fn lemma_escape_has_no_line_breaks(s: Seq<char>)
    ensures
        forall|i: int|
            0 <= i < js_escape(s).len() ==> #[trigger] js_escape(s)[i] != '\n' && js_escape(s)[i]
                != '\r',
    decreases s.len(),
{
    if s.len() > 0 {
        let front = js_escape(s.drop_last());
        let tail = js_escape_char(s.last());
        lemma_escape_has_no_line_breaks(s.drop_last());
        assert forall|i: int| 0 <= i < js_escape(s).len() implies #[trigger] js_escape(s)[i] != '\n'
            && js_escape(s)[i] != '\r' by {
            if i < front.len() {
                assert(js_escape(s)[i] == front[i]);
            } else {
                assert(js_escape(s)[i] == tail[i - front.len()]);
            }
        }
    }
}

/// A JavaScript string cannot be escaped out of: the literal opens and closes with a quote, holds
/// no raw line feed or carriage return, its body cannot end it early, and the body reads back as
/// exactly the text it was made from.
pub proof fn law_js_literal_is_sealed(s: Seq<char>)
    ensures
        ({
            let lit = js_literal(s);
            let body = lit.subrange(1, lit.len() - 1);
            &&& lit.len() >= 2
            &&& lit[0] == '\''
            &&& lit[lit.len() - 1] == '\''
            &&& forall|i: int| 0 <= i < lit.len() ==> #[trigger] lit[i] != '\n' && lit[i] != '\r'
            &&& js_sealed(body)
            &&& js_unescape(body) == s
        }),
{
    let lit = js_literal(s);
    let body = lit.subrange(1, lit.len() - 1);
    assert(body =~= js_escape(s));
    lemma_escape_has_no_line_breaks(s);
    assert forall|i: int| 0 <= i < lit.len() implies #[trigger] lit[i] != '\n' && lit[i] != '\r' by {
        if 0 < i < lit.len() - 1 {
            assert(lit[i] == js_escape(s)[i - 1]);
        }
    }
    lemma_escape_then(s, Seq::empty());
    assert(js_escape(s) + Seq::<char>::empty() =~= js_escape(s));
    assert(s + js_unescape(Seq::<char>::empty()) =~= s);
}

/// A character that cannot end a query value or start another parameter.
pub open spec fn query_safe(c: char) -> bool {
    url_safe(c) || c == '%'
}

proof fn lemma_hex_safe(d: u8)
    requires
        d < 16,
    ensures
        url_safe(hex_digit(d)),
{
}

proof fn lemma_percent_safe(bytes: Seq<u8>)
    ensures
        forall|i: int| 0 <= i < percent_bytes(bytes).len() ==> query_safe(#[trigger] percent_bytes(bytes)[i]),
    decreases bytes.len(),
{
    if bytes.len() > 0 {
        lemma_percent_safe(bytes.drop_last());
        let b = bytes.last();
        lemma_hex_safe(b / 16);
        lemma_hex_safe(b % 16);
        let front = percent_bytes(bytes.drop_last());
        let tail = seq!['%', hex_digit(b / 16), hex_digit(b % 16)];
        assert forall|i: int| 0 <= i < percent_bytes(bytes).len() implies query_safe(#[trigger] percent_bytes(bytes)[i]) by {
            if i < front.len() {
                assert(percent_bytes(bytes)[i] == front[i]);
            } else {
                assert(percent_bytes(bytes)[i] == tail[i - front.len()]);
            }
        }
    }
}

/// An encoded name holds nothing that could end the value or open a second parameter: only the
/// characters a name keeps as they are, and `%` escapes.
pub proof fn law_encoded_name_is_query_safe(name: Seq<char>)
    ensures
        forall|i: int| 0 <= i < encode_text(name).len() ==> query_safe(#[trigger] encode_text(name)[i]),
    decreases name.len(),
{
    if name.len() > 0 {
        law_encoded_name_is_query_safe(name.drop_last());
        let c = name.last();
        let front = encode_text(name.drop_last());
        let tail = encode_char(c);
        if !url_safe(c) {
            lemma_percent_safe(vstd::utf8::encode_scalar(c as u32));
        }
        assert forall|i: int| 0 <= i < encode_text(name).len() implies query_safe(#[trigger] encode_text(name)[i]) by {
            if i < front.len() {
                assert(encode_text(name)[i] == front[i]);
            } else {
                assert(encode_text(name)[i] == tail[i - front.len()]);
            }
        }
    }
}

/// The value of a hexadecimal digit.
pub open spec fn hex_value(c: char) -> int {
    if '0' <= c && c <= '9' {
        c as int - 48
    } else if 'A' <= c && c <= 'F' {
        c as int - 55
    } else if 'a' <= c && c <= 'f' {
        c as int - 87
    } else {
        0
    }
}

/// The bytes a query value stands for, as a page's `decodeURIComponent` reads it: `%XX` is the
/// byte `XX`, and any other character the byte it is.
pub open spec fn percent_decode(t: Seq<char>) -> Seq<u8>
    decreases t.len(),
{
    if t.len() == 0 {
        Seq::empty()
    } else if t[0] == '%' && t.len() >= 3 {
        seq![(hex_value(t[1]) * 16 + hex_value(t[2])) as u8] + percent_decode(t.skip(3))
    } else {
        seq![t[0] as u8] + percent_decode(t.drop_first())
    }
}

proof fn lemma_percent_bytes_decode(bytes: Seq<u8>, rest: Seq<char>)
    ensures
        percent_decode(percent_bytes(bytes) + rest) == bytes + percent_decode(rest),
    decreases bytes.len(),
{
    if bytes.len() == 0 {
        assert(percent_bytes(bytes) + rest =~= rest);
        assert(bytes + percent_decode(rest) =~= percent_decode(rest));
    } else {
        let front = bytes.drop_last();
        let b = bytes.last();
        let hi = b / 16;
        let lo = b % 16;
        let tail = seq!['%', hex_digit(hi), hex_digit(lo)];
        lemma_percent_bytes_decode(front, tail + rest);
        assert(percent_bytes(bytes) + rest =~= percent_bytes(front) + (tail + rest));
        assert((tail + rest).skip(3) =~= rest);
        assert(hex_value(hex_digit(hi)) == hi);
        assert(hex_value(hex_digit(lo)) == lo);
        assert((hi * 16 + lo) as u8 == b);
        assert(front + (seq![b] + percent_decode(rest)) =~= bytes + percent_decode(rest));
    }
}

proof fn lemma_ascii_byte(c: char)
    requires
        url_safe(c),
    ensures
        vstd::utf8::encode_scalar(c as u32) == seq![c as u8],
{
    let v = c as u32;
    assert(v < 128);
    assert(v & 0x7F == v) by (bit_vector)
        requires
            v < 128,
    ;
}

proof fn lemma_encode_char_decode(c: char, rest: Seq<char>)
    ensures
        percent_decode(encode_char(c) + rest) == vstd::utf8::encode_scalar(c as u32) + percent_decode(rest),
{
    if url_safe(c) {
        lemma_ascii_byte(c);
        let t = seq![c] + rest;
        assert(t[0] == c);
        assert(t.drop_first() =~= rest);
    } else {
        lemma_percent_bytes_decode(vstd::utf8::encode_scalar(c as u32), rest);
    }
}

proof fn lemma_utf8_concat(a: Seq<char>, b: Seq<char>)
    ensures
        vstd::utf8::encode_utf8(a + b) == vstd::utf8::encode_utf8(a) + vstd::utf8::encode_utf8(b),
    decreases a.len(),
{
    if a.len() == 0 {
        assert(a + b =~= b);
        assert(vstd::utf8::encode_utf8(a) + vstd::utf8::encode_utf8(b) =~= vstd::utf8::encode_utf8(b));
    } else {
        lemma_utf8_concat(a.drop_first(), b);
        assert((a + b).drop_first() =~= a.drop_first() + b);
        assert((a + b)[0] == a[0]);
        assert(vstd::utf8::encode_scalar(a[0] as u32) + (vstd::utf8::encode_utf8(a.drop_first())
            + vstd::utf8::encode_utf8(b)) =~= vstd::utf8::encode_utf8(a) + vstd::utf8::encode_utf8(b));
    }
}

proof fn lemma_encode_text_decode(s: Seq<char>, rest: Seq<char>)
    ensures
        percent_decode(encode_text(s) + rest) == vstd::utf8::encode_utf8(s) + percent_decode(rest),
    decreases s.len(),
{
    if s.len() == 0 {
        assert(encode_text(s) + rest =~= rest);
        assert(vstd::utf8::encode_utf8(s) + percent_decode(rest) =~= percent_decode(rest));
    } else {
        let front = s.drop_last();
        let c = s.last();
        lemma_encode_char_decode(c, rest);
        lemma_encode_text_decode(front, encode_char(c) + rest);
        assert(encode_text(s) + rest =~= encode_text(front) + (encode_char(c) + rest));
        lemma_utf8_concat(front, seq![c]);
        assert(front + seq![c] =~= s);
        assert(seq![c].drop_first() =~= Seq::<char>::empty());
        assert(vstd::utf8::encode_utf8(Seq::<char>::empty()) =~= Seq::<u8>::empty());
        assert(vstd::utf8::encode_utf8(seq![c]) == vstd::utf8::encode_scalar(seq![c][0] as u32)
            + vstd::utf8::encode_utf8(seq![c].drop_first()));
        assert(vstd::utf8::encode_utf8(seq![c]) =~= vstd::utf8::encode_scalar(c as u32));
        assert(vstd::utf8::encode_utf8(front) + (vstd::utf8::encode_scalar(c as u32) + percent_decode(rest))
            =~= vstd::utf8::encode_utf8(s) + percent_decode(rest));
    }
}

/// What one call undoes: the page decoding an encoded name gets the name's UTF-8 bytes back.
pub proof fn law_encoded_name_decodes_to_name(name: Seq<char>)
    ensures
        percent_decode(encode_text(name)) == vstd::utf8::encode_utf8(name),
{
    lemma_encode_text_decode(name, Seq::empty());
    assert(encode_text(name) + Seq::<char>::empty() =~= encode_text(name));
    assert(vstd::utf8::encode_utf8(name) + percent_decode(Seq::<char>::empty()) =~= vstd::utf8::encode_utf8(name));
}

/// The sum of the counts.
pub open spec fn counted(t: Seq<(Seq<char>, nat)>) -> nat
    decreases t.len(),
{
    if t.len() == 0 {
        0
    } else {
        counted(t.drop_last()) + t.last().1
    }
}

proof fn lemma_counted_update(t: Seq<(Seq<char>, nat)>, j: int, e: (Seq<char>, nat))
    requires
        0 <= j < t.len(),
    ensures
        counted(t.update(j, e)) + t[j].1 == counted(t) + e.1,
    decreases t.len(),
{
    let u = t.update(j, e);
    if j == t.len() - 1 {
        assert(u.drop_last() =~= t.drop_last());
    } else {
        lemma_counted_update(t.drop_last(), j, e);
        assert(u.drop_last() =~= t.drop_last().update(j, e));
    }
}

/// The layer summary accounts for every layer: its counts add up to the number of layers.
pub proof fn law_summary_counts_every_layer(names: Seq<Seq<char>>)
    ensures
        counted(tally(names)) == names.len(),
    decreases names.len(),
{
    if names.len() > 0 {
        law_summary_counts_every_layer(names.drop_last());
        let t = tally(names.drop_last());
        let k = names.last();
        let j = crate::summary::name_index(t, k, 0);
        crate::summary::lemma_name_index(t, k, 0);
        if j < t.len() {
            lemma_counted_update(t, j, (k, t[j].1 + 1));
        } else {
            assert(t.push((k, 1)).drop_last() =~= t);
        }
    }
}

/// Waiting for the page is bounded: another question follows a pause only while tries are
/// left, every answer that is not the page's script being there is followed by a pause, a page
/// whose script answers is handed the call, and a view that is gone or a pause that fails stops
/// the wait.
pub proof fn law_waiting_is_bounded(attempt: u32, reply: PageReply)
    ensures
        after_pause_of(attempt, true) == ReadyStep::Ask ==> attempt + 1 < READY_TRIES,
        attempt + 1 >= READY_TRIES ==> after_pause_of(attempt, true) == ReadyStep::GiveUp,
        after_pause_of(attempt, false) == ReadyStep::Stop,
        (reply matches PageReply::Answered(t) && seq_contains(t@, "object"@)) <==> ready_step_of(
            reply,
        ) == ReadyStep::Deliver,
        reply is ViewGone <==> ready_step_of(reply) == ReadyStep::Stop,
{
}

} // verus!
