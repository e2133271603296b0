//! The query string, the evaluated calls, and the wait for the page's script.

use day_piece_lottie::web::{
    after_pause, animation_file, contains_text, encode, js_string, load_script, ready_step,
    PageReply, ReadyStep, READY_TRIES,
};

#[test]
fn encoding_escapes_what_could_end_the_value() {
    assert_eq!(encode("a&b=c?d#e"), "a%26b%3Dc%3Fd%23e");
    assert_eq!(encode("Az09-_.~/"), "Az09-_.~/");
    assert_eq!(encode("\u{e9}t\u{e9}"), "%C3%A9t%C3%A9");
    assert_eq!(encode("\u{20ac}"), "%E2%82%AC");
    assert_eq!(encode("\u{1f600}"), "%F0%9F%98%80");
    assert_eq!(encode(""), "");
    for c in encode("a b&c=d#\u{e9}?+%").chars() {
        assert!(c.is_ascii_alphanumeric() || "-_.~/%".contains(c), "{c}");
    }
}

#[test]
fn js_strings_escape_line_breaks() {
    assert_eq!(js_string("a\nb"), r"'a\nb'");
    assert_eq!(js_string("a\rb"), r"'a\rb'");
    assert_eq!(js_string(""), "''");
    assert_eq!(js_string("\u{e9}\""), "'\u{e9}\"'");
}

#[test]
fn animation_files_end_in_json_once() {
    assert_eq!(animation_file("hello"), "hello.json");
    assert_eq!(animation_file("hello.json"), "hello.json");
    assert_eq!(animation_file("lottie/pin-jump"), "lottie/pin-jump.json");
    assert_eq!(animation_file("json"), "json.json");
    assert_eq!(animation_file(".json"), ".json");
}

#[test]
fn a_readable_animation_is_loaded_as_an_object_literal() {
    assert_eq!(
        load_script("hello", Some(r#"{"v":"5.9.0"}"#), true, false, "1.5"),
        r#"window.dayLottie&&dayLottie.loadData({"v":"5.9.0"},true,false,1.5)"#
    );
    assert_eq!(
        load_script("it's", None, true, true, "1"),
        r"window.dayLottie&&dayLottie.fail('no animation named it\'s')"
    );
}

#[test]
fn text_search_finds_substrings() {
    assert!(contains_text("object", "object"));
    assert!(contains_text("\"object\"", "object"));
    assert!(!contains_text("undefined", "object"));
    assert!(!contains_text("obj", "object"));
    assert!(contains_text("anything", ""));
}

#[test]
fn the_page_is_waited_for_a_bounded_number_of_times() {
    let answered = |t: &str| PageReply::Answered(t.to_string());
    assert_eq!(ready_step(&answered("object")), ReadyStep::Deliver);
    assert_eq!(ready_step(&answered("undefined")), ReadyStep::Wait);
    assert_eq!(ready_step(&PageReply::Failed), ReadyStep::Wait);
    assert_eq!(ready_step(&PageReply::ViewGone), ReadyStep::Stop);
    assert_eq!(after_pause(0, true), ReadyStep::Ask);
    assert_eq!(after_pause(READY_TRIES - 2, true), ReadyStep::Ask);
    // The last try still pauses; only after that pause does the wait give up.
    assert_eq!(after_pause(READY_TRIES - 1, true), ReadyStep::GiveUp);
    assert_eq!(after_pause(READY_TRIES - 1, false), ReadyStep::Stop);
    assert_eq!(after_pause(3, false), ReadyStep::Stop);
}

#[test]
fn an_encoded_name_decodes_to_the_name() {
    fn decode(t: &str) -> Vec<u8> {
        let b = t.as_bytes();
        let mut out = Vec::new();
        let mut i = 0;
        while i < b.len() {
            if b[i] == b'%' {
                out.push(u8::from_str_radix(&t[i + 1..i + 3], 16).unwrap());
                i += 3;
            } else {
                out.push(b[i]);
                i += 1;
            }
        }
        out
    }
    for name in ["lottie/pin jump", "\u{e9}t\u{e9} & co", "a=b?c#d", "\u{1f600}%"] {
        assert_eq!(decode(&encode(name)), name.as_bytes(), "{name}");
    }
}

#[test]
fn a_js_string_holds_no_raw_line_break() {
    let lit = js_string("a\nb\rc'd\\");
    assert!(!lit.contains('\n') && !lit.contains('\r'));
    assert_eq!(lit, r"'a\nb\rc\'d\\'");
}
