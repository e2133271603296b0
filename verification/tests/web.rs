//! The text the web player's page is handed.

use day_piece_lottie::web::{encode, js_string, load_script, start_page};

#[test]
fn start_page_carries_every_option() {
    let page = start_page("hello", false, true, &format!("{}", 1.5_f64));
    assert_eq!(page, "index.html?src=hello&loop=0&autoplay=1&speed=1.5");
}

#[test]
fn a_told_page_opens_empty() {
    assert_eq!(
        start_page("", true, true, &format!("{}", 1.0_f64)),
        "index.html?src=&loop=1&autoplay=1&speed=1"
    );
}

#[test]
fn a_name_with_a_path_keeps_its_slashes() {
    // The page resolves `../<src>.json`, so a slash is part of the path, not something to
    // escape; a space is not.
    assert_eq!(encode("lottie/pin jump"), "lottie/pin%20jump");
}

#[test]
fn a_js_string_cannot_be_escaped_out_of() {
    assert_eq!(js_string("it's"), r"'it\'s'");
    assert_eq!(js_string(r"a\b"), r"'a\\b'");
}

#[test]
fn a_missing_animation_reports_itself() {
    // No file could be read for the name: the page is told so rather than left blank.
    let call = load_script("nowhere", None, true, true, &format!("{}", 1.0_f64));
    assert!(
        call.contains("dayLottie.fail('no animation named nowhere')"),
        "{call}"
    );
}
