//! The text the web player's page is handed: its query string, the JavaScript calls evaluated in
//! it, and the decision of when to stop waiting for it.

use vstd::prelude::*;
use vstd::utf8::{
    encode_scalar, has_width_1_encoding, has_width_2_encoding, has_width_3_encoding,
    last_continuation_byte, leading_byte_width_1, leading_byte_width_2, leading_byte_width_3,
    leading_byte_width_4, second_last_continuation_byte, third_last_continuation_byte,
};

use crate::text::{chars_of, push_str, string_of};

verus! {

/// How many times to ask the page whether its script is there before giving up on it.
pub const READY_TRIES: u32 = 60;

/// How long to pause between two of those questions, in milliseconds.
pub const READY_PAUSE_MS: u64 = 50;

/// A character a name keeps as it is in a query value.
pub open spec fn url_safe(c: char) -> bool {
    ||| 'A' <= c && c <= 'Z'
    ||| 'a' <= c && c <= 'z'
    ||| '0' <= c && c <= '9'
    ||| c == '-' || c == '_' || c == '.' || c == '~' || c == '/'
}

/// The upper-case hexadecimal digit for `d` (below 16).
pub open spec fn hex_digit(d: u8) -> char {
    if d < 10 {
        (d as int + 48) as char
    } else {
        (d as int + 55) as char
    }
}

/// `%XX` for each byte.
pub open spec fn percent_bytes(bytes: Seq<u8>) -> Seq<char>
    decreases bytes.len(),
{
    if bytes.len() == 0 {
        Seq::empty()
    } else {
        percent_bytes(bytes.drop_last()) + seq![
            '%',
            hex_digit(bytes.last() / 16),
            hex_digit(bytes.last() % 16),
        ]
    }
}

/// One character as it stands in a query value.
pub open spec fn encode_char(c: char) -> Seq<char> {
    if url_safe(c) {
        seq![c]
    } else {
        percent_bytes(encode_scalar(c as u32))
    }
}

/// A name as it stands in a query value: the safe characters as they are, and every other one
/// as the `%XX` escapes of its UTF-8 bytes.
pub open spec fn encode_text(s: Seq<char>) -> Seq<char>
    decreases s.len(),
{
    if s.len() == 0 {
        Seq::empty()
    } else {
        encode_text(s.drop_last()) + encode_char(s.last())
    }
}

/// One character as it stands inside a single-quoted JavaScript string.
pub open spec fn js_escape_char(c: char) -> Seq<char> {
    if c == '\'' || c == '\\' {
        seq!['\\', c]
    } else if c == '\n' {
        seq!['\\', 'n']
    } else if c == '\r' {
        seq!['\\', 'r']
    } else {
        seq![c]
    }
}

pub open spec fn js_escape(s: Seq<char>) -> Seq<char>
    decreases s.len(),
{
    if s.len() == 0 {
        Seq::empty()
    } else {
        js_escape(s.drop_last()) + js_escape_char(s.last())
    }
}

/// A single-quoted JavaScript string literal for `s`.
pub open spec fn js_literal(s: Seq<char>) -> Seq<char> {
    seq!['\''] + js_escape(s) + seq!['\'']
}

pub open spec fn bit_text(b: bool) -> Seq<char> {
    if b {
        seq!['1']
    } else {
        seq!['0']
    }
}

pub open spec fn bool_text(b: bool) -> Seq<char> {
    if b {
        "true"@
    } else {
        "false"@
    }
}

/// The page's query string.
pub open spec fn start_page_text(name: Seq<char>, looping: bool, autoplay: bool, speed: Seq<char>) -> Seq<char> {
    "index.html"@ + "?src="@ + encode_text(name) + "&loop="@ + bit_text(looping) + "&autoplay="@
        + bit_text(autoplay) + "&speed="@ + speed
}

pub open spec fn ends_with_json(name: Seq<char>) -> bool {
    name.len() >= 5 && name.skip(name.len() - 5) == ".json"@
}

/// The file an animation name stands for: the name itself when it already ends in `.json`.
pub open spec fn animation_file_text(name: Seq<char>) -> Seq<char> {
    if ends_with_json(name) {
        name
    } else {
        name + ".json"@
    }
}

/// The call that puts an animation on the page, or reports in the page that there is none.
pub open spec fn load_script_text(
    name: Seq<char>,
    json: Option<Seq<char>>,
    looping: bool,
    autoplay: bool,
    speed: Seq<char>,
) -> Seq<char> {
    match json {
        Some(text) => "window.dayLottie&&dayLottie.loadData("@ + text + ","@ + bool_text(looping)
            + ","@ + bool_text(autoplay) + ","@ + speed + ")"@,
        None => "window.dayLottie&&dayLottie.fail("@ + js_literal("no animation named "@ + name)
            + ")"@,
    }
}

/// `needle` occurs in `hay`.
pub open spec fn seq_contains(hay: Seq<char>, needle: Seq<char>) -> bool {
    exists|i: int| 0 <= i <= hay.len() - needle.len() && #[trigger] hay.subrange(i, i + needle.len()) == needle
}

/// The bytes of a character in UTF-8.
fn utf8_of_char(c: char) -> (r: Vec<u8>)
    ensures
        r@ == encode_scalar(c as u32),
{
    let v = c as u32;
    let mut r: Vec<u8> = Vec::new();
    if v <= 0x7F {
        r.push((v & 0x7F) as u8);
        assert(r@ =~= seq![leading_byte_width_1(v)]);
    } else if v <= 0x7FF {
        r.push(0xC0 | ((v >> 6) & 0x1F) as u8);
        r.push(0x80 | (v & 0x3F) as u8);
        assert(r@ =~= seq![leading_byte_width_2(v), last_continuation_byte(v)]);
    } else if v <= 0xFFFF && !(0xD800 <= v && v <= 0xDFFF) {
        r.push(0xE0 | ((v >> 12) & 0x0F) as u8);
        r.push(0x80 | ((v >> 6) & 0x3F) as u8);
        r.push(0x80 | (v & 0x3F) as u8);
        assert(r@ =~= seq![leading_byte_width_3(v), second_last_continuation_byte(v), last_continuation_byte(v)]);
    } else {
        r.push(0xF0 | ((v >> 18) & 0x7) as u8);
        r.push(0x80 | ((v >> 12) & 0x3F) as u8);
        r.push(0x80 | ((v >> 6) & 0x3F) as u8);
        r.push(0x80 | (v & 0x3F) as u8);
        assert(r@ =~= seq![leading_byte_width_4(v), third_last_continuation_byte(v), second_last_continuation_byte(v), last_continuation_byte(v)]);
    }
    r
}

fn hex_char(d: u8) -> (r: char)
    requires
        d < 16,
    ensures
        r == hex_digit(d),
{
    if d < 10 {
        (d + 48) as char
    } else {
        (d + 55) as char
    }
}

/// Percent-encode what a Lottie name can hold. Names are file paths under `resource/assets/`,
/// so this is the small set that would otherwise end the value or open a second parameter, plus
/// the space that a hand-written name occasionally carries.
pub fn encode(name: &str) -> (r: String)
    ensures
        r@ == encode_text(name@),
{
    let cs = chars_of(name);
    let mut out: Vec<char> = Vec::new();
    let mut i: usize = 0;
    while i < cs.len()
        invariant
            i <= cs.len(),
            cs@ == name@,
            out@ == encode_text(cs@.take(i as int)),
        decreases cs.len() - i,
    {
        let c = cs[i];
        let ghost before = out@;
        if ('A' <= c && c <= 'Z') || ('a' <= c && c <= 'z') || ('0' <= c && c <= '9') || c == '-'
            || c == '_' || c == '.' || c == '~' || c == '/' {
            out.push(c);
        } else {
            let bytes = utf8_of_char(c);
            let mut j: usize = 0;
            while j < bytes.len()
                invariant
                    j <= bytes.len(),
                    out@ == before + percent_bytes(bytes@.take(j as int)),
                decreases bytes.len() - j,
            {
                let b = bytes[j];
                out.push('%');
                out.push(hex_char(b / 16));
                out.push(hex_char(b % 16));
                assert(bytes@.take(j + 1).drop_last() =~= bytes@.take(j as int));
                assert(out@ =~= before + percent_bytes(bytes@.take(j + 1)));
                j = j + 1;
            }
            assert(bytes@.take(bytes.len() as int) =~= bytes@);
        }
        assert(cs@.take(i + 1).drop_last() =~= cs@.take(i as int));
        assert(out@ =~= before + encode_char(c));
        i = i + 1;
    }
    assert(cs@.take(cs.len() as int) =~= cs@);
    string_of(out.as_slice())
}

/// A JavaScript string literal for `s`, for the evaluated `dayLottie.…` calls.
pub fn js_string(s: &str) -> (r: String)
    ensures
        r@ == js_literal(s@),
{
    let mut out: Vec<char> = Vec::new();
    push_js_string(&mut out, s);
    string_of(out.as_slice())
}

fn push_js_string(out: &mut Vec<char>, s: &str)
    ensures
        final(out)@ == old(out)@ + js_literal(s@),
{
    let ghost start = out@;
    let cs = chars_of(s);
    out.push('\'');
    let mut i: usize = 0;
    while i < cs.len()
        invariant
            i <= cs.len(),
            cs@ == s@,
            out@ == start + seq!['\''] + js_escape(cs@.take(i as int)),
        decreases cs.len() - i,
    {
        let c = cs[i];
        let ghost before = out@;
        if c == '\'' || c == '\\' {
            out.push('\\');
            out.push(c);
        } else if c == '\n' {
            out.push('\\');
            out.push('n');
        } else if c == '\r' {
            out.push('\\');
            out.push('r');
        } else {
            out.push(c);
        }
        assert(out@ =~= before + js_escape_char(c));
        assert(cs@.take(i + 1).drop_last() =~= cs@.take(i as int));
        i = i + 1;
    }
    assert(cs@.take(cs.len() as int) =~= cs@);
    out.push('\'');
    assert(out@ =~= start + js_literal(s@));
}

/// The page's query string: what a backend that cannot evaluate JavaScript has to be told up
/// front. An empty `name` opens the page with an empty stage. `speed` is the playback rate as
/// the caller prints it.
pub fn start_page(name: &str, looping: bool, autoplay: bool, speed: &str) -> (r: String)
    ensures
        r@ == start_page_text(name@, looping, autoplay, speed@),
{
    let mut out: Vec<char> = Vec::new();
    // The page within the crate's staged site that plays an animation.
    push_str(&mut out, "index.html");
    push_str(&mut out, "?src=");
    let enc = encode(name);
    push_str(&mut out, enc.as_str());
    push_str(&mut out, "&loop=");
    out.push(if looping { '1' } else { '0' });
    push_str(&mut out, "&autoplay=");
    out.push(if autoplay { '1' } else { '0' });
    push_str(&mut out, "&speed=");
    push_str(&mut out, speed);
    assert(out@ =~= start_page_text(name@, looping, autoplay, speed@));
    string_of(out.as_slice())
}

/// The bundled file an animation name stands for (`"hello"` is `hello.json`; a path is allowed).
pub fn animation_file(name: &str) -> (r: String)
    ensures
        r@ == animation_file_text(name@),
{
    let cs = chars_of(name);
    let n = cs.len();
    let ghost suffix = ".json"@;
    proof {
        reveal_strlit(".json");
    }
    let ends = n >= 5 && cs[n - 5] == '.' && cs[n - 4] == 'j' && cs[n - 3] == 's' && cs[n - 2] == 'o'
        && cs[n - 1] == 'n';
    proof {
        if n >= 5 {
            let tail = cs@.skip(n - 5);
            if ends {
                assert(tail =~= suffix);
            } else {
                assert(tail != suffix) by {
                    if tail == suffix {
                        assert(tail[0] == cs@[n - 5]);
                        assert(tail[1] == cs@[n - 4]);
                        assert(tail[2] == cs@[n - 3]);
                        assert(tail[3] == cs@[n - 2]);
                        assert(tail[4] == cs@[n - 1]);
                    }
                }
            }
        }
    }
    let mut out: Vec<char> = Vec::new();
    push_str(&mut out, name);
    if !ends {
        push_str(&mut out, ".json");
    }
    assert(out@ =~= animation_file_text(name@));
    string_of(out.as_slice())
}

/// The call that puts an animation on the page: its text where the file could be read, and the
/// failure in the page's own error box where it could not, because a player that quietly shows
/// nothing looks exactly like one that is between frames. The text goes in as a JavaScript object
/// literal, which is what JSON is; `speed` is the playback rate as the caller prints it.
pub fn load_script(name: &str, json: Option<&str>, looping: bool, autoplay: bool, speed: &str) -> (r: String)
    ensures
        r@ == load_script_text(
            name@,
            match json {
                Some(t) => Some(t@),
                None => None,
            },
            looping,
            autoplay,
            speed@,
        ),
{
    let mut out: Vec<char> = Vec::new();
    match json {
        Some(text) => {
            push_str(&mut out, "window.dayLottie&&dayLottie.loadData(");
            push_str(&mut out, text);
            push_str(&mut out, ",");
            push_str(&mut out, if looping { "true" } else { "false" });
            push_str(&mut out, ",");
            push_str(&mut out, if autoplay { "true" } else { "false" });
            push_str(&mut out, ",");
            push_str(&mut out, speed);
            push_str(&mut out, ")");
        },
        None => {
            push_str(&mut out, "window.dayLottie&&dayLottie.fail(");
            let mut message: Vec<char> = Vec::new();
            push_str(&mut message, "no animation named ");
            push_str(&mut message, name);
            let message = string_of(message.as_slice());
            push_js_string(&mut out, message.as_str());
            push_str(&mut out, ")");
        },
    }
    assert(out@ =~= load_script_text(
        name@,
        match json {
            Some(t) => Some(t@),
            None => None,
        },
        looping,
        autoplay,
        speed@,
    ));
    string_of(out.as_slice())
}

/// Whether `needle` occurs in `hay`.
pub fn contains_text(hay: &str, needle: &str) -> (r: bool)
    ensures
        r == seq_contains(hay@, needle@),
{
    let h = chars_of(hay);
    let n = chars_of(needle);
    if n.len() > h.len() {
        return false;
    }
    let last = h.len() - n.len();
    let mut i: usize = 0;
    while i <= last
        invariant
            h@ == hay@,
            n@ == needle@,
            last == h.len() - n.len(),
            i <= last + 1,
            forall|k: int| 0 <= k < i ==> #[trigger] h@.subrange(k, k + n@.len()) != n@,
        decreases last + 1 - i,
    {
        let mut j: usize = 0;
        while j < n.len() && h[i + j] == n[j]
            invariant
                j <= n.len(),
                i <= last,
                last == h.len() - n.len(),
                h@.subrange(i as int, i + j) =~= n@.take(j as int),
            decreases n.len() - j,
        {
            j = j + 1;
        }
        if j == n.len() {
            assert(n@.take(j as int) =~= n@);
            return true;
        }
        assert(h@.subrange(i as int, i + n@.len()) != n@) by {
            assert(h@.subrange(i as int, i + n@.len())[j as int] == h@[i + j]);
        }
        i = i + 1;
    }
    false
}

/// What the page answered when asked whether its script is there.
pub enum PageReply {
    /// The page evaluated the question and answered with this text.
    Answered(String),
    /// The view is gone: navigation replaced it.
    ViewGone,
    /// The question could not be evaluated this time.
    Failed,
}

/// What to do after an answer, or after the pause that follows it.
#[derive(Clone, Copy, Debug, PartialEq, Eq, Structural)]
pub enum ReadyStep {
    /// The page's script is there: hand it the call.
    Deliver,
    /// Stop without a word: the view is gone (whatever is on screen now loads its own
    /// animation), or the pause could not be waited out.
    Stop,
    /// Pause before asking again.
    Wait,
    /// The pause is over: ask again.
    Ask,
    /// The page never answered within the tries: nothing is playing, which is worth a warning.
    GiveUp,
}

/// What an answer calls for: the page is ready when `typeof window.dayLottie` answers `object`.
pub open spec fn ready_step_of(reply: PageReply) -> ReadyStep {
    match reply {
        PageReply::Answered(text) => if seq_contains(text@, "object"@) {
            ReadyStep::Deliver
        } else {
            ReadyStep::Wait
        },
        PageReply::ViewGone => ReadyStep::Stop,
        PageReply::Failed => ReadyStep::Wait,
    }
}

/// What follows the pause after try number `attempt` (counting from 0): stop if the pause failed,
/// ask again while tries are left, and give up after the last one.
pub open spec fn after_pause_of(attempt: u32, paused: bool) -> ReadyStep {
    if !paused {
        ReadyStep::Stop
    } else if attempt + 1 < READY_TRIES {
        ReadyStep::Ask
    } else {
        ReadyStep::GiveUp
    }
}

/// What to do after the page's answer.
pub fn ready_step(reply: &PageReply) -> (r: ReadyStep)
    ensures
        r == ready_step_of(*reply),
{
    match reply {
        PageReply::Answered(text) => {
            if contains_text(text.as_str(), "object") {
                ReadyStep::Deliver
            } else {
                ReadyStep::Wait
            }
        },
        PageReply::ViewGone => ReadyStep::Stop,
        PageReply::Failed => ReadyStep::Wait,
    }
}

/// What to do once the pause after try number `attempt` is over (`paused`) or has failed.
pub fn after_pause(attempt: u32, paused: bool) -> (r: ReadyStep)
    ensures
        r == after_pause_of(attempt, paused),
{
    if !paused {
        ReadyStep::Stop
    } else if attempt < READY_TRIES - 1 {
        ReadyStep::Ask
    } else {
        ReadyStep::GiveUp
    }
}

} // verus!
