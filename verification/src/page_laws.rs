//! What the web player's page is told, character by character: each flag lands in its own
//! parameter and nowhere else.

use vstd::prelude::*;

use crate::web::{animation_file_text, encode_text, js_escape, load_script_text, start_page_text};

verus! {

/// The page's query string names the animation by its encoded name, then says `1` after
/// `&loop=` exactly when the animation loops, `1` after `&autoplay=` exactly when it starts on
/// its own (whatever the loop flag says), and gives the speed last, as it was written.
pub proof fn law_start_page_flags(name: Seq<char>, looping: bool, autoplay: bool, speed: Seq<char>)
    ensures
        start_page_text(name, looping, autoplay, speed) == "index.html?src="@ + encode_text(name)
            + "&loop="@ + (if looping {
            "1"@
        } else {
            "0"@
        }) + "&autoplay="@ + (if autoplay {
            "1"@
        } else {
            "0"@
        }) + "&speed="@ + speed,
{
    reveal_strlit("index.html");
    reveal_strlit("?src=");
    reveal_strlit("index.html?src=");
    reveal_strlit("&loop=");
    reveal_strlit("&autoplay=");
    reveal_strlit("&speed=");
    reveal_strlit("1");
    reveal_strlit("0");
    assert(start_page_text(name, looping, autoplay, speed) =~= "index.html?src="@ + encode_text(
        name,
    ) + "&loop="@ + (if looping {
        "1"@
    } else {
        "0"@
    }) + "&autoplay="@ + (if autoplay {
        "1"@
    } else {
        "0"@
    }) + "&speed="@ + speed);
}

/// Where the document is there, the page is handed it whole as the first argument of
/// `loadData`, then `true` or `false` for looping, then `true` or `false` for autoplay, each
/// from its own flag alone, then the speed as it was written; where it is not, the page is
/// told that no animation has the name, in a quoted and escaped string.
pub proof fn law_load_script_arguments(
    name: Seq<char>,
    json: Option<Seq<char>>,
    looping: bool,
    autoplay: bool,
    speed: Seq<char>,
)
    ensures
        json matches Some(text) ==> load_script_text(name, json, looping, autoplay, speed)
            == "window.dayLottie&&dayLottie.loadData("@ + text + ","@ + (if looping {
            "true"@
        } else {
            "false"@
        }) + ","@ + (if autoplay {
            "true"@
        } else {
            "false"@
        }) + ","@ + speed + ")"@,
        json is None ==> load_script_text(name, json, looping, autoplay, speed)
            == "window.dayLottie&&dayLottie.fail('"@ + js_escape("no animation named "@ + name)
            + "')"@,
{
    reveal_strlit("window.dayLottie&&dayLottie.loadData(");
    reveal_strlit("window.dayLottie&&dayLottie.fail(");
    reveal_strlit("window.dayLottie&&dayLottie.fail('");
    reveal_strlit(",");
    reveal_strlit(")");
    reveal_strlit("')");
    reveal_strlit("true");
    reveal_strlit("false");
    match json {
        Some(text) => {
            assert(load_script_text(name, json, looping, autoplay, speed)
                =~= "window.dayLottie&&dayLottie.loadData("@ + text + ","@ + (if looping {
                "true"@
            } else {
                "false"@
            }) + ","@ + (if autoplay {
                "true"@
            } else {
                "false"@
            }) + ","@ + speed + ")"@);
        },
        None => {
            assert(load_script_text(name, json, looping, autoplay, speed)
                =~= "window.dayLottie&&dayLottie.fail('"@ + js_escape("no animation named "@ + name)
                + "')"@);
        },
    }
}

/// The file an animation is read from starts with its name and ends in `.json`, adding at
/// most that suffix, and nothing to a name that already has it; so asking again for the
/// file's own name gives the same file.
pub proof fn law_animation_file_is_json(name: Seq<char>)
    ensures
        animation_file_text(name).len() >= 5,
        animation_file_text(name).skip(animation_file_text(name).len() - 5) == ".json"@,
        animation_file_text(name).take(name.len() as int) == name,
        animation_file_text(name).len() <= name.len() + 5,
        name.len() >= 5 && name.skip(name.len() - 5) == ".json"@ ==> animation_file_text(name)
            == name,
        animation_file_text(animation_file_text(name)) == animation_file_text(name),
{
    reveal_strlit(".json");
    let f = animation_file_text(name);
    if !(name.len() >= 5 && name.skip(name.len() - 5) == ".json"@) {
        assert(f.skip(f.len() - 5) =~= ".json"@);
        assert(f.take(name.len() as int) =~= name);
    } else {
        assert(f.take(name.len() as int) =~= name);
    }
}

} // verus!
