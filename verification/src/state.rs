//! `state.json`: the saved windows and their defaults, and the verdict on a file read back — a
//! corrupt or unknown-version file is set aside with a message for the Console.
use vstd::prelude::*;
use crate::files::{decimal, decimal_chars, path_join, path_join_spec};
use crate::text::{push_str, string_of};

verus! {

/// The only layout of `state.json` this version reads.
pub const VERSION: u64 = 1;

#[derive(Clone, Debug)]
pub struct XY {
    pub x: i32,
    pub y: i32,
}

#[derive(Clone, Debug)]
pub struct WH {
    pub w: i32,
    pub h: i32,
}

/// A torn-off menu: the labels leading to it from the main menu, and where it stands.
#[derive(Clone, Debug)]
pub struct TornMenu {
    pub path: Vec<String>,
    pub x: i32,
    pub y: i32,
}

#[derive(Clone, Debug)]
pub struct WinState {
    pub x: i32,
    pub y: i32,
    pub w: i32,
    pub h: i32,
    pub open: bool,
    pub path: String,
}

impl Default for WinState {
    fn default() -> (s: WinState)
        ensures
            s.x == 0 && s.y == 0 && s.w == 0 && s.h == 0,
            !s.open,
            s.path@ == Seq::<char>::empty(),
    {
        WinState { x: 0, y: 0, w: 0, h: 0, open: false, path: String::new() }
    }
}

#[derive(Clone, Debug)]
pub struct Windows {
    pub file_viewer: WinState,
    pub inspector: WinState,
    pub console: WinState,
    pub recycler: WinState,
    pub mandelbrot: WinState,
    pub shell: WinState,
    pub concurrence: WinState,
    pub librarian: WinState,
}

/// A window's saved frame and whether it is open, with no folder recorded.
pub open spec fn frame_is(s: WinState, x: int, y: int, w: int, h: int, open: bool) -> bool {
    s.x == x && s.y == y && s.w == w && s.h == h && s.open == open && s.path@ == Seq::<char>::empty()
}

fn frame(x: i32, y: i32, w: i32, h: i32, open: bool) -> (s: WinState)
    ensures
        frame_is(s, x as int, y as int, w as int, h as int, open),
{
    WinState { x, y, w, h, open, path: String::new() }
}

impl Default for Windows {
    /// Where each window first appears: only the File Viewer is open.
    fn default() -> (d: Windows)
        ensures
            frame_is(d.file_viewer, 120, 40, 640, 480, true),
            frame_is(d.inspector, 780, 40, 272, 400, false),
            frame_is(d.console, 200, 500, 480, 240, false),
            frame_is(d.recycler, 300, 300, 320, 240, false),
            frame_is(d.mandelbrot, 200, 80, 520, 528, false),
            frame_is(d.shell, 160, 120, 591, 374, false),
            frame_is(d.concurrence, 140, 60, 560, 440, false),
            frame_is(d.librarian, 240, 100, 560, 420, false),
    {
        Windows {
            file_viewer: frame(120, 40, 640, 480, true),
            inspector: frame(780, 40, 272, 400, false),
            console: frame(200, 500, 480, 240, false),
            recycler: frame(300, 300, 320, 240, false),
            mandelbrot: frame(200, 80, 520, 528, false),
            shell: frame(160, 120, 591, 374, false),
            concurrence: frame(140, 60, 560, 440, false),
            librarian: frame(240, 100, 560, 420, false),
        }
    }
}

/// `state.json` in the configuration folder `dir`.
pub fn state_path(dir: &str) -> (p: String)
    ensures
        exists|sep: char| (sep == '/' || sep == '\\') && p@ == #[trigger] path_join_spec(dir@, "state.json"@, sep),
{
    path_join(dir, "state.json")
}

// ---- reading it back --------------------------------------------------------------------------

#[verifier::external_type_specification]
#[verifier::external_body]
pub struct ExJsonValue(serde_json::Value);

/// What `serde_json::from_str::<Value>` says of `text`: `None` when it is JSON, else the text of
/// the error it reports (which names the line and column).
pub uninterp spec fn json_parse_error(text: Seq<char>) -> Option<Seq<char>>;

/// The `version` member of the JSON document `text`, as `serde_json::from_str::<Value>` reads it
/// and `Value::get` then `Value::as_u64` give it: `None` where there is no such member or it is
/// not an unsigned integer.
pub uninterp spec fn json_version(text: Seq<char>) -> Option<u64>;

/// `serde_json::from_str::<serde_json::Value>`, with its error turned into its message; of the
/// document read, the logic uses only its `version` member, which `Value::get` and
/// `Value::as_u64` pick out of it. Claimed: success exactly where the text is JSON, the error
/// message otherwise, and the version as `json_version` names it.
#[verifier::external_body]
fn parse_json(text: &str) -> (r: Result<(serde_json::Value, Option<u64>), String>)
    ensures
        r is Ok <==> json_parse_error(text@) is None,
        r matches Err(e) ==> json_parse_error(text@) == Some(e@),
        r matches Ok((_, ver)) ==> ver == json_version(text@),
{
    let v = serde_json::from_str::<serde_json::Value>(text).map_err(|e| e.to_string())?;
    let ver = v.get("version").and_then(serde_json::Value::as_u64);
    Ok((v, ver))
}

/// How `{:?}` writes an `Option<u64>`.
pub open spec fn debug_option(v: Option<u64>) -> Seq<char> {
    match v {
        Some(n) => "Some("@ + decimal(n as nat) + ")"@,
        None => "None"@,
    }
}

/// The verdict on the version a file declares: only this version is read.
pub fn version_verdict(found: Option<u64>) -> (r: Result<(), String>)
    ensures
        r is Ok <==> found == Some(VERSION),
        r matches Err(why) ==> why@ == "unknown state version "@ + debug_option(found),
{
    match found {
        Some(n) => {
            if n == VERSION {
                return Ok(());
            }
            let mut why = String::from_str("unknown state version ");
            push_str(&mut why, "Some(");
            let d = decimal_chars(n);
            push_str(&mut why, string_of(d.as_slice()).as_str());
            push_str(&mut why, ")");
            proof {
                reveal_strlit("Some(");
                reveal_strlit(")");
                reveal_strlit("unknown state version ");
                assert(why@ =~= "unknown state version "@ + debug_option(found));
            }
            Err(why)
        },
        None => {
            let mut why = String::from_str("unknown state version ");
            push_str(&mut why, "None");
            Err(why)
        },
    }
}

/// What reading `state.json`'s text comes to: the JSON document, or why it cannot be used —
/// not JSON at all (with the parser's message), or a version this one does not read.
pub fn state_verdict(text: &str) -> (r: Result<serde_json::Value, String>)
    ensures
        json_parse_error(text@) matches Some(e) ==> (r matches Err(why) && why@ == "invalid JSON ("@ + e + ")"@),
        json_parse_error(text@) is None ==> (r is Ok <==> json_version(text@) == Some(VERSION)),
        json_parse_error(text@) is None ==> (r matches Err(why) ==> why@ == "unknown state version "@
            + debug_option(json_version(text@))),
{
    match parse_json(text) {
        Err(e) => {
            let mut why = String::from_str("invalid JSON (");
            push_str(&mut why, e.as_str());
            push_str(&mut why, ")");
            Err(why)
        },
        Ok((v, found)) => {
            match version_verdict(found) {
                Ok(()) => Ok(v),
                Err(why) => Err(why),
            }
        },
    }
}

/// The Console's message about a file set aside as `state.json.bad`.
pub fn bad_message(path: &str, why: &str) -> (m: String)
    ensures
        m@ == path@ + ": "@ + why@ + "; renamed to state.json.bad and using defaults"@,
{
    let mut m = String::from_str(path);
    push_str(&mut m, ": ");
    push_str(&mut m, why);
    push_str(&mut m, "; renamed to state.json.bad and using defaults");
    m
}

} // verus!
