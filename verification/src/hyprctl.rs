//! The `hyprctl` shim: which of Velo-shell's `hyprctl` invocations are
//! answered from `velo-de`'s IPC socket, the JSON those answers are
//! written in, and the exit-0 fallback for everything else.

use vstd::prelude::*;

use crate::protocol::{SpaceInfo, WindowInfo};
use crate::text::{decimal, digits, parse_i32, parsed_i32, push_decimal, push_digits, same_text};
use crate::theme::hex_char;

verus! {

/// A `hyprctl` invocation that is answered from `velo-de`'s IPC socket.
#[derive(Debug, Clone, Copy, PartialEq, Eq, Structural)]
pub enum HyprQuery {
    /// `hyprctl -j workspaces`
    Workspaces,
    /// `hyprctl -j activeworkspace`
    ActiveWorkspace,
    /// `hyprctl -j activewindow`
    ActiveWindow,
    /// `hyprctl dispatch workspace <id>`
    DispatchWorkspace(i32),
}

/// The query that the arguments `args` (program name excluded) ask for,
/// or `None` when they are not one that the shim answers.
pub open spec fn query_of(args: Seq<Seq<char>>) -> Option<HyprQuery> {
    if args.len() == 2 && args[0] == "-j"@ {
        if args[1] == "workspaces"@ {
            Some(HyprQuery::Workspaces)
        } else if args[1] == "activeworkspace"@ {
            Some(HyprQuery::ActiveWorkspace)
        } else if args[1] == "activewindow"@ {
            Some(HyprQuery::ActiveWindow)
        } else {
            None
        }
    } else if args.len() == 3 && args[0] == "dispatch"@ && args[1] == "workspace"@ {
        match parsed_i32(args[2]) {
            Some(id) => Some(HyprQuery::DispatchWorkspace(id)),
            None => None,
        }
    } else {
        None
    }
}

/// The output for arguments that get no answer from `velo-de`: `-j`
/// queries get an empty JSON value (`[]` for the list-shaped ones),
/// everything else gets nothing.
pub open spec fn fallback_text(args: Seq<Seq<char>>) -> Seq<char> {
    if args.len() > 0 && args[0] == "-j"@ {
        if args.len() > 1 && (args[1] == "workspaces"@ || args[1] == "clients"@ || args[1] == "monitors"@
            || args[1] == "layers"@) {
            "[]"@
        } else {
            "{}"@
        }
    } else {
        Seq::empty()
    }
}

/// The views of the strings in `v`.
pub open spec fn arg_views(v: Seq<String>) -> Seq<Seq<char>> {
    v.map_values(|a: String| a@)
}

/// What serde_json writes for the character `c` inside a string literal.
pub open spec fn json_escape(c: char) -> Seq<char> {
    if c == '"' {
        seq!['\\', '"']
    } else if c == '\\' {
        seq!['\\', '\\']
    } else if c == '\u{8}' {
        seq!['\\', 'b']
    } else if c == '\t' {
        seq!['\\', 't']
    } else if c == '\n' {
        seq!['\\', 'n']
    } else if c == '\u{c}' {
        seq!['\\', 'f']
    } else if c == '\r' {
        seq!['\\', 'r']
    } else if (c as u32) < 0x20 {
        seq!['\\', 'u', '0', '0', hex_char((c as int) / 16), hex_char((c as int) % 16)]
    } else {
        seq![c]
    }
}

/// The characters of `s`, each escaped as [`json_escape`] says.
pub open spec fn json_escaped(s: Seq<char>) -> Seq<char>
    decreases s.len(),
{
    if s.len() == 0 {
        Seq::empty()
    } else {
        json_escaped(s.drop_last()) + json_escape(s.last())
    }
}

/// The JSON string literal for `s`.
pub open spec fn json_quoted(s: Seq<char>) -> Seq<char> {
    seq!['"'] + json_escaped(s) + seq!['"']
}

/// `{"id":<id>,"windows":<windows>}` for one Space.
pub open spec fn space_json(sp: SpaceInfo) -> Seq<char> {
    "{\"id\":"@ + decimal(sp.id as int) + ",\"windows\":"@ + digits(sp.windows as nat) + "}"@
}

/// The Spaces' objects, separated by commas.
pub open spec fn spaces_items(s: Seq<SpaceInfo>) -> Seq<char>
    decreases s.len(),
{
    if s.len() == 0 {
        Seq::empty()
    } else if s.len() == 1 {
        space_json(s[0])
    } else {
        spaces_items(s.drop_last()) + ","@ + space_json(s.last())
    }
}

/// The answer to `-j workspaces`: a JSON array of the Spaces' objects.
pub open spec fn workspaces_text(s: Seq<SpaceInfo>) -> Seq<char> {
    "["@ + spaces_items(s) + "]"@
}

/// The answer to `-j activeworkspace`.
pub open spec fn active_workspace_text(sp: SpaceInfo) -> Seq<char> {
    "{\"id\":"@ + decimal(sp.id as int) + "}"@
}

/// The answer to `-j activewindow`: the window's class and title (keys in
/// serde_json's sorted order), or `{}` when no window has focus.
pub open spec fn active_window_text(w: Option<WindowInfo>) -> Seq<char> {
    match w {
        Some(w) => "{\"class\":"@ + json_quoted(w.class@) + ",\"title\":"@ + json_quoted(w.title@) + "}"@,
        None => "{}"@,
    }
}

/// `serde_json::to_string` on a `str`: the quoted string with `"`, `\`
/// and the control characters below U+0020 escaped (the short forms
/// `\b \t \n \f \r`, else `\u00XX` in lowercase hex), as serde_json's
/// `format_escaped_str` writes it. It writes into a `Vec`, which cannot
/// fail, so the empty default is never taken.
#[verifier::external_body]
fn json_string(s: &str) -> (r: String)
    ensures
        r@ == json_quoted(s@),
{
    serde_json::to_string(s).unwrap_or_default()
}

/// Whether `a` holds `lit`.
fn is_arg(a: &String, lit: &str) -> (b: bool)
    ensures
        b == (a@ == lit@),
{
    same_text(a.as_str(), lit)
}

/// The query that `args` (program name excluded) ask for, or `None` when
/// the shim does not answer them from `velo-de`.
pub fn parse_query(args: &[String]) -> (q: Option<HyprQuery>)
    ensures
        q == query_of(arg_views(args@)),
{
    let ghost v = arg_views(args@);
    if args.len() == 2 && is_arg(&args[0], "-j") {
        assert(v[0] == args@[0]@ && v[1] == args@[1]@);
        if is_arg(&args[1], "workspaces") {
            Some(HyprQuery::Workspaces)
        } else if is_arg(&args[1], "activeworkspace") {
            Some(HyprQuery::ActiveWorkspace)
        } else if is_arg(&args[1], "activewindow") {
            Some(HyprQuery::ActiveWindow)
        } else {
            None
        }
    } else if args.len() == 3 && is_arg(&args[0], "dispatch") && is_arg(&args[1], "workspace") {
        assert(v[0] == args@[0]@ && v[1] == args@[1]@ && v[2] == args@[2]@);
        match parse_i32(args[2].as_str()) {
            Some(id) => Some(HyprQuery::DispatchWorkspace(id)),
            None => None,
        }
    } else {
        proof {
            if args.len() == 2 {
                assert(v[0] == args@[0]@);
            }
            if args.len() == 3 {
                assert(v[0] == args@[0]@ && v[1] == args@[1]@);
            }
        }
        None
    }
}

/// A safe, exit-0 output for unrecognized invocations or an unreachable
/// `velo-de`: `-j` queries get an empty JSON value, everything else gets
/// empty output.
pub fn fallback(args: &[String]) -> (s: String)
    ensures
        s@ == fallback_text(arg_views(args@)),
{
    let ghost v = arg_views(args@);
    if args.len() > 0 && is_arg(&args[0], "-j") {
        assert(v[0] == args@[0]@);
        if args.len() > 1 {
            assert(v[1] == args@[1]@);
        }
        let list_shaped = args.len() > 1 && (is_arg(&args[1], "workspaces") || is_arg(&args[1], "clients")
            || is_arg(&args[1], "monitors") || is_arg(&args[1], "layers"));
        if list_shaped {
            String::from_str("[]")
        } else {
            String::from_str("{}")
        }
    } else {
        proof {
            if args.len() > 0 {
                assert(v[0] == args@[0]@);
            }
        }
        String::new()
    }
}

fn push_space(out: &mut String, sp: &SpaceInfo)
    ensures
        final(out)@ == old(out)@ + space_json(*sp),
{
    out.append("{\"id\":");
    push_decimal(out, sp.id);
    out.append(",\"windows\":");
    push_digits(out, sp.windows as u64);
    out.append("}");
    proof {
        assert(final(out)@ =~= old(out)@ + space_json(*sp));
    }
}

/// The answer to `hyprctl -j workspaces`: `[{"id":..,"windows":..},..]`.
pub fn workspaces_json(spaces: &[SpaceInfo]) -> (s: String)
    ensures
        s@ == workspaces_text(spaces@),
{
    let mut s = String::from_str("[");
    let mut i: usize = 0;
    while i < spaces.len()
        invariant
            i <= spaces@.len(),
            s@ == "["@ + spaces_items(spaces@.subrange(0, i as int)),
        decreases spaces@.len() - i,
    {
        let ghost before = s@;
        if i > 0 {
            s.append(",");
        }
        push_space(&mut s, &spaces[i]);
        proof {
            let p = spaces@.subrange(0, i + 1);
            assert(p.drop_last() =~= spaces@.subrange(0, i as int));
            assert(p.last() == spaces@[i as int]);
            if i == 0 {
                assert(spaces_items(spaces@.subrange(0, 0)) =~= Seq::<char>::empty());
                assert(s@ =~= "["@ + spaces_items(p));
            } else {
                assert(s@ =~= "["@ + spaces_items(p));
            }
        }
        i = i + 1;
    }
    s.append("]");
    proof {
        assert(spaces@.subrange(0, spaces@.len() as int) =~= spaces@);
    }
    s
}

/// The answer to `hyprctl -j activeworkspace`: `{"id":..}`.
pub fn active_workspace_json(space: &SpaceInfo) -> (s: String)
    ensures
        s@ == active_workspace_text(*space),
{
    let mut s = String::from_str("{\"id\":");
    push_decimal(&mut s, space.id);
    s.append("}");
    s
}

/// The answer to `hyprctl -j activewindow`: `{"class":..,"title":..}`,
/// or `{}` when no window has focus.
pub fn active_window_json(window: &Option<WindowInfo>) -> (s: String)
    ensures
        s@ == active_window_text(*window),
{
    match window {
        Some(w) => {
            let mut s = String::from_str("{\"class\":");
            let class = json_string(w.class.as_str());
            s.append(class.as_str());
            s.append(",\"title\":");
            let title = json_string(w.title.as_str());
            s.append(title.as_str());
            s.append("}");
            s
        },
        None => String::from_str("{}"),
    }
}

} // verus!
