//! Plain-text formatting for Hyprland's `.socket2.sock` event protocol
//! (`event>>data\n`), as consumed by Velo-shell.

use vstd::prelude::*;

use crate::protocol::Event;
use crate::text::{decimal, law_decimal_reads_back, parsed_i32, push_decimal};

verus! {

/// The Hyprland event-socket line for `e` (with its trailing newline), or
/// `None` for events with no Hyprland equivalent.
pub open spec fn event_line(e: Event) -> Option<Seq<char>> {
    match e {
        Event::Workspace(id) => Some("workspace>>"@ + decimal(id as int) + "\n"@),
        Event::CreateWorkspace(id) => Some("createworkspace>>"@ + decimal(id as int) + "\n"@),
        Event::DestroyWorkspace(id) => Some("destroyworkspace>>"@ + decimal(id as int) + "\n"@),
        Event::ActiveWindow(w) => Some("activewindow>>"@ + w.class@ + ","@ + w.title@ + "\n"@),
        Event::SpacesChanged => None,
    }
}

/// `prefix`, then `id` in decimal, then a newline.
fn id_line(prefix: &str, id: i32) -> (s: String)
    ensures
        s@ == prefix@ + decimal(id as int) + "\n"@,
{
    let mut s = String::from_str(prefix);
    push_decimal(&mut s, id);
    s.append("\n");
    s
}

/// Format an [`Event`] as a Hyprland event-socket line (including the
/// trailing `\n`), or `None` for events with no Hyprland equivalent.
pub fn format_event(event: &Event) -> (r: Option<String>)
    ensures
        match r {
            Some(s) => event_line(*event) == Some(s@),
            None => event_line(*event) is None,
        },
{
    match event {
        Event::Workspace(id) => Some(id_line("workspace>>", *id)),
        Event::CreateWorkspace(id) => Some(id_line("createworkspace>>", *id)),
        Event::DestroyWorkspace(id) => Some(id_line("destroyworkspace>>", *id)),
        Event::ActiveWindow(w) => {
            let mut s = String::from_str("activewindow>>");
            s.append(w.class.as_str());
            s.append(",");
            s.append(w.title.as_str());
            s.append("\n");
            Some(s)
        },
        Event::SpacesChanged => None,
    }
}

/// The name Hyprland gives each kind of event on its event socket (empty
/// for events it has no line for).
pub open spec fn hypr_event_name(e: Event) -> Seq<char> {
    match e {
        Event::Workspace(_) => "workspace"@,
        Event::CreateWorkspace(_) => "createworkspace"@,
        Event::DestroyWorkspace(_) => "destroyworkspace"@,
        Event::ActiveWindow(_) => "activewindow"@,
        Event::SpacesChanged => Seq::empty(),
    }
}

/// The Space id an event is about, for the events that name one.
pub open spec fn event_space_id(e: Event) -> Option<i32> {
    match e {
        Event::Workspace(id) => Some(id),
        Event::CreateWorkspace(id) => Some(id),
        Event::DestroyWorkspace(id) => Some(id),
        _ => None,
    }
}

/// A line about a Space is `NAME>>ID\n`: it starts with the event's
/// Hyprland name and `>>`, ends with a newline, and what lies between
/// reads back (as `str::parse::<i32>` reads it) as the Space's id.
pub proof fn law_space_event_line_reads_back(e: Event, line: Seq<char>)
    requires
        event_space_id(e) is Some,
        event_line(e) == Some(line),
    ensures
        line.subrange(0, (hypr_event_name(e).len() + 2) as int) == hypr_event_name(e) + ">>"@,
        line.last() == '\n',
        parsed_i32(line.subrange((hypr_event_name(e).len() + 2) as int, line.len() - 1)) == event_space_id(e),
{
    reveal_strlit("workspace");
    reveal_strlit("createworkspace");
    reveal_strlit("destroyworkspace");
    reveal_strlit(">>");
    reveal_strlit("workspace>>");
    reveal_strlit("createworkspace>>");
    reveal_strlit("destroyworkspace>>");
    reveal_strlit("\n");
    let id = event_space_id(e)->0;
    let n = (hypr_event_name(e).len() + 2) as int;
    assert(line.subrange(0, n) =~= hypr_event_name(e) + ">>"@);
    assert(line.subrange(n, line.len() - 1) =~= decimal(id as int));
    law_decimal_reads_back(id);
}

/// Events of different kinds never share a line: each kind's line starts
/// with its own name.
pub proof fn law_event_kinds_have_distinct_lines(e1: Event, e2: Event, l1: Seq<char>, l2: Seq<char>)
    requires
        event_line(e1) == Some(l1),
        event_line(e2) == Some(l2),
        hypr_event_name(e1) != hypr_event_name(e2),
    ensures
        l1 != l2,
{
    reveal_strlit("workspace>>");
    reveal_strlit("createworkspace>>");
    reveal_strlit("destroyworkspace>>");
    reveal_strlit("activewindow>>");
    assert(l1[0] != l2[0]);
}

/// No two different events about Spaces are announced by the same line.
pub proof fn law_space_event_lines_differ(e1: Event, e2: Event)
    requires
        event_space_id(e1) is Some,
        event_space_id(e2) is Some,
        e1 != e2,
    ensures
        event_line(e1) != event_line(e2),
{
    reveal_strlit("workspace");
    reveal_strlit("createworkspace");
    reveal_strlit("destroyworkspace");
    let l1 = event_line(e1)->0;
    let l2 = event_line(e2)->0;
    if hypr_event_name(e1) != hypr_event_name(e2) {
        law_event_kinds_have_distinct_lines(e1, e2, l1, l2);
    } else if l1 == l2 {
        law_space_event_line_reads_back(e1, l1);
        law_space_event_line_reads_back(e2, l2);
        assert(event_space_id(e1) == event_space_id(e2));
    }
}

/// An active-window line is `activewindow>>CLASS,TITLE\n`: the window's
/// class right after the name, then a comma, then its title.
pub proof fn law_active_window_line_fields(w: crate::protocol::WindowInfo, line: Seq<char>)
    requires
        event_line(Event::ActiveWindow(w)) == Some(line),
    ensures
        line.subrange(0, 14) == "activewindow>>"@,
        line.subrange(14, 14 + w.class@.len() as int) == w.class@,
        line[14 + w.class@.len() as int] == ',',
        line.subrange(15 + w.class@.len() as int, line.len() - 1) == w.title@,
        line.last() == '\n',
{
    reveal_strlit("activewindow>>");
    reveal_strlit(",");
    reveal_strlit("\n");
    let k = 14 + w.class@.len() as int;
    assert(line.subrange(0, 14) =~= "activewindow>>"@);
    assert(line.subrange(14, k) =~= w.class@);
    assert(line.subrange(k + 1, line.len() - 1) =~= w.title@);
}

} // verus!
