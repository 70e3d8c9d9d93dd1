//! Dispatcher: turns differential updates into window-manager command lines.
//!
//! A batch is an ordered sequence of lines, one command each: first the
//! windows to hide (into per-monitor parking workspaces), then the windows
//! to reveal (onto the monitor's visible workspace), then an optional focus
//! change. A thin I/O layer sends each batch to the window manager.

use vstd::prelude::*;
use vstd::string::StringExecFns;

use crate::state::{opt_view, views_of, WinView, WindowInfo};

verus! {

/// The character for one decimal digit.
pub open spec fn digit_char(d: nat) -> char {
    if d == 0 {
        '0'
    } else if d == 1 {
        '1'
    } else if d == 2 {
        '2'
    } else if d == 3 {
        '3'
    } else if d == 4 {
        '4'
    } else if d == 5 {
        '5'
    } else if d == 6 {
        '6'
    } else if d == 7 {
        '7'
    } else if d == 8 {
        '8'
    } else {
        '9'
    }
}

/// The decimal digits of `n`, most significant first.
pub open spec fn dec_of(n: nat) -> Seq<char>
    decreases n,
{
    if n < 10 {
        seq![digit_char(n)]
    } else {
        dec_of(n / 10) + seq![digit_char(n % 10)]
    }
}

/// One decimal digit as a string slice.
fn digit_str(d: u32) -> (r: &'static str)
    requires
        d < 10,
    ensures
        r@ == seq![digit_char(d as nat)],
{
    let s: &'static str = if d == 0 {
        "0"
    } else if d == 1 {
        "1"
    } else if d == 2 {
        "2"
    } else if d == 3 {
        "3"
    } else if d == 4 {
        "4"
    } else if d == 5 {
        "5"
    } else if d == 6 {
        "6"
    } else if d == 7 {
        "7"
    } else if d == 8 {
        "8"
    } else {
        "9"
    };
    proof {
        reveal_strlit("0");
        reveal_strlit("1");
        reveal_strlit("2");
        reveal_strlit("3");
        reveal_strlit("4");
        reveal_strlit("5");
        reveal_strlit("6");
        reveal_strlit("7");
        reveal_strlit("8");
        reveal_strlit("9");
        assert(s@ =~= seq![digit_char(d as nat)]);
    }
    s
}

/// The decimal representation of `n`.
pub fn dec_string(n: u32) -> (r: String)
    ensures
        r@ == dec_of(n as nat),
    decreases n,
{
    if n < 10 {
        digit_str(n).to_owned()
    } else {
        let mut s = dec_string(n / 10);
        s.append(digit_str(n % 10));
        s
    }
}

/// The command hiding `addr` into the parking workspace of tag id `tag` on
/// monitor index `mon` (workspace `tag + 100 + 32 * mon`, disjoint across
/// monitors and tags).
pub open spec fn park_line(tag: u8, mon: int, addr: Seq<char>) -> Seq<char> {
    "dispatch movetoworkspacesilent "@ + dec_of((tag + 100 + 32 * mon) as nat) + ",address:0x"@
        + addr
}

/// The command revealing `addr` onto the visible workspace of monitor index
/// `mon` (workspace `mon + 1`).
pub open spec fn show_line(mon: int, addr: Seq<char>) -> Seq<char> {
    "dispatch movetoworkspacesilent "@ + dec_of((mon + 1) as nat) + ",address:0x"@ + addr
}

/// The command focusing `addr`.
pub open spec fn focus_line(addr: Seq<char>) -> Seq<char> {
    "dispatch focuswindow address:0x"@ + addr
}

/// The command switching to workspace `ws`.
pub open spec fn goto_workspace_line(ws: nat) -> Seq<char> {
    "dispatch movetoworkspace "@ + dec_of(ws)
}

/// The command pinning the base workspace of the monitor at position
/// `mon` to it (workspace `mon + 1`, matching the numbering the reveal
/// commands use).
pub open spec fn workspace_to_monitor_line(mon: int, name: Seq<char>) -> Seq<char> {
    "dispatch moveworkspacetomonitor "@ + dec_of((mon + 1) as nat) + " "@ + name
}

/// The views of a sequence of command lines.
pub open spec fn str_views(v: Seq<String>) -> Seq<Seq<char>> {
    v.map_values(|s: String| s@)
}

/// The batch for one differential update on monitor `mon`, in order: hide,
/// reveal, focus.
pub open spec fn update_lines(
    removed: Seq<WinView>,
    added: Seq<WinView>,
    focus: Option<Seq<char>>,
    mon: int,
) -> Seq<Seq<char>> {
    removed.map_values(|w: WinView| park_line(w.tag, mon, w.addr)) + added.map_values(
        |w: WinView| show_line(mon, w.addr),
    ) + (match focus {
        Some(a) => seq![focus_line(a)],
        None => Seq::<Seq<char>>::empty(),
    })
}

/// The command hiding one window into its parking workspace.
fn park_cmd(w: &WindowInfo, mon: usize) -> (r: String)
    requires
        mon < 255,
    ensures
        r@ == park_line(w.tag, mon as int, w.addr@),
{
    let ws: u32 = w.tag as u32 + 100 + 32 * (mon as u32);
    let mut line: String = "dispatch movetoworkspacesilent ".to_owned();
    line.append(dec_string(ws).as_str());
    line.append(",address:0x");
    line.append(w.addr.as_str());
    line
}

/// The command revealing one window onto a monitor's visible workspace.
fn show_cmd(w: &WindowInfo, mon: usize) -> (r: String)
    requires
        mon < 255,
    ensures
        r@ == show_line(mon as int, w.addr@),
{
    let ws: u32 = mon as u32 + 1;
    let mut line: String = "dispatch movetoworkspacesilent ".to_owned();
    line.append(dec_string(ws).as_str());
    line.append(",address:0x");
    line.append(w.addr.as_str());
    line
}

/// Translates one differential update into the batch of window-manager
/// commands that realizes it: hide the removed windows, reveal the added
/// ones, then focus.
pub fn handle_changes(changes: crate::monitor::Changes) -> (r: Vec<String>)
    requires
        changes.active_monitor_index < 255,
    ensures
        str_views(r@) == update_lines(
            views_of(changes.changes.window_removed@),
            views_of(changes.changes.window_added@),
            opt_view(changes.changes.focus),
            changes.active_monitor_index as int,
        ),
{
    let mon = changes.active_monitor_index;
    let ghost removed = views_of(changes.changes.window_removed@);
    let ghost added = views_of(changes.changes.window_added@);
    let ghost parked = removed.map_values(|w: WinView| park_line(w.tag, mon as int, w.addr));
    let ghost shown = added.map_values(|w: WinView| show_line(mon as int, w.addr));

    let mut args: Vec<String> = Vec::new();
    let mut i: usize = 0;
    while i < changes.changes.window_removed.len()
        invariant
            mon == changes.active_monitor_index,
            mon < 255,
            removed == views_of(changes.changes.window_removed@),
            parked == removed.map_values(|w: WinView| park_line(w.tag, mon as int, w.addr)),
            i <= changes.changes.window_removed.len(),
            str_views(args@) == parked.take(i as int),
        decreases changes.changes.window_removed.len() - i,
    {
        let cmd = park_cmd(&changes.changes.window_removed[i], mon);
        let ghost a0 = args@;
        proof {
            assert(cmd@ == parked[i as int]);
        }
        args.push(cmd);
        proof {
            assert(str_views(args@) =~= str_views(a0).push(parked[i as int]));
            assert(parked.take(i as int + 1) =~= parked.take(i as int).push(parked[i as int]));
        }
        i = i + 1;
    }
    proof {
        assert(parked.take(removed.len() as int) =~= parked);
    }

    let mut j: usize = 0;
    while j < changes.changes.window_added.len()
        invariant
            mon == changes.active_monitor_index,
            mon < 255,
            added == views_of(changes.changes.window_added@),
            shown == added.map_values(|w: WinView| show_line(mon as int, w.addr)),
            j <= changes.changes.window_added.len(),
            str_views(args@) == parked + shown.take(j as int),
        decreases changes.changes.window_added.len() - j,
    {
        let cmd = show_cmd(&changes.changes.window_added[j], mon);
        let ghost a0 = args@;
        proof {
            assert(cmd@ == shown[j as int]);
        }
        args.push(cmd);
        proof {
            assert(str_views(args@) =~= str_views(a0).push(shown[j as int]));
            assert(shown.take(j as int + 1) =~= shown.take(j as int).push(shown[j as int]));
            assert(str_views(args@) =~= parked + shown.take(j as int + 1));
        }
        j = j + 1;
    }
    proof {
        assert(shown.take(added.len() as int) =~= shown);
    }

    match &changes.changes.focus {
        Some(focus) => {
            let mut line: String = "dispatch focuswindow address:0x".to_owned();
            line.append(focus.as_str());
            args.push(line);
        },
        None => {},
    }
    proof {
        assert(str_views(args@) =~= update_lines(
            removed,
            added,
            opt_view(changes.changes.focus),
            mon as int,
        ));
    }
    args
}

} // verus!
