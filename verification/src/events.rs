//! The textual protocols: window-manager event lines and control commands.
//!
//! Event lines look like `name>>arg0[,arg1,...]` with a trailing newline;
//! control lines are space-separated tokens. Parsing here is exact: the
//! specs mirror splitting on the first separators, as the line readers
//! hand whole lines in.

use vstd::prelude::*;
use vstd::string::{StrSliceExecFns, StringExecFns};

use crate::dispatch::{goto_workspace_line, str_views, update_lines};
use crate::Error;
use crate::monitor::MonitorsState;
use crate::state::{diff_of, opt_view, State};

verus! {

/// A typed control-socket command.
#[derive(Debug)]
pub enum Ctrl {
    ShowTag(u8),
    ToggleTag(u8),
    MoveToTag(u8, Option<String>),
    RestorePrevTags,
    MoveToNextMonitor,
}

/// The position of the first `>>` at or after `from`.
pub open spec fn find_sep(s: Seq<char>, from: int) -> Option<int>
    decreases s.len() - from,
{
    if from < 0 || from + 2 > s.len() {
        None
    } else if s[from] == '>' && s[from + 1] == '>' {
        Some(from)
    } else {
        find_sep(s, from + 1)
    }
}

/// The position of the first `c` at or after `from`.
pub open spec fn find_char(s: Seq<char>, c: char, from: int) -> Option<int>
    decreases s.len() - from,
{
    if from < 0 || from >= s.len() {
        None
    } else if s[from] == c {
        Some(from)
    } else {
        find_char(s, c, from + 1)
    }
}

/// A found separator lies within the sequence.
proof fn lemma_find_sep_bounds(s: Seq<char>, from: int)
    requires
        0 <= from,
    ensures
        match find_sep(s, from) {
            Some(i) => from <= i && i + 2 <= s.len(),
            None => true,
        },
    decreases s.len() - from,
{
    if !(from + 2 > s.len()) && !(s[from] == '>' && s[from + 1] == '>') {
        lemma_find_sep_bounds(s, from + 1);
    }
}

/// A found character lies within the sequence.
proof fn lemma_find_char_bounds(s: Seq<char>, c: char, from: int)
    requires
        0 <= from,
    ensures
        match find_char(s, c, from) {
            Some(i) => from <= i && i < s.len(),
            None => true,
        },
    decreases s.len() - from,
{
    if from < s.len() && s[from] != c {
        lemma_find_char_bounds(s, c, from + 1);
    }
}

/// The parse of one event line, its trailing character removed: the text
/// before the first `>>`, and the first two comma-separated arguments of
/// the chunk between the first and the second `>>`.
pub open spec fn parse_line_spec(line: Seq<char>) -> (Seq<char>, Seq<char>, Seq<char>) {
    let body = line.take(line.len() - 1);
    match find_sep(body, 0) {
        None => (body, Seq::empty(), Seq::empty()),
        Some(i) => {
            let rest = body.skip(i + 2);
            let seg = match find_sep(rest, 0) {
                None => rest,
                Some(j) => rest.take(j),
            };
            match find_char(seg, ',', 0) {
                None => (body.take(i), seg, Seq::empty()),
                Some(k) => {
                    let tail = seg.skip(k + 1);
                    let arg1 = match find_char(tail, ',', 0) {
                        None => tail,
                        Some(m) => tail.take(m),
                    };
                    (body.take(i), seg.take(k), arg1)
                },
            }
        },
    }
}

/// Finds the first `>>` at or after `from`, scanning forward.
fn find_sep_from(s: &str, from: usize) -> (r: Option<usize>)
    ensures
        match r {
            Some(i) => find_sep(s@, from as int) == Some(i as int),
            None => find_sep(s@, from as int) is None,
        },
{
    let n = s.unicode_len();
    let mut i = from;
    if i > n {
        return None;
    }
    while i < n
        invariant
            n == s@.len(),
            from <= i <= n,
            find_sep(s@, from as int) == find_sep(s@, i as int),
        decreases n - i,
    {
        if i + 1 < n {
            if s.get_char(i) == '>' && s.get_char(i + 1) == '>' {
                return Some(i);
            }
        }
        i = i + 1;
    }
    None
}

/// Finds the first `c` at or after `from`, scanning forward.
fn find_char_from(s: &str, c: char, from: usize) -> (r: Option<usize>)
    ensures
        match r {
            Some(i) => find_char(s@, c, from as int) == Some(i as int),
            None => find_char(s@, c, from as int) is None,
        },
{
    let n = s.unicode_len();
    let mut i = from;
    if i > n {
        return None;
    }
    while i < n
        invariant
            n == s@.len(),
            from <= i <= n,
            find_char(s@, c, from as int) == find_char(s@, c, i as int),
        decreases n - i,
    {
        if s.get_char(i) == c {
            return Some(i);
        }
        i = i + 1;
    }
    None
}

/// Splits one event line into its name and first two arguments. The
/// returned `Result` is always `Ok`; a line without separators parses to
/// its body with empty arguments.
pub fn parse_line<'a>(line: &'a str) -> (r: Result<(&'a str, &'a str, &'a str), Error>)
    requires
        line@.len() >= 1,
    ensures
        r is Ok,
        r->Ok_0.0@ == parse_line_spec(line@).0,
        r->Ok_0.1@ == parse_line_spec(line@).1,
        r->Ok_0.2@ == parse_line_spec(line@).2,
{
    proof {
        reveal_strlit("");
    }
    let n = line.unicode_len();
    let body = line.substring_char(0, n - 1);
    let m = n - 1;
    match find_sep_from(body, 0) {
        None => Ok((body, "", "")),
        Some(i) => {
            proof {
                lemma_find_sep_bounds(body@, 0);
            }
            let cmd = body.substring_char(0, i);
            let rest = body.substring_char(i + 2, m);
            let seg = match find_sep_from(rest, 0) {
                None => rest,
                Some(j) => {
                    proof {
                        lemma_find_sep_bounds(rest@, 0);
                    }
                    rest.substring_char(0, j)
                },
            };
            let sl = seg.unicode_len();
            match find_char_from(seg, ',', 0) {
                None => Ok((cmd, seg, "")),
                Some(k) => {
                    proof {
                        lemma_find_char_bounds(seg@, ',', 0);
                    }
                    let arg0 = seg.substring_char(0, k);
                    let tail = seg.substring_char(k + 1, sl);
                    let arg1 = match find_char_from(tail, ',', 0) {
                        None => tail,
                        Some(mm) => {
                            proof {
                                lemma_find_char_bounds(tail@, ',', 0);
                            }
                            tail.substring_char(0, mm)
                        },
                    };
                    Ok((cmd, arg0, arg1))
                },
            }
        },
    }
}

/// String equality on views.
fn str_eq(a: &str, b: &str) -> (r: bool)
    ensures
        r == (a@ == b@),
{
    let n = a.unicode_len();
    if n != b.unicode_len() {
        return false;
    }
    let mut i: usize = 0;
    while i < n
        invariant
            n == a@.len(),
            n == b@.len(),
            i <= n,
            forall|j: int| 0 <= j < i ==> a@[j] == b@[j],
        decreases n - i,
    {
        if a.get_char(i) != b.get_char(i) {
            return false;
        }
        i = i + 1;
    }
    proof {
        assert(a@ =~= b@);
    }
    true
}

/// The character is a decimal digit.
pub open spec fn is_digit(c: char) -> bool {
    '0' as int <= c as int <= '9' as int
}

/// Every character of the sequence is a decimal digit.
pub open spec fn all_digits(s: Seq<char>) -> bool {
    forall|i: int| 0 <= i < s.len() ==> is_digit(#[trigger] s[i])
}

/// The value of a digit string, most significant first.
pub open spec fn digits_value(s: Seq<char>) -> int
    decreases s.len(),
{
    if s.len() == 0 {
        0
    } else {
        digits_value(s.drop_last()) * 10 + (s.last() as int - '0' as int)
    }
}

/// The parse of an unsigned byte as the standard library reads it: an
/// optional leading `+`, then at least one digit, the value at most 255.
pub open spec fn parse_u8_spec(s: Seq<char>) -> Option<u8> {
    let body = if s.len() >= 1 && s[0] == '+' {
        s.skip(1)
    } else {
        s
    };
    if body.len() >= 1 && all_digits(body) && digits_value(body) <= 255 {
        Some(digits_value(body) as u8)
    } else {
        None
    }
}

/// A digit string prefix never exceeds the whole string's value.
proof fn lemma_digits_prefix(s: Seq<char>, k: int)
    requires
        all_digits(s),
        0 <= k <= s.len(),
    ensures
        0 <= digits_value(s.take(k)) <= digits_value(s),
    decreases s.len() - k,
{
    if k == s.len() {
        assert(s.take(k) =~= s);
        lemma_digits_nonneg(s);
    } else {
        lemma_digits_prefix(s, k + 1);
        let t = s.take(k + 1);
        assert(t.drop_last() =~= s.take(k));
        assert(t.last() == s[k]);
        lemma_digits_nonneg(s.take(k));
    }
}

/// A digit string's value is non-negative.
proof fn lemma_digits_nonneg(s: Seq<char>)
    requires
        all_digits(s),
    ensures
        digits_value(s) >= 0,
    decreases s.len(),
{
    if s.len() > 0 {
        assert(all_digits(s.drop_last())) by {
            assert forall|i: int| 0 <= i < s.len() - 1 implies is_digit(
                #[trigger] s.drop_last()[i],
            ) by {
                assert(s.drop_last()[i] == s[i]);
            }
        }
        lemma_digits_nonneg(s.drop_last());
    }
}

/// Reads an unsigned byte as the standard library would.
pub fn parse_u8(s: &str) -> (r: Option<u8>)
    ensures
        r == parse_u8_spec(s@),
{
    let n = s.unicode_len();
    let mut start: usize = 0;
    if n >= 1 {
        if s.get_char(0) == '+' {
            start = 1;
        }
    }
    let ghost body: Seq<char> = if start == 1 {
        s@.skip(1)
    } else {
        s@
    };
    if n == start {
        return None;
    }
    let mut acc: u32 = 0;
    let mut i: usize = start;
    while i < n
        invariant
            n == s@.len(),
            start <= i <= n,
            start <= 1,
            body == (if start == 1 {
                s@.skip(1)
            } else {
                s@
            }),
            body.len() == n - start,
            (start == 1) == (n >= 1 && s@[0] == '+'),
            forall|j: int| 0 <= j < body.len() ==> body[j] == s@[j + start],
            all_digits(body.take(i - start)),
            acc <= 255,
            acc == digits_value(body.take(i - start)),
        decreases n - i,
    {
        let c = s.get_char(i);
        let cv = c as u32;
        if cv < 48 || cv > 57 {
            proof {
                assert(c as int == cv as int);
                assert('0' as int == 48 && '9' as int == 57);
                assert(body[i - start] == c);
                assert(!is_digit(c));
                assert(!all_digits(body));
            }
            return None;
        }
        proof {
            assert(c as int == cv as int);
            assert('0' as int == 48 && '9' as int == 57);
            assert(is_digit(c));
        }
        let d = cv - 48;
        proof {
            let t = body.take(i - start + 1);
            assert(t.drop_last() =~= body.take(i - start));
            assert(t.last() == c);
            assert forall|j: int| 0 <= j < t.len() implies is_digit(#[trigger] t[j]) by {
                if j < t.len() - 1 {
                    assert(t[j] == body.take(i - start)[j]);
                }
            }
        }
        if acc > 25 || (acc == 25 && d > 5) {
            proof {
                assert(digits_value(body.take(i - start + 1)) > 255);
                if all_digits(body) {
                    lemma_digits_prefix(body, i - start + 1);
                    assert(digits_value(body) > 255);
                }
            }
            return None;
        }
        acc = acc * 10 + d;
        i = i + 1;
    }
    proof {
        assert(body.take(n - start) =~= body);
    }
    Some(acc as u8)
}

/// The line with one trailing end-of-line marker removed.
pub open spec fn strip_eol(s: Seq<char>) -> Seq<char> {
    if s.len() >= 2 && s[s.len() - 2] == '\r' && s[s.len() - 1] == '\n' {
        s.take(s.len() - 2)
    } else if s.len() >= 1 && s[s.len() - 1] == '\n' {
        s.take(s.len() - 1)
    } else {
        s
    }
}

/// The typed command a control line parses to, if any: the first
/// space-separated token names the command, the second carries its tag
/// number. Unknown commands and bad tag numbers parse to nothing.
pub open spec fn parse_ctrl_spec(line: Seq<char>) -> Option<Ctrl> {
    let p = strip_eol(line);
    let cmd = match find_char(p, ' ', 0) {
        None => p,
        Some(i) => p.take(i),
    };
    let arg0 = match find_char(p, ' ', 0) {
        None => Seq::<char>::empty(),
        Some(i) => {
            let rest = p.skip(i + 1);
            match find_char(rest, ' ', 0) {
                None => rest,
                Some(j) => rest.take(j),
            }
        },
    };
    if cmd == "restore"@ {
        Some(Ctrl::RestorePrevTags)
    } else if cmd == "move_to_next_monitor"@ {
        Some(Ctrl::MoveToNextMonitor)
    } else if cmd == "move"@ || cmd == "show"@ || cmd == "toggle"@ {
        if find_char(p, ' ', 0) is None {
            None
        } else {
            match parse_u8_spec(arg0) {
                None => None,
                Some(t) => if cmd == "move"@ {
                    Some(Ctrl::MoveToTag(t, None))
                } else if cmd == "show"@ {
                    Some(Ctrl::ShowTag(t))
                } else {
                    Some(Ctrl::ToggleTag(t))
                },
            }
        }
    } else {
        None
    }
}

/// Reads one control line into a typed command.
pub fn parse_ctrl(line: &str) -> (r: Option<Ctrl>)
    ensures
        r == parse_ctrl_spec(line@),
{
    proof {
        reveal_strlit("");
        reveal_strlit("restore");
        reveal_strlit("move_to_next_monitor");
        reveal_strlit("move");
        reveal_strlit("show");
        reveal_strlit("toggle");
    }
    let n = line.unicode_len();
    let p: &str = if n >= 2 && line.get_char(n - 2) == '\r' && line.get_char(n - 1) == '\n' {
        line.substring_char(0, n - 2)
    } else if n >= 1 && line.get_char(n - 1) == '\n' {
        line.substring_char(0, n - 1)
    } else {
        line
    };
    let pl = p.unicode_len();
    let sp = find_char_from(p, ' ', 0);
    proof {
        lemma_find_char_bounds(p@, ' ', 0);
    }
    let cmd: &str = match sp {
        None => p,
        Some(i) => p.substring_char(0, i),
    };
    let arg0: &str = match sp {
        None => "",
        Some(i) => {
            let rest = p.substring_char(i + 1, pl);
            proof {
                lemma_find_char_bounds(rest@, ' ', 0);
            }
            match find_char_from(rest, ' ', 0) {
                None => rest,
                Some(j) => rest.substring_char(0, j),
            }
        },
    };
    if str_eq(cmd, "restore") {
        Some(Ctrl::RestorePrevTags)
    } else if str_eq(cmd, "move_to_next_monitor") {
        Some(Ctrl::MoveToNextMonitor)
    } else if str_eq(cmd, "move") || str_eq(cmd, "show") || str_eq(cmd, "toggle") {
        if sp.is_none() {
            None
        } else {
            match parse_u8(arg0) {
                None => None,
                Some(t) => {
                    if str_eq(cmd, "move") {
                        Some(Ctrl::MoveToTag(t, None))
                    } else if str_eq(cmd, "show") {
                        Some(Ctrl::ShowTag(t))
                    } else {
                        Some(Ctrl::ToggleTag(t))
                    }
                },
            }
        }
    } else {
        None
    }
}

/// Applies one window-manager event line to the monitor set: a window
/// opened or closed, the focused window changed, or the focused monitor
/// changed. Unknown events, empty arguments and per-event errors leave the
/// state unchanged.
pub fn handle_event_stream(state: &mut MonitorsState, buf: &str)
    requires
        old(state).wf(),
        buf@.len() >= 1,
    ensures
        final(state).wf(),
        ({
            let cmd = parse_line_spec(buf@).0;
            let id = parse_line_spec(buf@).1;
            &&& (id.len() == 0 ==> final(state).monitors@ == old(state).monitors@ && final(state).active_monitor_index == old(state).active_monitor_index)
            &&& (id.len() > 0 && cmd == "focusedmon"@ ==> final(state).monitors@ == old(state).monitors@ && final(state).active_monitor_index as int == (if old(state).has_name(id) {
                old(state).name_index(id)
            } else {
                old(state).active_monitor_index as int
            }))
            &&& (id.len() > 0 && cmd == "openwindow"@ ==> MonitorsState::delegate_frame(
                *old(state),
                *final(state),
            ) && (old(state).tracked_anywhere(id) ==> final(state).monitors@ == old(state).monitors@) && (!old(state).tracked_anywhere(id) ==> State::added_post(
                old(state).active_state(),
                final(state).active_state(),
                id,
            )))
            &&& (id.len() > 0 && cmd == "closewindow"@ ==> MonitorsState::delegate_frame(
                *old(state),
                *final(state),
            ) && (!old(state).active_state().tracked_addr(id) ==> final(state).monitors@ == old(state).monitors@) && (old(state).active_state().tracked_addr(id) ==> State::removed_post(
                old(state).active_state(),
                final(state).active_state(),
                id,
            )))
            &&& (id.len() > 0 && cmd == "activewindowv2"@ ==> MonitorsState::delegate_frame(
                *old(state),
                *final(state),
            ) && (old(state).tracked_on_other(id) ==> final(state).monitors@ == old(state).monitors@) && (!old(state).tracked_on_other(id) ==> opt_view(
                final(state).active_state().active_window,
            ) == Some(id) && (old(state).active_state().tracked_addr(id) ==> final(state).active_state().tags@ == old(state).active_state().tags@) && (!old(state).active_state().tracked_addr(id) ==> State::added_post(
                old(state).active_state(),
                final(state).active_state(),
                id,
            ))))
            &&& (id.len() > 0 && cmd != "focusedmon"@ && cmd != "openwindow"@ && cmd
                != "closewindow"@ && cmd != "activewindowv2"@ ==> final(state).monitors@ == old(state).monitors@ && final(state).active_monitor_index == old(state).active_monitor_index)
        }),
{
    proof {
        reveal_strlit("focusedmon");
        reveal_strlit("openwindow");
        reveal_strlit("closewindow");
        reveal_strlit("activewindowv2");
        assert(("focusedmon"@)[0] == 'f' && ("openwindow"@)[0] == 'o');
        assert(("focusedmon"@).len() == 10 && ("openwindow"@).len() == 10 && ("closewindow"@).len()
            == 11 && ("activewindowv2"@).len() == 14);
    }
    match parse_line(buf) {
        Err(_) => {},
        Ok((cmd, id, _extra)) => {
            if id.unicode_len() == 0 {
                return ;
            }
            if str_eq(cmd, "focusedmon") {
                let _ = state.focused_monitor_changed(id);
            } else if str_eq(cmd, "openwindow") {
                let _ = state.new_window_added(id.to_owned());
            } else if str_eq(cmd, "closewindow") {
                let _ = state.window_removed(id.to_owned());
            } else if str_eq(cmd, "activewindowv2") {
                let _ = state.focus_window_changed(id.to_owned());
            }
        },
    }
}

/// Applies one control command to the monitor set and returns the command
/// batch to send to the window manager. An out-of-range tag or a state
/// error is dropped: the state is unchanged and the batch empty. The
/// cross-monitor move emits its workspace switch unconditionally, before
/// the state changes, as the daemon does.
pub fn handle_ctrl(state: &mut MonitorsState, msg: Ctrl) -> (r: Vec<String>)
    requires
        old(state).wf(),
    ensures
        final(state).wf(),
        match msg {
            Ctrl::ShowTag(tag) => {
                &&& (!(1 <= tag <= 32) ==> final(state).monitors@ == old(state).monitors@ && final(state).active_monitor_index == old(state).active_monitor_index && r@ == Seq::<
                    String,
                >::empty())
                &&& (1 <= tag <= 32 ==> {
                    let mask = 1u32 << ((tag - 1) as u32);
                    &&& MonitorsState::delegate_frame(*old(state), *final(state))
                    &&& State::set_state_post(
                        old(state).active_state(),
                        final(state).active_state(),
                        mask,
                    )
                    &&& str_views(r@) == update_lines(
                        diff_of(
                            old(state).active_state().visible_model(),
                            final(state).active_state().visible_model(),
                        ),
                        diff_of(
                            final(state).active_state().visible_model(),
                            old(state).active_state().visible_model(),
                        ),
                        State::set_focus_spec(old(state).active_state(), mask),
                        old(state).active_monitor_index as int,
                    )
                })
            },
            Ctrl::ToggleTag(tag) => {
                &&& (!(1 <= tag <= 32) ==> final(state).monitors@ == old(state).monitors@ && final(state).active_monitor_index == old(state).active_monitor_index && r@ == Seq::<
                    String,
                >::empty())
                &&& (1 <= tag <= 32 ==> {
                    let mask = crate::bits::toggled(old(state).active_state().visible_tags, tag - 1);
                    &&& (mask == 0 ==> final(state).monitors@ == old(state).monitors@ && final(state).active_monitor_index == old(state).active_monitor_index && r@ == Seq::<
                        String,
                    >::empty())
                    &&& (mask != 0 ==> MonitorsState::delegate_frame(*old(state), *final(state))
                        && State::set_state_post(
                        old(state).active_state(),
                        final(state).active_state(),
                        mask,
                    ) && str_views(r@) == update_lines(
                        diff_of(
                            old(state).active_state().visible_model(),
                            final(state).active_state().visible_model(),
                        ),
                        diff_of(
                            final(state).active_state().visible_model(),
                            old(state).active_state().visible_model(),
                        ),
                        State::set_focus_spec(old(state).active_state(), mask),
                        old(state).active_monitor_index as int,
                    ))
                })
            },
            Ctrl::RestorePrevTags => {
                let mask = old(state).active_state().prev_tags;
                &&& MonitorsState::delegate_frame(*old(state), *final(state))
                &&& State::set_state_post(
                    old(state).active_state(),
                    final(state).active_state(),
                    mask,
                )
                &&& str_views(r@) == update_lines(
                    diff_of(
                        old(state).active_state().visible_model(),
                        final(state).active_state().visible_model(),
                    ),
                    diff_of(
                        final(state).active_state().visible_model(),
                        old(state).active_state().visible_model(),
                    ),
                    State::set_focus_spec(old(state).active_state(), mask),
                    old(state).active_monitor_index as int,
                )
            },
            Ctrl::MoveToTag(tag, window) => {
                &&& MonitorsState::delegate_frame(*old(state), *final(state))
                &&& match old(state).active_state().move_window_err(tag, window) {
                    Some(_) => final(state).monitors@ == old(state).monitors@ && r@ == Seq::<
                        String,
                    >::empty(),
                    None => State::move_state_post(
                        old(state).active_state(),
                        final(state).active_state(),
                        tag,
                        old(state).active_state().effective_window(window)->0,
                    ) && str_views(r@) == update_lines(
                        diff_of(
                            old(state).active_state().visible_model(),
                            final(state).active_state().visible_model(),
                        ),
                        diff_of(
                            final(state).active_state().visible_model(),
                            old(state).active_state().visible_model(),
                        ),
                        None::<Seq<char>>,
                        old(state).active_monitor_index as int,
                    ),
                }
            },
            Ctrl::MoveToNextMonitor => {
                let nextv: int = if old(state).active_monitor_index + 1 < old(state).monitors.len() {
                    old(state).active_monitor_index + 1
                } else {
                    0int
                };
                let aw = opt_view(old(state).active_state().active_window);
                &&& str_views(r@) == seq![goto_workspace_line((nextv + 1) as nat)]
                &&& final(state).monitors.len() == old(state).monitors.len()
                &&& final(state).active_monitor_index == old(state).active_monitor_index
                &&& (aw is None ==> final(state).monitors@ == old(state).monitors@)
                &&& (aw is Some ==> {
                    let w = aw->0;
                    let h = old(state).holder_index(w);
                    &&& (h == nextv ==> State::migrate_post(
                        old(state).monitors[h].state,
                        final(state).monitors[h].state,
                        w,
                    ) && forall|i: int|
                        0 <= i < old(state).monitors.len() && i != h
                            ==> #[trigger] final(state).monitors[i] == old(state).monitors[i])
                    &&& (h != nextv ==> State::removed_post(
                        old(state).monitors[h].state,
                        final(state).monitors[h].state,
                        w,
                    ) && State::added_post(
                        old(state).monitors[nextv].state,
                        final(state).monitors[nextv].state,
                        w,
                    ) && forall|i: int|
                        0 <= i < old(state).monitors.len() && i != h && i != nextv
                            ==> #[trigger] final(state).monitors[i] == old(state).monitors[i])
                })
            },
        },
{
    match msg {
        Ctrl::MoveToTag(tag, window) => {
            match state.move_window(tag, window) {
                Ok(changes) => crate::dispatch::handle_changes(changes),
                Err(_) => Vec::new(),
            }
        },
        Ctrl::ShowTag(tag) => {
            if tag < 1 || tag > 32 {
                return Vec::new();
            }
            let mask = 1u32 << ((tag - 1) as u32);
            proof {
                crate::bits::lemma_one_shift_nonzero((tag - 1) as u32);
            }
            match state.set_visible_tags(mask) {
                Ok(changes) => crate::dispatch::handle_changes(changes),
                Err(_) => Vec::new(),
            }
        },
        Ctrl::ToggleTag(tag) => {
            if tag < 1 || tag > 32 {
                return Vec::new();
            }
            match state.toggle_tag(tag) {
                Ok(changes) => crate::dispatch::handle_changes(changes),
                Err(_) => Vec::new(),
            }
        },
        Ctrl::RestorePrevTags => {
            match state.restore_prev_tags() {
                Ok(changes) => crate::dispatch::handle_changes(changes),
                Err(_) => Vec::new(),
            }
        },
        Ctrl::MoveToNextMonitor => {
            let next = state.next_monitor();
            let mut line: String = "dispatch movetoworkspace ".to_owned();
            line.append(crate::dispatch::dec_string(next as u32 + 1).as_str());
            let mut args: Vec<String> = Vec::new();
            let ghost lv = line@;
            args.push(line);
            proof {
                assert(str_views(args@) =~= seq![lv]);
            }
            let _ = state.move_window_to_monitor(next, None);
            args
        },
    }
}

} // verus!
