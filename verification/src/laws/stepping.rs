//! What goes on around a key: what it means, what the host is asked, and what
//! can be undone afterwards.
use vstd::prelude::*;
use vstd::utf8::encode_utf8;

use crate::act::{AfterKey, Answer, Ask};
use crate::actions::EditorAction;
use crate::decoder::Event;
use crate::external::editor_of;
use crate::keys::Key;
use crate::laws::completion::clamping_finds_the_word;
use crate::laws::{is_quiet, stays};
use crate::line::{Action, Line, Pending};
use crate::ring::Ring;
use crate::search::flattened;
use crate::session::without_final_newlines;
use crate::step::{bound_at, unified, Bound};

verus! {

/// The line waits for no other key.
pub open spec fn is_free(line: Line) -> bool {
    line.search is None && line.pending == Pending::Nothing
}

/// The line is not in vi normal mode.
pub open spec fn inserts(line: Line) -> bool {
    !(line.vi && line.vi_normal)
}

/// The key is bound to an action, before any other binding of it.
pub open spec fn is_bound_to(b: Seq<(Key, Bound)>, key: Key, i: int, action: EditorAction) -> bool {
    &&& 0 <= i < b.len()
    &&& b[i] == (key, Bound::Action(action))
    &&& forall|k: int| 0 <= k < i ==> (#[trigger] b[k]).0 != key
}

proof fn first_bound(b: Seq<(Key, Bound)>, key: Key, from: int, i: int)
    requires
        0 <= from <= i < b.len(),
        b[i].0 == key,
        forall|k: int| from <= k < i ==> (#[trigger] b[k]).0 != key,
    ensures
        bound_at(b, key, from) == Some(i),
    decreases i - from,
{
    if from < i {
        assert(b[from].0 != key);
        first_bound(b, key, from + 1, i);
    }
}

/// The action goes on with candidate cycling.
pub open spec fn cycles(action: EditorAction) -> bool {
    action == EditorAction::Complete || action == EditorAction::MenuComplete || action
        == EditorAction::MenuCompleteBackward
}

/// The action goes on with a search for a prefix.
pub open spec fn seeks_a_prefix(action: EditorAction) -> bool {
    action == EditorAction::HistorySearchBackward || action == EditorAction::HistorySearchForward
}

/// A bound key runs its action on the line. Before, candidate cycling ends
/// unless the action goes on with it, and so does a search for a prefix; what
/// the action did to the text stands afterwards.
pub proof fn a_key_runs_its_action(
    line: Line,
    ring: Ring,
    b: Seq<(Key, Bound)>,
    key: Key,
    i: int,
    action: EditorAction,
    history: Seq<Seq<char>>,
    answer: Answer,
)
    requires
        is_free(line),
        inserts(line),
        !(line.vi && key == Key::Esc),
        is_bound_to(b, key, i, action),
    ensures
        ({
            let (l, r, after) = line.stepped(ring, b, Event::Key(key), history, answer);
            let ready = Line {
                this_action: Action::Other,
                menu: if cycles(action) {
                    line.menu
                } else {
                    None
                },
                anchored: line.anchored && seeks_a_prefix(action),
                ..line
            };
            let (m, s, then) = ready.acted(ring, action, key, history, answer);
            &&& stays(m, l) && is_quiet(m, l)
            &&& r == s && after == then
            &&& l.menu == m.menu && l.anchored == m.anchored && l.pending == m.pending
            &&& l.search == m.search && l.vi_normal == m.vi_normal
        }),
{
    first_bound(b, key, 0, i);
    reveal(Line::stepped);
    reveal(Line::done);
    reveal(Line::booked);
}

/// What ends a line: accepting it, interrupting it, or end of file; none of
/// these touches it, and the external editor is asked for in the same way.
pub proof fn what_ends_a_line(
    line: Line,
    ring: Ring,
    key: Key,
    history: Seq<Seq<char>>,
    answer: Answer,
)
    ensures
        line.acted(ring, EditorAction::AcceptLine, key, history, answer) == (
            line,
            ring,
            AfterKey::Accept,
        ),
        line.acted(ring, EditorAction::Interrupt, key, history, answer) == (
            line,
            ring,
            AfterKey::Interrupted,
        ),
        line.acted(ring, EditorAction::EditAndExecuteCommand, key, history, answer) == (
            line,
            ring,
            AfterKey::External,
        ),
        ({
            let (l, r, after) = line.acted(
                ring,
                EditorAction::OperateAndGetNext,
                key,
                history,
                answer,
            );
            &&& stays(line, l) && r == ring && after == AfterKey::Accept
            &&& l.next == (match line.hist_index {
                Some(i) if i + 1 < history.len() => Some(i + 1),
                _ => None,
            })
        }),
{
    reveal(Line::acted);
    reveal(Line::getting_next);
}

/// In vi normal mode the keys that end a line do so too, whatever is bound; C-d
/// does on an empty line.
pub proof fn what_ends_a_line_in_normal_mode(
    line: Line,
    ring: Ring,
    b: Seq<(Key, Bound)>,
    history: Seq<Seq<char>>,
)
    requires
        is_free(line),
        line.vi && line.vi_normal,
    ensures
        ({
            let enter = line.stepped(ring, b, Event::Key(Key::Enter), history, Answer::Silent);
            let stop = line.stepped(ring, b, Event::Key(Key::Ctrl('c')), history, Answer::Silent);
            let end = line.stepped(ring, b, Event::Key(Key::Ctrl('d')), history, Answer::Silent);
            &&& enter.2 == AfterKey::Accept && stays(line, enter.0) && enter.1 == ring
            &&& stop.2 == AfterKey::Interrupted && stays(line, stop.0) && stop.1 == ring
            &&& line.buffer.len() == 0 ==> end.2 == AfterKey::Eof
            &&& line.buffer.len() > 0 ==> end.2 == AfterKey::Done && stays(line, end.0) && end.1
                == ring
        }),
{
    reveal(Line::stepped);
    reveal(Line::done);
    reveal(Line::acted);
    reveal(Line::booked);
    reveal(Line::vi_key);
    reveal(Line::vi_command);
    reveal(Line::motion);
    reveal(Line::replaced);
    reveal(Line::object);
    reveal(Line::found);
}

/// The keys that vi normal mode shares with the other keymaps.
pub open spec fn is_shared(key: Key, action: EditorAction) -> bool {
    match action {
        EditorAction::Complete => key == Key::Tab,
        EditorAction::MenuCompleteBackward => key == Key::ShiftTab,
        EditorAction::ReverseSearchHistory => key == Key::Ctrl('r'),
        EditorAction::ForwardSearchHistory => key == Key::Ctrl('s'),
        EditorAction::ClearScreen => key == Key::Ctrl('l'),
        EditorAction::Undo => key == Key::Ctrl('_') || key == Key::Ctrl('z'),
        EditorAction::QuotedInsert => key == Key::Ctrl('v') || key == Key::Ctrl('q'),
        _ => false,
    }
}

/// In vi normal mode the shared keys run the actions that they run elsewhere,
/// whatever is bound; C-x waits for the second key of its chord, and `v`, where
/// no other key is waited for, asks for the external editor.
pub proof fn normal_mode_shares_some_keys(
    line: Line,
    ring: Ring,
    b: Seq<(Key, Bound)>,
    key: Key,
    action: EditorAction,
    history: Seq<Seq<char>>,
    answer: Answer,
)
    requires
        is_free(line),
        line.vi && line.vi_normal,
    ensures
        ({
            let (l, r, after) = line.stepped(ring, b, Event::Key(key), history, answer);
            let ready = Line {
                this_action: Action::Other,
                menu: if cycles(action) {
                    line.menu
                } else {
                    None
                },
                anchored: false,
                ..line
            };
            let (m, s, then) = ready.acted(ring, action, key, history, answer);
            let waits = line.vi_op is Some || line.vi_find is Some || line.vi_object is Some
                || line.vi_replace;
            &&& is_shared(key, action) ==> stays(m, l) && is_quiet(m, l) && r == s && after == then
            &&& is_shared(key, action) ==> l.menu == m.menu && l.pending == m.pending && l.search
                == m.search
            &&& key == Key::Ctrl('x') ==> l.pending == Pending::Chord && stays(line, l) && r == ring
            &&& key == Key::Char('v') && !waits ==> after == AfterKey::External && stays(line, l)
                && r == ring
        }),
{
    reveal(Line::stepped);
    reveal(Line::done);
    reveal(Line::booked);
    let ready = Line { this_action: Action::Other, menu: None, anchored: false, ..line };
    assert(ready.acted(ring, EditorAction::EditAndExecuteCommand, key, history, answer) == (
        ready,
        ring,
        AfterKey::External,
    )) by {
        reveal(Line::acted);
    }
}

/// Esc leaves insert mode, and goes back one character; nothing else changes,
/// whatever is bound.
pub proof fn leaving_insert_mode(
    line: Line,
    ring: Ring,
    b: Seq<(Key, Bound)>,
    history: Seq<Seq<char>>,
    answer: Answer,
)
    requires
        is_free(line),
        inserts(line),
        line.vi,
    ensures
        ({
            let (l, r, after) = line.stepped(ring, b, Event::Key(Key::Esc), history, answer);
            &&& l.vi && l.vi_normal
            &&& l.buffer == line.buffer
            &&& l.cursor == (if line.cursor > 0 {
                line.cursor - 1
            } else {
                line.cursor
            })
            &&& l.hist_index == line.hist_index
            &&& l.undo == line.undo
            &&& is_quiet(line, l)
            &&& l.menu is None
            &&& r == ring
            &&& after == AfterKey::Done
        }),
{
    reveal(Line::stepped);
    reveal(Line::done);
    reveal(Line::booked);
}

/// What an event did to the text can be undone: the line and the cursor as they
/// were go onto the undo stack, and the oldest of it is dropped where it is
/// full. A typed character that follows another, or a deleted one that follows
/// another, goes with it instead, twenty of them at most. What changed nothing,
/// and undoing itself, leaves the stack alone.
pub proof fn changes_can_be_undone(
    line: Line,
    ring: Ring,
    b: Seq<(Key, Bound)>,
    event: Event,
    history: Seq<Seq<char>>,
    answer: Answer,
)
    requires
        line.search is None,
    ensures
        ({
            let (l, r, after) = line.stepped(ring, b, event, history, answer);
            let (m, _, _) = Line { this_action: Action::Other, ..line }.handled(
                ring,
                b,
                event,
                history,
                answer,
            );
            let settled = m.pending == Pending::Nothing && (after == AfterKey::Done || after
                == AfterKey::External);
            let one_more = m.this_action == m.prev_action && (m.this_action == Action::Insert
                || m.this_action == Action::Delete) && m.run < 20;
            let all = m.undo.push((line.buffer, line.cursor));
            let max = m.cfg.max_undo as int;
            &&& stays(m, l)
            &&& settled ==> l.prev_action == m.this_action
            &&& settled && (l.buffer == line.buffer || m.this_action == Action::Undo) ==> l.undo
                == m.undo && l.run == m.run
            &&& settled && l.buffer != line.buffer && m.this_action != Action::Undo && one_more
                ==> l.undo == m.undo && l.run == m.run + 1
            &&& settled && l.buffer != line.buffer && m.this_action != Action::Undo && !one_more
                ==> {
                &&& l.run == 1
                &&& l.undo.len() == (if all.len() > max {
                    max
                } else {
                    all.len() as int
                })
                &&& forall|k: int|
                    0 <= k < l.undo.len() ==> #[trigger] l.undo[k] == all[all.len() - l.undo.len()
                        + k]
            }
        }),
{
    reveal(Line::stepped);
    reveal(Line::booked);
}

/// A paste that came with its line endings is inserted with newlines for them:
/// `\r\n` and `\r` are each one, and everything else stays.
pub proof fn line_endings_become_newlines(a: Seq<char>, b: Seq<char>)
    requires
        !a.contains('\r'),
    ensures
        unified(a) == a,
        unified(a + seq!['\r', '\n'] + b) == a + seq!['\n'] + unified(b),
        b.len() == 0 || b[0] != '\n' ==> unified(a + seq!['\r'] + b) == a + seq!['\n'] + unified(b),
        !unified(b).contains('\r'),
    decreases a.len() + b.len(),
{
    if a.len() > 0 {
        let rest = a.skip(1);
        assert(a[0] != '\r');
        assert(!rest.contains('\r')) by {
            if rest.contains('\r') {
                let k = choose|k: int| 0 <= k < rest.len() && rest[k] == '\r';
                assert(a[k + 1] == '\r');
            }
        }
        line_endings_become_newlines(rest, b);
        assert((a + seq!['\r', '\n'] + b).skip(1) =~= rest + seq!['\r', '\n'] + b);
        assert((a + seq!['\r'] + b).skip(1) =~= rest + seq!['\r'] + b);
        assert((a + seq!['\r', '\n'] + b)[0] == a[0] && (a + seq!['\r'] + b)[0] == a[0]);
        assert(seq![a[0]] + rest =~= a);
        assert(unified(a) =~= a);
        assert(unified(a + seq!['\r', '\n'] + b) =~= a + seq!['\n'] + unified(b));
        if b.len() == 0 || b[0] != '\n' {
            assert(unified(a + seq!['\r'] + b) =~= a + seq!['\n'] + unified(b));
        }
    } else {
        assert(unified(a) =~= a);
        let crlf = a + seq!['\r', '\n'] + b;
        assert(crlf[0] == '\r' && crlf[1] == '\n');
        assert(crlf.skip(2) =~= b);
        assert(unified(crlf) =~= a + seq!['\n'] + unified(b));
        let cr = a + seq!['\r'] + b;
        assert(cr[0] == '\r');
        assert(cr.skip(1) =~= b);
        if b.len() == 0 || b[0] != '\n' {
            assert(b.len() > 0 ==> cr[1] == b[0]);
            assert(unified(cr) =~= a + seq!['\n'] + unified(b));
        }
        if b.len() > 0 {
            let (first, tail) = if b[0] != '\r' {
                (b[0], b.skip(1))
            } else if b.len() > 1 && b[1] == '\n' {
                ('\n', b.skip(2))
            } else {
                ('\n', b.skip(1))
            };
            line_endings_become_newlines(a, tail);
            assert(unified(b) == seq![first] + unified(tail));
            assert forall|k: int| 0 <= k < unified(b).len() implies #[trigger] unified(b)[k]
                != '\r' by {
                if k > 0 {
                    assert(unified(b)[k] == unified(tail)[k - 1]);
                    assert(unified(tail).contains(unified(tail)[k - 1]));
                }
            }
        }
    }
}

/// A pasted text goes in at the cursor, ends candidate cycling, and is one
/// change.
pub proof fn pasting(line: Line, text: Seq<char>)
    requires
        line.inside(),
    ensures
        ({
            let l = line.pasted_in(text);
            let put = unified(text);
            &&& l.buffer == line.buffer.take(line.cursor) + put + line.buffer.skip(line.cursor)
            &&& l.cursor == line.cursor + put.len()
            &&& l.hist_index == line.hist_index
            &&& l.menu is None
            &&& !l.anchored
            &&& is_quiet(line, l)
        }),
{
    reveal(Line::pasted_in);
}

/// A paste into a search is on one line: its newlines are spaces there.
pub proof fn pasting_into_a_search(text: Seq<char>)
    ensures
        flattened(text).len() == text.len(),
        forall|k: int|
            0 <= k < text.len() ==> #[trigger] flattened(text)[k] == (if text[k] == '\n' {
                ' '
            } else {
                text[k]
            }),
{
}

/// What the host is asked: for an abbreviation at a space, for a hint where a
/// motion stands at the end of the line, and for candidates where completion
/// begins.
pub proof fn what_the_host_is_asked(line: Line, action: EditorAction, key: Key)
    ensures
        ({
            let ask = line.asks(action, key);
            let onward = action == EditorAction::ForwardChar || action == EditorAction::EndOfLine
                || action == EditorAction::ForwardWord;
            let lists = action == EditorAction::PossibleCompletions || action
                == EditorAction::InsertCompletions;
            &&& ask == Ask::Abbreviation <==> action == EditorAction::SelfInsert && key
                == Key::Char(' ')
            &&& ask == Ask::Hint <==> onward && line.cursor == line.buffer.len()
            &&& ask == Ask::Completion <==> lists || cycles(action) && line.menu is None
        }),
{
}

/// What a host's command left in the line stands in it; the cursor goes where
/// its byte offset says, back to the start of a character that the offset is
/// inside of, and no further than the end.
pub proof fn a_host_command_rewrites_the_line(line: Line, text: Seq<char>, bytes: int)
    requires
        bytes >= 0,
    ensures
        ({
            let l = line.rewritten(text, bytes);
            &&& l.buffer == text
            &&& 0 <= l.cursor <= text.len()
            &&& encode_utf8(text.take(l.cursor)).len() <= bytes
            &&& l.cursor < text.len() ==> encode_utf8(text.take(l.cursor + 1)).len() > bytes
            &&& l.fresh
            &&& l.hist_index == line.hist_index
            &&& text == line.buffer ==> l.undo == line.undo
        }),
{
    reveal(Line::booked);
    clamping_finds_the_word(text, bytes);
}

/// The external editor is the host's, else `$VISUAL`'s, else `$EDITOR`'s, else
/// `vi`; an empty variable counts as unset.
pub proof fn choosing_the_editor(
    host: Option<String>,
    visual: Option<String>,
    editor: Option<String>,
)
    ensures
        ({
            let chosen = editor_of(host, visual, editor);
            let by_visual = visual is Some && visual->0@.len() > 0;
            let by_editor = editor is Some && editor->0@.len() > 0;
            &&& host is Some ==> chosen == host->0@
            &&& host is None && by_visual ==> chosen == visual->0@
            &&& host is None && !by_visual && by_editor ==> chosen == editor->0@
            &&& host is None && !by_visual && !by_editor ==> chosen == seq!['v', 'i']
        }),
{
    reveal_strlit("vi");
    assert("vi"@ =~= seq!['v', 'i']);
}

/// What comes back from the editor loses the newlines at its end, and those
/// alone.
pub proof fn edited_text_comes_back(text: Seq<char>, n: nat)
    requires
        text.len() > 0 ==> text.last() != '\n',
    ensures
        without_final_newlines(text + Seq::new(n, |i: int| '\n')) == text,
    decreases n,
{
    let all = text + Seq::new(n, |i: int| '\n');
    if n == 0 {
        assert(all =~= text);
    } else {
        edited_text_comes_back(text, (n - 1) as nat);
        assert(all.last() == '\n');
        assert(all.drop_last() =~= text + Seq::new((n - 1) as nat, |i: int| '\n'));
    }
}

} // verus!
