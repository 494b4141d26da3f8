//! What one read leaves to the next: the history entry that
//! operate-and-get-next asked for, and nothing after an ordinary line.
use vstd::prelude::*;

use crate::act::{AfterKey, Answer};
use crate::actions::EditorAction;
use crate::decoder::Event;
use crate::edit::CaseOp;
use crate::editor::{begun, located_has_the_text, Kept, ReadEnd};
use crate::hints::Known;
use crate::hooks::{Choice, Hooks};
use crate::keys::Key;
use crate::line::{Action, EditorConfig, Line, Menu, Pending};
use crate::ring::Ring;
use crate::session::{repainted, taken, took, Reading, Todo};
use crate::step::{stepped_on, Bound, Verb};
use crate::text::texts;

verus! {

// What the commands do to a line leaves alone what the line has asked for:
// first the commands one by one, as far as others are made of them, then the
// rest by their kind, and at last all that an action, a vi key, a search key or
// a pending key can come to.
broadcast proof fn rung_keeps_next(l: Line)
    ensures
        #[trigger] l.rung().next == l.next,
{
    reveal(Line::rung);
}

broadcast proof fn undone_keeps_next(l: Line)
    ensures
        #[trigger] l.undone().next == l.next,
{
    reveal(Line::undone);
}

broadcast proof fn killed_keeps_next(l: Line, ring: Ring, start: int, end: int, forward: bool)
    ensures
        #[trigger] l.killed(ring, start, end, forward).0.next == l.next,
{
    reveal(Line::killed);
}

broadcast proof fn showing_keeps_next(l: Line, history: Seq<Seq<char>>, i: int)
    ensures
        #[trigger] l.showing(history, i).next == l.next,
{
    reveal(Line::showing);
}

broadcast proof fn live_keeps_next(l: Line, history: Seq<Seq<char>>)
    ensures
        #[trigger] l.live(history).next == l.next,
{
    reveal(Line::live);
}

broadcast proof fn older_keeps_next(l: Line, history: Seq<Seq<char>>)
    ensures
        #[trigger] l.older(history).next == l.next,
{
    broadcast use {rung_keeps_next, showing_keeps_next};

    reveal(Line::older);
}

broadcast proof fn newer_keeps_next(l: Line, history: Seq<Seq<char>>)
    ensures
        #[trigger] l.newer(history).next == l.next,
{
    broadcast use {rung_keeps_next, showing_keeps_next, live_keeps_next};

    reveal(Line::newer);
}

broadcast proof fn printed_keeps_next(l: Line, menu: Menu, arm: bool)
    ensures
        #[trigger] l.printed(menu, arm).next == l.next,
{
    reveal(Line::printed);
}

broadcast proof fn listed_keeps_next(l: Line, menu: Menu, arm: bool)
    ensures
        #[trigger] l.listed(menu, arm).next == l.next,
{
    broadcast use printed_keeps_next;

    reveal(Line::listed);
    reveal(Line::left);
}

broadcast proof fn completed_keeps_next(l: Line, start: int, c: Seq<Choice>)
    ensures
        #[trigger] l.completed(start, c).next == l.next,
{
    broadcast use {rung_keeps_next, listed_keeps_next};

    reveal(Line::completed);
    reveal(Line::typed);
}

broadcast proof fn cycled_keeps_next(l: Line, forward: bool)
    ensures
        #[trigger] l.cycled(forward).next == l.next,
{
    reveal(Line::cycled);
}

broadcast proof fn menu_begun_keeps_next(l: Line, start: int, c: Seq<Choice>, forward: bool)
    ensures
        #[trigger] l.menu_begun(start, c, forward).next == l.next,
{
    broadcast use {rung_keeps_next, cycled_keeps_next};

    reveal(Line::menu_begun);
}

broadcast proof fn operated_keeps_next(
    l: Line,
    ring: Ring,
    op: char,
    start: int,
    end: int,
    forward: bool,
)
    ensures
        #[trigger] l.operated(ring, op, start, end, forward).0.next == l.next,
{
    broadcast use killed_keeps_next;

    reveal(Line::operated);
}

broadcast proof fn operated_to_keeps_next(
    l: Line,
    ring: Ring,
    op: char,
    target: int,
    inclusive: bool,
)
    ensures
        #[trigger] l.operated_to(ring, op, target, inclusive).0.next == l.next,
{
    broadcast use operated_keeps_next;

    reveal(Line::operated_to);
}

broadcast proof fn moved_keeps_next(
    l: Line,
    ring: Ring,
    op: Option<char>,
    target: int,
    inclusive: bool,
)
    ensures
        #[trigger] l.moved(ring, op, target, inclusive).0.next == l.next,
{
    broadcast use operated_to_keeps_next;

    reveal(Line::moved);
}

broadcast proof fn replaced_keeps_next(l: Line, key: Key)
    ensures
        #[trigger] l.replaced(key).next == l.next,
{
    broadcast use rung_keeps_next;

    reveal(Line::replaced);
}

broadcast proof fn found_keeps_next(l: Line, ring: Ring, kind: char, key: Key)
    ensures
        #[trigger] l.found(ring, kind, key).0.next == l.next,
{
    broadcast use {rung_keeps_next, moved_keeps_next};

    reveal(Line::found);
}

broadcast proof fn object_keeps_next(l: Line, ring: Ring, kind: char, key: Key)
    ensures
        #[trigger] l.object(ring, kind, key).0.next == l.next,
{
    broadcast use operated_keeps_next;

    reveal(Line::object);
}

broadcast proof fn pasted_keeps_next(l: Line, ring: Ring, at: int, n: int)
    ensures
        #[trigger] l.pasted(ring, at, n).next == l.next,
{
    reveal(Line::pasted);
}

broadcast proof fn case_flipped_keeps_next(l: Line, n: int)
    ensures
        #[trigger] l.case_flipped(n).next == l.next,
{
    reveal(Line::case_flipped);
}

broadcast proof fn fetched_keeps_next(l: Line, history: Seq<Seq<char>>, count: int)
    ensures
        #[trigger] l.fetched(history, count).next == l.next,
{
    broadcast use {rung_keeps_next, showing_keeps_next};

    reveal(Line::fetched);
}

broadcast proof fn linewise_keeps_next(l: Line, ring: Ring, op: char)
    ensures
        #[trigger] l.linewise(ring, op).0.next == l.next,
{
    broadcast use killed_keeps_next;

    reveal(Line::linewise);
}

broadcast proof fn counted_keeps_next(l: Line, c: char)
    ensures
        #[trigger] l.counted(c).next == l.next,
{
    reveal(Line::counted);
}

broadcast proof fn vi_command_keeps_next(l: Line, ring: Ring, key: Key, history: Seq<Seq<char>>)
    ensures
        #[trigger] l.vi_command(ring, key, history).0.next == l.next,
{
    broadcast use {
        rung_keeps_next,
        killed_keeps_next,
        undone_keeps_next,
        older_keeps_next,
        newer_keeps_next,
        pasted_keeps_next,
        case_flipped_keeps_next,
        fetched_keeps_next,
        linewise_keeps_next,
    };

    reveal(Line::vi_command);
}

broadcast proof fn vi_key_keeps_next(l: Line, ring: Ring, key: Key, history: Seq<Seq<char>>)
    ensures
        #[trigger] l.vi_key(ring, key, history).0.next == l.next,
{
    broadcast use {
        moved_keeps_next,
        replaced_keeps_next,
        found_keeps_next,
        object_keeps_next,
        vi_command_keeps_next,
        counted_keeps_next,
    };

    reveal(Line::vi_key);
}

broadcast proof fn possible_keeps_next(l: Line, start: int, c: Seq<Choice>)
    ensures
        #[trigger] l.possible(start, c).next == l.next,
{
    broadcast use {rung_keeps_next, listed_keeps_next};

    reveal(Line::possible);
}

broadcast proof fn all_inserted_keeps_next(l: Line, start: int, c: Seq<Choice>)
    ensures
        #[trigger] l.all_inserted(start, c).next == l.next,
{
    broadcast use rung_keeps_next;

    reveal(Line::all_inserted);
}

broadcast proof fn tabbed_keeps_next(l: Line, answer: Answer)
    ensures
        #[trigger] l.tabbed(answer).next == l.next,
{
    broadcast use {completed_keeps_next, cycled_keeps_next, menu_begun_keeps_next};

    reveal(Line::tabbed);
}

broadcast proof fn menu_tabbed_keeps_next(l: Line, answer: Answer, forward: bool)
    ensures
        #[trigger] l.menu_tabbed(answer, forward).next == l.next,
{
    broadcast use {cycled_keeps_next, menu_begun_keeps_next};

    reveal(Line::menu_tabbed);
}

proof fn edits_keep_next(l: Line, ring: Ring, op: CaseOp, history: Seq<Seq<char>>)
    ensures
        l.rubbed_out().next == l.next,
        l.deleted().next == l.next,
        l.closed_up().next == l.next,
        l.yanked(ring).next == l.next,
        l.rotated(ring).next == l.next,
        l.undone().next == l.next,
        l.reverted().next == l.next,
        l.transposed().next == l.next,
        l.words_transposed().next == l.next,
        l.recased(op).next == l.next,
        l.with_last_word(history).next == l.next,
        l.backward_char().next == l.next,
{
    reveal(Line::rubbed_out);
    reveal(Line::deleted);
    reveal(Line::closed_up);
    reveal(Line::yanked);
    reveal(Line::rotated);
    reveal(Line::undone);
    reveal(Line::reverted);
    reveal(Line::transposed);
    reveal(Line::words_transposed);
    reveal(Line::recased);
    reveal(Line::with_last_word);
    reveal(Line::backward_char);
}

proof fn recalls_keep_next(l: Line, history: Seq<Seq<char>>, forward: bool)
    ensures
        l.older(history).next == l.next,
        l.newer(history).next == l.next,
        l.oldest(history).next == l.next,
        l.live(history).next == l.next,
        l.prefix_older(history).next == l.next,
        l.prefix_newer(history).next == l.next,
        l.searching(forward, history).next == l.next,
{
    reveal(Line::rung);
    reveal(Line::showing);
    reveal(Line::live);
    reveal(Line::older);
    reveal(Line::newer);
    reveal(Line::oldest);
    reveal(Line::prefix_older);
    reveal(Line::prefix_newer);
    reveal(Line::searching);
}

proof fn hints_keep_next(l: Line, key: Key, answer: Answer)
    ensures
        l.self_inserted(key, answer).next == l.next,
        l.forward_char(answer).next == l.next,
        l.end_of_line(answer).next == l.next,
        l.forward_word(answer).next == l.next,
{
    reveal(Line::typed);
    reveal(Line::expanded);
    reveal(Line::self_inserted);
    reveal(Line::forward_char);
    reveal(Line::end_of_line);
    reveal(Line::forward_word);
}

proof fn change_keeps_next(
    l: Line,
    ring: Ring,
    action: EditorAction,
    key: Key,
    history: Seq<Seq<char>>,
    answer: Answer,
)
    ensures
        l.changed(ring, action, key, history, answer).next == l.next,
{
    reveal(Line::changed);
    match action {
        EditorAction::SelfInsert | EditorAction::ForwardChar | EditorAction::EndOfLine
        | EditorAction::ForwardWord => hints_keep_next(l, key, answer),
        EditorAction::UpcaseWord => edits_keep_next(l, ring, CaseOp::Upper, history),
        EditorAction::DowncaseWord => edits_keep_next(l, ring, CaseOp::Lower, history),
        EditorAction::CapitalizeWord => edits_keep_next(l, ring, CaseOp::Capital, history),
        EditorAction::ReverseSearchHistory => recalls_keep_next(l, history, false),
        EditorAction::ForwardSearchHistory => recalls_keep_next(l, history, true),
        EditorAction::PreviousHistory | EditorAction::NextHistory
        | EditorAction::BeginningOfHistory | EditorAction::EndOfHistory
        | EditorAction::HistorySearchBackward
        | EditorAction::HistorySearchForward => recalls_keep_next(l, history, true),
        EditorAction::Complete => tabbed_keeps_next(l, answer),
        EditorAction::MenuComplete => menu_tabbed_keeps_next(l, answer, true),
        EditorAction::MenuCompleteBackward => menu_tabbed_keeps_next(l, answer, false),
        EditorAction::PossibleCompletions => possible_keeps_next(
            l,
            l.word_start(answer),
            answer.completion().1,
        ),
        EditorAction::InsertCompletions => all_inserted_keeps_next(
            l,
            l.word_start(answer),
            answer.completion().1,
        ),
        _ => edits_keep_next(l, ring, CaseOp::Upper, history),
    }
}

proof fn search_keeps_next(l: Line, event: Event, history: Seq<Seq<char>>)
    ensures
        l.searched(event, history).0.next == l.next,
{
    reveal(Line::searched);
    reveal(Line::rung);
    reveal(Line::sought);
    reveal(Line::landed);
    reveal(Line::narrowed);
    reveal(Line::search_key);
}

proof fn resumed_keeps_next(l: Line, event: Event)
    ensures
        l.resumed(event).0.next == l.next,
{
    reveal(Line::resumed);
    reveal(Line::rung);
    reveal(Line::typed);
    reveal(Line::undone);
    reveal(Line::printed);
    reveal(Line::list_answered);
    reveal(Line::at_char);
    reveal(Line::chorded);
    reveal(Line::quoted_in);
    reveal(Line::sought_out);
}

/// The event is a key that runs operate-and-get-next.
pub open spec fn gets_next(line: Line, bindings: Seq<(Key, Bound)>, event: Event) -> bool {
    &&& line.search is None
    &&& line.pending == Pending::Nothing
    &&& event matches Event::Key(key) && line.verb(bindings, key) == Verb::Run(
        EditorAction::OperateAndGetNext,
    )
}

/// Operate-and-get-next accepts the line, and asks for the entry after the one
/// it shows. No other event asks for an entry, or takes back what was asked
/// for.
pub proof fn only_get_next_asks(
    line: Line,
    ring: Ring,
    bindings: Seq<(Key, Bound)>,
    event: Event,
    history: Seq<Seq<char>>,
    answer: Answer,
)
    ensures
        ({
            let (l, r, after) = line.stepped(ring, bindings, event, history, answer);
            if gets_next(line, bindings, event) {
                &&& after == AfterKey::Accept
                &&& l.buffer == line.buffer
                &&& l.next == match line.hist_index {
                    Some(i) => if i + 1 < history.len() {
                        Some(i + 1)
                    } else {
                        None
                    },
                    None => None,
                }
            } else {
                l.next == line.next
            }
        }),
{
    reveal(Line::stepped);
    if line.search is Some {
        search_keeps_next(line, event, history);
    } else {
        let l = Line { this_action: Action::Other, ..line };
        let (m, r, after) = l.handled(ring, bindings, event, history, answer);
        if line.pending != Pending::Nothing {
            resumed_keeps_next(l, event);
        } else {
            match event {
                Event::Key(key) => done_keeps_next(
                    l,
                    ring,
                    l.verb(bindings, key),
                    key,
                    history,
                    answer,
                ),
                Event::Paste(text) => reveal(Line::pasted_in),
                Event::Literal(_) => {},
            }
            assert forall|key: Key| l.verb(bindings, key) == #[trigger] line.verb(
                bindings,
                key,
            ) by {}
        }
        assert(m.booked(line.buffer, line.cursor).next == m.next) by {
            reveal(Line::booked);
        }
    }
}

proof fn done_keeps_next(
    l: Line,
    ring: Ring,
    verb: Verb,
    key: Key,
    history: Seq<Seq<char>>,
    answer: Answer,
)
    ensures
        ({
            let (m, r, after) = l.done(ring, verb, key, history, answer);
            if verb == Verb::Run(EditorAction::OperateAndGetNext) {
                &&& after == AfterKey::Accept
                &&& m.buffer == l.buffer
                &&& m.next == match l.hist_index {
                    Some(i) => if i + 1 < history.len() {
                        Some(i + 1)
                    } else {
                        None
                    },
                    None => None,
                }
            } else {
                m.next == l.next
            }
        }),
{
    reveal(Line::done);
    let ready = l.readied(verb);
    match verb {
        Verb::Run(action) => {
            reveal(Line::acted);
            reveal(Line::getting_next);
            change_keeps_next(ready, ring, action, key, history, answer);
            if let Some((start, end, forward)) = ready.kill_of(action) {
                killed_keeps_next(ready, ring, start, end, forward);
            }
        },
        Verb::Vi => vi_key_keeps_next(ready, ring, key, history),
        Verb::Host(_) => reveal(Line::left),
        _ => {},
    }
}

/// A repaint changes nothing but what is written to the terminal, and where the
/// terminal is left.
pub proof fn a_repaint_only_writes<H: Hooks + ?Sized>(
    before: (Line, Known),
    history: Seq<String>,
    hooks: &H,
    after: (Line, Known),
)
    requires
        repainted(before, history, hooks, after),
    ensures
        after.0 == (Line {
            out: after.0.out,
            fresh: after.0.fresh,
            painted_rows: after.0.painted_rows,
            painted_cursor_row: after.0.painted_cursor_row,
            ..before.0
        }),
{
}

/// A line begins without having asked for an entry, and as long as the read
/// goes on it has not. A line that is entered leaves nothing to pre-load,
/// unless it was entered by operate-and-get-next.
pub proof fn an_ordinary_line_leaves_nothing<H: Hooks + ?Sized>(
    before: (Reading, Kept),
    bindings: Seq<(Key, Bound)>,
    event: Event,
    more: bool,
    history: Seq<String>,
    hooks: &H,
    after: (Reading, Kept, Todo),
)
    requires
        taken(before, bindings, event, more, history, hooks, after),
        before.0.line.next is None,
    ensures
        !(after.2 is Return) ==> after.0.line.next is None && after.1.next == before.1.next,
        after.2 matches Todo::Return(ReadEnd::Line(_)) ==> gets_next(
            before.0.line,
            bindings,
            event,
        ) || after.1.next is None,
{
    let (start, mid) = choose|start: (Line, Known), mid: (Line, Ring, Known, AfterKey)| #[trigger]
        took(before, bindings, event, more, history, hooks, start, mid, after);
    event_keeps_next(before, bindings, event, more, history, hooks, start, mid, after);
}

proof fn event_keeps_next<H: Hooks + ?Sized>(
    before: (Reading, Kept),
    bindings: Seq<(Key, Bound)>,
    event: Event,
    more: bool,
    history: Seq<String>,
    hooks: &H,
    start: (Line, Known),
    mid: (Line, Ring, Known, AfterKey),
    after: (Reading, Kept, Todo),
)
    requires
        took(before, bindings, event, more, history, hooks, start, mid, after),
    ensures
        ({
            let line = before.0.line;
            if gets_next(line, bindings, event) {
                &&& mid.3 == AfterKey::Accept
                &&& mid.0.buffer == line.buffer
                &&& mid.0.next == match line.hist_index {
                    Some(i) => if i + 1 < history.len() {
                        Some(i + 1)
                    } else {
                        None
                    },
                    None => None,
                }
            } else {
                mid.0.next == line.next
            }
        }),
        mid.3 == AfterKey::Done || mid.3 is Host || mid.3 == AfterKey::External
            ==> after.0.line.next == mid.0.next,
{
    let line = before.0.line;
    if start != (line, before.0.hints) {
        a_repaint_only_writes((line, before.0.hints), history, hooks, start);
    }
    assert forall|key: Key| start.0.verb(bindings, key) == #[trigger] line.verb(bindings, key) by {}
    let answer = choose|answer: Answer| #[trigger]
        stepped_on(
            (start.0, before.1.ring, start.1),
            bindings,
            event,
            history,
            hooks,
            answer,
            mid,
        );
    only_get_next_asks(start.0, before.1.ring, bindings, event, texts(history), answer);
    if mid.3 == AfterKey::Done && after.0.line != mid.0 {
        a_repaint_only_writes((mid.0, mid.2), history, hooks, (after.0.line, after.0.hints));
    }
    reveal(Line::left);
}

/// A host command, whatever it leaves in the line, asks for nothing either.
pub proof fn a_host_command_asks_for_nothing(line: Line, text: Seq<char>, bytes: int)
    ensures
        line.rewritten(text, bytes).next == line.next,
{
    reveal(Line::booked);
}

/// The read after an ordinary line begins empty.
pub proof fn a_read_after_enter_begins_empty<H: Hooks + ?Sized>(
    before: (Reading, Kept),
    bindings: Seq<(Key, Bound)>,
    event: Event,
    more: bool,
    history: Seq<String>,
    hooks: &H,
    after: (Reading, Kept, Todo),
    prompt: Seq<char>,
    rprompt: Seq<char>,
    cols: int,
    vi: bool,
    cfg: EditorConfig,
    later: Seq<Seq<char>>,
)
    requires
        taken(before, bindings, event, more, history, hooks, after),
        before.0.line.next is None,
        after.2 matches Todo::Return(ReadEnd::Line(_)),
        !gets_next(before.0.line, bindings, event),
    ensures
        ({
            let line = begun(prompt, rprompt, cols, vi, cfg, None, after.1.next, later);
            &&& line.buffer == Seq::<char>::empty()
            &&& line.cursor == 0
            &&& line.hist_index is None
            &&& line.next is None
        }),
{
    an_ordinary_line_leaves_nothing(before, bindings, event, more, history, hooks, after);
}

/// Operate-and-get-next returns the line, and the read after it begins with the
/// entry after the one that was shown, wherever that is in the history by then.
pub proof fn a_read_after_get_next_begins_with_the_next_entry<H: Hooks + ?Sized>(
    before: (Reading, Kept),
    bindings: Seq<(Key, Bound)>,
    event: Event,
    more: bool,
    history: Seq<String>,
    hooks: &H,
    after: (Reading, Kept, Todo),
    i: int,
    prompt: Seq<char>,
    rprompt: Seq<char>,
    cols: int,
    vi: bool,
    cfg: EditorConfig,
    later: Seq<Seq<char>>,
)
    requires
        taken(before, bindings, event, more, history, hooks, after),
        gets_next(before.0.line, bindings, event),
        before.0.line.hist_index == Some(i),
        0 <= i < history.len() - 1,
        later.contains(history[i + 1]@),
    ensures
        after.2 == Todo::Return(ReadEnd::Line(before.0.line.buffer)),
        ({
            let line = begun(prompt, rprompt, cols, vi, cfg, None, after.1.next, later);
            &&& line.buffer == history[i + 1]@
            &&& line.cursor == line.buffer.len()
            &&& line.hist_index matches Some(j) && 0 <= j < later.len() && later[j] == line.buffer
            &&& line.next is None
        }),
{
    let (start, mid) = choose|start: (Line, Known), mid: (Line, Ring, Known, AfterKey)| #[trigger]
        took(before, bindings, event, more, history, hooks, start, mid, after);
    event_keeps_next(before, bindings, event, more, history, hooks, start, mid, after);
    assert(texts(history)[i + 1] == history[i + 1]@);
    located_has_the_text(later, i + 1, history[i + 1]@);
}

} // verus!
