//! History recall and prefix search.
use vstd::prelude::*;

use crate::act::Answer;
use crate::actions::EditorAction;
use crate::keys::Key;
use crate::laws::{rang, ringing_rings, starts, starts_is_occurring, stays};
use crate::line::Line;
use crate::recall::{edited, prefixed_before, prefixed_before_matches, prefixed_from};
use crate::ring::Ring;
use crate::text::occurs_at;

verus! {

/// The line after an action, as far as the line goes.
pub open spec fn after(
    line: Line,
    ring: Ring,
    action: EditorAction,
    key: Key,
    history: Seq<Seq<char>>,
    answer: Answer,
) -> Line {
    line.acted(ring, action, key, history, answer).0
}

/// Entry `j` has not been edited on this line.
pub open spec fn untouched(line: Line, j: int) -> bool {
    forall|k: int| 0 <= k < line.edits.len() ==> (#[trigger] line.edits[k]).0 != j
}

/// The line shows entry `j` as it stands in the history, the cursor behind it.
pub open spec fn shows(line: Line, history: Seq<Seq<char>>, j: int) -> bool {
    &&& 0 <= j < history.len()
    &&& line.hist_index == Some(j)
    &&& line.buffer == history[j]
    &&& line.cursor == history[j].len()
}

/// What a prefix search looks for: what it looked for before, if the key before
/// was one too, else what stands before the cursor.
pub open spec fn sought_prefix(line: Line) -> Seq<char> {
    if line.anchored {
        line.prefix
    } else {
        line.buffer.take(line.cursor)
    }
}

proof fn not_edited(edits: Seq<(int, Seq<char>)>, j: int)
    requires
        forall|k: int| 0 <= k < edits.len() ==> (#[trigger] edits[k]).0 != j,
    ensures
        edited(edits, j) is None,
    decreases edits.len(),
{
    if edits.len() > 0 {
        assert(edits.last() == edits[edits.len() - 1]);
        assert forall|k: int| 0 <= k < edits.drop_last().len() implies (
        #[trigger] edits.drop_last()[k]).0 != j by {
            assert(edits.drop_last()[k] == edits[k]);
        }
        not_edited(edits.drop_last(), j);
    }
}

/// Showing another entry that was not edited shows it as it is.
pub(crate) proof fn showing_shows(line: Line, history: Seq<Seq<char>>, j: int)
    requires
        0 <= j < history.len(),
        line.hist_index != Some(j),
        untouched(line, j),
    ensures
        shows(line.showing(history, j), history, j),
        line.hist_index is None ==> line.showing(history, j).draft == line.buffer,
        line.hist_index is Some ==> line.showing(history, j).draft == line.draft,
{
    reveal(Line::showing);
    let s = line.stashed(history);
    assert forall|k: int| 0 <= k < s.edits.len() implies (#[trigger] s.edits[k]).0 != j by {
        if k < line.edits.len() {
            assert(s.edits[k] == line.edits[k]);
        }
    }
    not_edited(s.edits, j);
}

proof fn first_prefixed(
    history: Seq<Seq<char>>,
    from: int,
    prefix: Seq<char>,
    caseless: bool,
)
    requires
        0 <= from,
    ensures
        match prefixed_from(history, from, prefix, caseless) {
            Some(j) => from <= j < history.len() && starts(history[j], prefix, caseless) && (forall|
                k: int,
            |
                from <= k < j ==> !starts(#[trigger] history[k], prefix, caseless)),
            None => forall|k: int|
                from <= k < history.len() ==> !starts(#[trigger] history[k], prefix, caseless),
        },
    decreases history.len() - from,
{
    if from < history.len() {
        at_start(history[from], prefix, caseless);
        if !occurs_at(history[from], prefix, 0, caseless) {
            first_prefixed(history, from + 1, prefix, caseless);
        }
    }
}

proof fn at_start(s: Seq<char>, p: Seq<char>, caseless: bool)
    ensures
        starts(s, p, caseless) == occurs_at(s, p, 0, caseless),
{
    starts_is_occurring(s, p, 0, caseless);
    assert(s.skip(0) =~= s);
}

/// A forward prefix search from an entry lands on the next entry that begins
/// with the prefix: none between does. When none after it does, the live line
/// is back.
pub proof fn a_forward_prefix_search_finds_the_next(
    line: Line,
    ring: Ring,
    key: Key,
    history: Seq<Seq<char>>,
    answer: Answer,
    i: int,
)
    requires
        line.wf(history),
        line.hist_index == Some(i),
    ensures
        ({
            let l = after(line, ring, EditorAction::HistorySearchForward, key, history, answer);
            let p = sought_prefix(line);
            let caseless = line.cfg.search_ignore_case;
            &&& l.anchored && l.prefix == p
            &&& match l.hist_index {
                Some(j) => {
                    &&& i < j < history.len()
                    &&& starts(history[j], p, caseless)
                    &&& forall|k: int| i < k < j ==> !starts(#[trigger] history[k], p, caseless)
                    &&& untouched(line, j) ==> shows(l, history, j)
                },
                None => {
                    &&& forall|k: int|
                        i < k < history.len() ==> !starts(#[trigger] history[k], p, caseless)
                    &&& l.buffer == line.draft
                    &&& l.cursor == line.draft.len()
                },
            }
        }),
{
    reveal(Line::acted);
    reveal(Line::changed);
    reveal(Line::prefix_newer);
    reveal(Line::live);
    reveal(Line::showing);
    let a = line.anchor();
    let p = sought_prefix(line);
    first_prefixed(history, i + 1, p, line.cfg.search_ignore_case);
    if let Some(j) = prefixed_from(history, i + 1, p, line.cfg.search_ignore_case) {
        if untouched(line, j) {
            assert(untouched(a, j));
            showing_shows(a, history, j);
        }
    }
}

/// From the live line there is nothing newer: the text stays.
pub proof fn a_forward_prefix_search_from_the_live_line_stays(
    line: Line,
    ring: Ring,
    key: Key,
    history: Seq<Seq<char>>,
    answer: Answer,
)
    requires
        line.hist_index is None,
    ensures
        stays(line, after(line, ring, EditorAction::HistorySearchForward, key, history, answer)),
        rang(line, after(line, ring, EditorAction::HistorySearchForward, key, history, answer)),
{
    ringing_rings(line.anchor());
    reveal(Line::acted);
    reveal(Line::changed);
    reveal(Line::prefix_newer);
    reveal(Line::rung);
}

/// A backward prefix search lands on the newest entry before the place shown
/// that begins with the prefix and says something new. When there is none the
/// line stays. Leaving the live line keeps it as the draft.
pub proof fn a_backward_prefix_search_finds_the_newest_before(
    line: Line,
    ring: Ring,
    key: Key,
    history: Seq<Seq<char>>,
    answer: Answer,
)
    requires
        line.wf(history),
    ensures
        ({
            let l = after(line, ring, EditorAction::HistorySearchBackward, key, history, answer);
            let p = sought_prefix(line);
            let caseless = line.cfg.search_ignore_case;
            let below = match line.hist_index {
                Some(i) => i,
                None => history.len() as int,
            };
            &&& l.anchored && l.prefix == p
            &&& (exists|k: int|
                0 <= k < below && starts(#[trigger] history[k], p, caseless) && history[k]
                    != line.buffer) ==> (l.hist_index matches Some(j) && 0 <= j < below && starts(
                history[j],
                p,
                caseless,
            ) && history[j] != line.buffer && (forall|k: int|
                j < k < below && starts(#[trigger] history[k], p, caseless) ==> history[k]
                    == line.buffer) && (untouched(line, j) ==> shows(l, history, j)) && l.draft
                == (if line.hist_index is None {
                line.buffer
            } else {
                line.draft
            }))
            &&& !(exists|k: int|
                0 <= k < below && starts(#[trigger] history[k], p, caseless) && history[k]
                    != line.buffer) ==> stays(line, l) && rang(line, l)
        }),
{
    ringing_rings(line.anchor());
    reveal(Line::acted);
    reveal(Line::changed);
    reveal(Line::prefix_older);
    reveal(Line::rung);
    reveal(Line::showing);
    let a = line.anchor();
    let p = sought_prefix(line);
    let caseless = line.cfg.search_ignore_case;
    let below = match line.hist_index {
        Some(i) => i,
        None => history.len() as int,
    };
    prefixed_before_matches(history, below, p, line.buffer, caseless);
    assert forall|k: int| 0 <= k < below implies starts(#[trigger] history[k], p, caseless)
        == occurs_at(history[k], p, 0, caseless) by {
        at_start(history[k], p, caseless);
    }
    last_prefixed_is_new(history, below, p, line.buffer, caseless);
    if let Some(j) = prefixed_before(history, below, p, line.buffer, caseless) {
        assert(starts(history[j], p, caseless));
        if untouched(line, j) {
            assert(untouched(a, j));
            showing_shows(a, history, j);
        }
    }
}

proof fn last_prefixed_is_new(
    history: Seq<Seq<char>>,
    below: int,
    prefix: Seq<char>,
    buffer: Seq<char>,
    caseless: bool,
)
    ensures
        prefixed_before(history, below, prefix, buffer, caseless) matches Some(j) ==> history[j]
            != buffer,
    decreases below,
{
    if 0 < below <= history.len() {
        last_prefixed_is_new(history, below - 1, prefix, buffer, caseless);
    }
}

/// A prefix search backward and then forward comes back to the text it left.
pub proof fn a_prefix_search_comes_back(
    line: Line,
    ring: Ring,
    key: Key,
    history: Seq<Seq<char>>,
    answer: Answer,
)
    requires
        line.wf(history),
        line.edits.len() == 0,
        line.hist_index matches Some(i) ==> line.buffer == history[i] && starts(
            history[i],
            sought_prefix(line),
            line.cfg.search_ignore_case,
        ),
    ensures
        ({
            let up = after(line, ring, EditorAction::HistorySearchBackward, key, history, answer);
            let down = after(up, ring, EditorAction::HistorySearchForward, key, history, answer);
            up.hist_index != line.hist_index ==> down.buffer == line.buffer
        }),
{
    reveal(Line::acted);
    reveal(Line::changed);
    reveal(Line::prefix_older);
    reveal(Line::rung);
    reveal(Line::showing);
    a_backward_prefix_search_finds_the_newest_before(line, ring, key, history, answer);
    let up = after(line, ring, EditorAction::HistorySearchBackward, key, history, answer);
    if up.hist_index != line.hist_index {
        let j = up.hist_index->0;
        assert(up.wf(history));
        assert(up.edits.len() == 0) by {
            let a = line.anchor();
            assert(a.stashed(history).edits.len() == 0);
        }
        a_forward_prefix_search_finds_the_next(up, ring, key, history, answer, j);
        let down = after(up, ring, EditorAction::HistorySearchForward, key, history, answer);
        assert(up.cfg == line.cfg);
    }
}

/// Up shows the entry before: from the live line, which is kept as the draft,
/// the newest. At the oldest entry the line stays.
pub proof fn up_shows_the_entry_before(
    line: Line,
    ring: Ring,
    key: Key,
    history: Seq<Seq<char>>,
    answer: Answer,
)
    requires
        line.wf(history),
    ensures
        ({
            let l = after(line, ring, EditorAction::PreviousHistory, key, history, answer);
            let at = match line.hist_index {
                Some(i) => i,
                None => history.len() as int,
            };
            &&& at == 0 ==> stays(line, l) && rang(line, l)
            &&& at > 0 ==> l.hist_index == Some(at - 1)
            &&& at > 0 && untouched(line, at - 1) ==> shows(l, history, at - 1)
            &&& at > 0 && line.hist_index is None ==> l.draft == line.buffer
        }),
{
    reveal(Line::acted);
    reveal(Line::changed);
    reveal(Line::older);
    ringing_rings(line);
    reveal(Line::showing);
    let at = match line.hist_index {
        Some(i) => i,
        None => history.len() as int,
    };
    if at > 0 && untouched(line, at - 1) {
        showing_shows(line, history, at - 1);
    }
}

/// Down shows the entry after, and after the newest the draft. On the live line
/// nothing changes.
pub proof fn down_shows_the_entry_after(
    line: Line,
    ring: Ring,
    key: Key,
    history: Seq<Seq<char>>,
    answer: Answer,
)
    requires
        line.wf(history),
    ensures
        ({
            let l = after(line, ring, EditorAction::NextHistory, key, history, answer);
            match line.hist_index {
                None => stays(line, l) && rang(line, l),
                Some(i) => if i + 1 < history.len() {
                    &&& l.hist_index == Some(i + 1)
                    &&& untouched(line, i + 1) ==> shows(l, history, i + 1)
                } else {
                    &&& l.hist_index is None
                    &&& l.buffer == line.draft
                    &&& l.cursor == line.draft.len()
                },
            }
        }),
{
    reveal(Line::acted);
    reveal(Line::changed);
    reveal(Line::newer);
    reveal(Line::live);
    ringing_rings(line);
    reveal(Line::showing);
    if let Some(i) = line.hist_index {
        if i + 1 < history.len() && untouched(line, i + 1) {
            showing_shows(line, history, i + 1);
        }
    }
}

/// M-< shows the oldest entry, M-> the live line.
pub proof fn the_ends_of_the_history(
    line: Line,
    ring: Ring,
    key: Key,
    history: Seq<Seq<char>>,
    answer: Answer,
)
    requires
        line.wf(history),
    ensures
        ({
            let first = after(line, ring, EditorAction::BeginningOfHistory, key, history, answer);
            let last = after(line, ring, EditorAction::EndOfHistory, key, history, answer);
            &&& history.len() == 0 ==> stays(line, first)
            &&& history.len() > 0 ==> first.hist_index == Some(0int)
            &&& history.len() > 0 && line.hist_index != Some(0int) && untouched(line, 0) ==> shows(
                first,
                history,
                0,
            )
            &&& line.hist_index is None ==> stays(line, last)
            &&& line.hist_index is Some ==> last.hist_index is None && last.buffer == line.draft
                && last.cursor == line.draft.len()
        }),
{
    reveal(Line::acted);
    reveal(Line::changed);
    reveal(Line::oldest);
    reveal(Line::live);
    reveal(Line::showing);
    if history.len() > 0 && line.hist_index != Some(0int) && untouched(line, 0) {
        showing_shows(line, history, 0);
    }
}

/// What is typed over a recalled entry is there again when the entry is.
pub proof fn an_edited_entry_is_remembered(
    line: Line,
    ring: Ring,
    key: Key,
    history: Seq<Seq<char>>,
    answer: Answer,
    i: int,
)
    requires
        line.wf(history),
        line.hist_index == Some(i),
        i > 0,
    ensures
        ({
            let up = after(line, ring, EditorAction::PreviousHistory, key, history, answer);
            after(up, ring, EditorAction::NextHistory, key, history, answer).buffer == line.buffer
        }),
{
    reveal(Line::acted);
    reveal(Line::changed);
    reveal(Line::older);
    reveal(Line::newer);
    crate::recall::edits_survive(line, history, i, i - 1);
    reveal(Line::showing);
}

} // verus!
