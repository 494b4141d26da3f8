//! What else is written to the terminal around a line: the search prompt, and
//! the way out of the line.
use vstd::prelude::*;

use crate::act::Answer;
use crate::actions::EditorAction;
use crate::keys::Key;
use crate::laws::repaint::{
    across, erasing, face, face_is_shown, plain_shows, plain_width, region_start, the_paint_starts,
    wrapping_settles,
};
use crate::laws::screen::{
    drawn, is_plain, is_whole, run, run_add, run_plain, run_with_number, tame, tame_is_whole,
    typed, typing_fills, wide, wide_is_not_negative, Screen,
};
use crate::laws::stays;
use crate::line::Line;
use crate::paint::forced_wrap;
use crate::ring::Ring;
use crate::width::visualized;

verus! {

/// A text with its control characters spelled out, and tabs as four spaces.
pub open spec fn spelled(s: Seq<char>) -> Seq<char>
    decreases s.len(),
{
    if s.len() == 0 {
        Seq::empty()
    } else {
        face(s[0], 4) + spelled(s.skip(1))
    }
}

proof fn spelling_goes_on(s: Seq<char>, c: char)
    ensures
        spelled(s.push(c)) == spelled(s) + face(c, 4),
    decreases s.len(),
{
    let all = s.push(c);
    if s.len() == 0 {
        assert(all.skip(1) =~= s);
        assert(spelled(all) =~= spelled(s) + face(c, 4));
    } else {
        assert(all.skip(1) =~= s.skip(1).push(c));
        spelling_goes_on(s.skip(1), c);
        assert(spelled(all) =~= spelled(s) + face(c, 4));
    }
}

proof fn spelled_is_visualized(s: Seq<char>)
    ensures
        spelled(s) == visualized(s),
        is_plain(spelled(s)),
    decreases s.len(),
{
    if s.len() > 0 {
        let front = s.drop_last();
        spelled_is_visualized(front);
        assert(front.push(s.last()) =~= s);
        spelling_goes_on(front, s.last());
        face_is_shown(s.last(), 4);
        plain_add(spelled(front), face(s.last(), 4));
    }
}

proof fn plain_add(a: Seq<char>, b: Seq<char>)
    requires
        is_plain(a),
        is_plain(b),
    ensures
        is_plain(a + b),
{
    assert forall|k: int| 0 <= k < (a + b).len() implies (#[trigger] (a + b)[k]) as u32 >= 0x20 && (
    a + b)[k] != '\x7f' by {
        if k < a.len() {
            assert((a + b)[k] == a[k]);
        } else {
            assert((a + b)[k] == b[k - a.len()]);
        }
    }
}

/// What a search says it is doing.
pub open spec fn says(forward: bool, failed: bool) -> Seq<char> {
    match (forward, failed) {
        (true, false) => "(i-search)`"@,
        (true, true) => "(failed i-search)`"@,
        (false, false) => "(reverse-i-search)`"@,
        (false, true) => "(failed reverse-i-search)`"@,
    }
}

/// What is seen of a search: what it is doing, its query, and the entry that it
/// found.
pub open spec fn search_seen(line: Line, history: Seq<Seq<char>>) -> Seq<char> {
    let s = line.search->0;
    says(s.forward, s.failed) + spelled(s.query) + "': "@ + (match s.hit {
        Some(i) => spelled(history[i]),
        None => Seq::empty(),
    })
}

proof fn saying_is_plain(forward: bool, failed: bool)
    ensures
        is_plain(says(forward, failed)),
        is_plain("': "@),
{
    reveal_strlit("(i-search)`");
    reveal_strlit("(failed i-search)`");
    reveal_strlit("(reverse-i-search)`");
    reveal_strlit("(failed reverse-i-search)`");
    reveal_strlit("': ");
}

proof fn the_search_is_seen(line: Line, history: Seq<Seq<char>>)
    requires
        line.search is Some,
    ensures
        line.search_prompt(history) == search_seen(line, history),
        is_plain(search_seen(line, history)),
{
    let s = line.search->0;
    let found = match s.hit {
        Some(i) => history[i],
        None => Seq::empty(),
    };
    saying_is_plain(s.forward, s.failed);
    spelled_is_visualized(s.query);
    spelled_is_visualized(found);
    plain_add(says(s.forward, s.failed), spelled(s.query));
    plain_add(says(s.forward, s.failed) + spelled(s.query), "': "@);
    plain_add(says(s.forward, s.failed) + spelled(s.query) + "': "@, spelled(found));
}

/// While a search goes on, a repaint shows the search in place of the line:
/// from the region's first cell on, with the cursor behind it and nothing else
/// left. The rows it counts are those it filled.
pub proof fn a_search_is_shown(
    line: Line,
    history: Seq<Seq<char>>,
    hint: Seq<char>,
    highlighted: Seq<char>,
    st: Screen,
)
    requires
        line.search is Some,
        line.painted_cursor_row >= 0,
        tame(line.head, true),
        line.head.len() > 0 ==> line.head.last() == '\n',
        st.cols == across(line),
        wide(search_seen(line, history)) <= usize::MAX,
    ensures
        ({
            let l = line.painted(history, hint, highlighted);
            let text = l.out.skip(line.out.len() as int);
            let end = run(st, text);
            let top = region_start(line, st).row;
            let first = top * st.cols;
            let all = search_seen(line, history);
            let at = wide(all);
            &&& l.out == line.out + text
            &&& stays(line, l)
            &&& !l.fresh
            &&& l.painted_rows == at / st.cols + 1
            &&& l.painted_cursor_row == at / st.cols
            &&& end.row == top + at / st.cols
            &&& end.col == at % st.cols
            &&& forall|q: int|
                0 <= q < at ==> (#[trigger] (end.cells)(first + q)).0 == drawn(all, q)
            &&& forall|q: int| q >= at ==> (#[trigger] (end.cells)(first + q)).0 is None
            &&& forall|p: int|
                p < first ==> (#[trigger] (end.cells)(p)) == (region_start(line, st).cells)(p)
        }),
{
    let all = search_seen(line, history);
    let at = wide(all);
    let cols = line.columns();
    let l = line.painted(history, hint, highlighted);
    let text = l.out.skip(line.out.len() as int);
    the_search_is_seen(line, history);
    plain_width(all);
    wide_is_not_negative(all);
    the_paint_starts(line, st);
    let start = region_start(line, st);
    let wrap = forced_wrap(at, cols);
    assert(text =~= line.paint_start() + all + wrap + "\x1b[J"@);
    run_plain(start, all, Seq::empty());
    assert(all + Seq::<char>::empty() =~= all);
    plain_shows(all);
    tame_is_whole(all, false);
    typing_fills(start, all);
    let shown = typed(start, all);
    wrapping_settles(shown, start.row, cols, at);
    let there = run(shown, wrap);
    erasing(there);
    run_add(st, line.paint_start(), all);
    run_add(st, line.paint_start() + all, wrap);
    run_add(st, line.paint_start() + all + wrap, "\x1b[J"@);
    let end = run(st, text);
    assert(end == there.obeyed(seq!['\x1b', '[', 'J']));
    let first = start.row * cols;
    vstd::arithmetic::div_mod::lemma_fundamental_div_mod(at, cols);
    assert(there.row * cols + there.col == first + at) by (nonlinear_arith)
        requires
            there.row == start.row + at / cols,
            there.col == at % cols,
            at == cols * (at / cols) + at % cols,
            first == start.row * cols,
    ;
    assert(seq!['\x1b', '[', 'J'].last() == 'J');
    assert forall|p: int| #[trigger] (end.cells)(p) == (if p >= first + at {
        (None, false)
    } else {
        (shown.cells)(p)
    }) by {}
}

/// Leaving a line moves the terminal's cursor to the start of the row below all
/// that was painted, and changes nothing on the screen.
pub proof fn leaving_goes_below(line: Line, st: Screen)
    requires
        0 <= line.painted_cursor_row < line.painted_rows,
    ensures
        ({
            let l = line.left();
            let text = l.out.skip(line.out.len() as int);
            let end = run(st, text);
            &&& l.out == line.out + text
            &&& stays(line, l)
            &&& end.row == st.row - line.painted_cursor_row + line.painted_rows
            &&& end.col == 0
            &&& end.cells == st.cells
        }),
{
    reveal(Line::left);
    let l = line.left();
    let text = l.out.skip(line.out.len() as int);
    let down = line.painted_rows - 1 - line.painted_cursor_row;
    reveal_strlit("\x1b[");
    reveal_strlit("B\n");
    reveal_strlit("\n");
    let nl = seq!['\n'];
    assert("\n"@ =~= nl);
    assert("\x1b["@ =~= seq!['\x1b', '[']);
    assert("B\n"@ =~= seq!['B'] + nl);
    assert forall|t: Screen| #[trigger] run(t, nl) == (Screen {
        row: t.row + 1,
        col: 0,
        ..t
    }) by {
        assert(nl.skip(1) =~= Seq::<char>::empty());
        reveal_with_fuel(run, 2);
    }
    assert(is_whole(nl)) by {
        assert(nl.skip(1) =~= Seq::<char>::empty());
        reveal_with_fuel(is_whole, 2);
    }
    if down > 0 {
        let n = crate::text::decimal(down as nat);
        let go = seq!['\x1b', '['] + n + seq!['B'];
        run_with_number(st, down as nat, 'B');
        assert(text =~= go + nl);
        run_add(st, go, nl);
    } else {
        assert(text =~= nl);
    }
}

/// Clearing the screen begins a new region, and leaves the line alone.
pub proof fn clearing_begins_anew(
    line: Line,
    ring: Ring,
    key: Key,
    history: Seq<Seq<char>>,
    answer: Answer,
)
    ensures
        ({
            let (l, r, _) = line.acted(ring, EditorAction::ClearScreen, key, history, answer);
            &&& stays(line, l)
            &&& r == ring
            &&& l.fresh
            &&& l.painted_rows == 1
            &&& l.painted_cursor_row == 0
            &&& l.out == line.out + "\x1b[2J\x1b[H"@
        }),
{
    reveal(Line::acted);
    reveal(Line::changed);
}

} // verus!
