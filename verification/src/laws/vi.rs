//! vi normal mode: motions, operators, text objects, and the small edits.
use vstd::prelude::*;

use crate::keys::Key;
use crate::laws::{
    blank, cut, is_quiet, killing_cuts, pushing_stacks, rang, ringing_rings, same_kind, stacked,
    stays,
};
use crate::line::{Action, Line};
use crate::ring::Ring;
use crate::text::{first_index, last_index};
use crate::unicode::{lower_mapping, upper_mapping, uppercase};
use crate::vi::{
    closed_after, closed_before, flipped, found_n, matching, partner, repeated, word_object,
};
use crate::words::{
    find_target, inverted, run_end, run_end_bounds, run_start, run_start_bounds,
    vi_class_of, vi_end_of_word, vi_next_word, vi_previous_word, word_moved, words_moved, Class,
    WordMotion,
};

verus! {

/// Normal mode, with no key waited for.
pub open spec fn ready(line: Line) -> bool {
    &&& !line.vi_replace
    &&& line.vi_object is None
    &&& line.vi_find is None
    &&& line.inside()
    &&& line.vi_count >= 0
}

/// The count that was typed; 1 without one.
pub open spec fn times(line: Line) -> int {
    if line.vi_count == 0 {
        1
    } else {
        line.vi_count
    }
}

/// Count and operator are used up.
pub open spec fn is_settled(line: Line) -> bool {
    line.vi_count == 0 && line.vi_op is None
}

/// A key moved the cursor, and did nothing else.
pub open spec fn only_moved(before: Line, ring: Ring, after: (Line, Ring)) -> bool {
    &&& after.0.buffer == before.buffer
    &&& after.0.hist_index == before.hist_index
    &&& after.0.vi_normal == before.vi_normal
    &&& after.1 == ring
    &&& is_settled(after.0)
}

/// The smaller of two numbers.
pub open spec fn least(a: int, b: int) -> int {
    if a <= b {
        a
    } else {
        b
    }
}

/// The larger of two numbers.
pub open spec fn most(a: int, b: int) -> int {
    if a >= b {
        a
    } else {
        b
    }
}

/// `w` leads from `pos` to `t`: over the rest of the word, and over blanks.
pub open spec fn to_next_word(s: Seq<char>, pos: int, t: int) -> bool {
    if pos >= s.len() {
        t == s.len()
    } else {
        exists|m: int|
            {
                &&& #[trigger] ends_kind(s, pos, m)
                &&& m <= t <= s.len()
                &&& forall|k: int| m <= k < t ==> blank(#[trigger] s[k])
                &&& t < s.len() ==> !blank(s[t])
            }
    }
}

/// The characters from `pos` up to `m` are of one kind, and there are no more.
pub open spec fn ends_kind(s: Seq<char>, pos: int, m: int) -> bool {
    &&& pos < m <= s.len()
    &&& forall|k: int| pos <= k < m ==> same_kind(#[trigger] s[k], s[pos])
    &&& m < s.len() ==> !same_kind(s[m], s[pos])
}

/// The characters from `m` up to `pos` are of one kind, and there are no more.
pub open spec fn begins_kind(s: Seq<char>, m: int, pos: int) -> bool {
    &&& 0 <= m < pos
    &&& forall|k: int| m <= k < pos ==> same_kind(#[trigger] s[k], s[pos - 1])
    &&& m > 0 ==> !same_kind(s[m - 1], s[pos - 1])
}

/// `b` leads from `pos` to `t`: back over blanks, and over the word before.
pub open spec fn to_previous_word(s: Seq<char>, pos: int, t: int) -> bool {
    ||| t == 0 && (forall|k: int| 0 <= k < pos ==> blank(#[trigger] s[k]))
    ||| exists|m: int|
        {
            &&& #[trigger] begins_kind(s, t, m)
            &&& m <= pos
            &&& !blank(s[m - 1])
            &&& forall|k: int| m <= k < pos ==> blank(#[trigger] s[k])
        }
}

/// `e` leads from `pos` to `t`: over blanks, if it must, to the last character
/// of a word; nowhere where no word follows.
pub open spec fn to_word_end(s: Seq<char>, pos: int, t: int) -> bool {
    ||| t == pos && (forall|k: int| pos < k < s.len() ==> blank(#[trigger] s[k]))
    ||| exists|m: int|
        {
            &&& #[trigger] ends_kind(s, m, t + 1)
            &&& pos < m
            &&& !blank(s[m])
            &&& forall|k: int| pos < k < m ==> blank(#[trigger] s[k])
        }
}

proof fn run_is_kind(s: Seq<char>, pos: int)
    requires
        0 <= pos < s.len(),
    ensures
        ends_kind(s, pos, run_end(s, pos, Class::Vi(vi_class_of(s[pos])))),
{
    let class = Class::Vi(vi_class_of(s[pos]));
    let m = run_end(s, pos, class);
    run_end_bounds(s, pos, class);
    run_end_bounds(s, pos + 1, class);
    assert forall|k: int| pos <= k < m implies same_kind(#[trigger] s[k], s[pos]) by {
        assert(class.has(s[k]));
    }
}

proof fn run_back_is_kind(s: Seq<char>, pos: int)
    requires
        0 < pos <= s.len(),
    ensures
        begins_kind(s, run_start(s, pos, Class::Vi(vi_class_of(s[pos - 1]))), pos),
{
    let class = Class::Vi(vi_class_of(s[pos - 1]));
    let m = run_start(s, pos, class);
    run_start_bounds(s, pos, class);
    run_start_bounds(s, pos - 1, class);
    assert forall|k: int| m <= k < pos implies same_kind(#[trigger] s[k], s[pos - 1]) by {
        assert(class.has(s[k]));
    }
}

proof fn next_word_is_next(s: Seq<char>, pos: int)
    requires
        0 <= pos <= s.len(),
    ensures
        to_next_word(s, pos, vi_next_word(s, pos)),
        pos <= vi_next_word(s, pos) <= s.len(),
{
    if pos < s.len() {
        run_is_kind(s, pos);
        let m = run_end(s, pos, Class::Vi(vi_class_of(s[pos])));
        run_end_bounds(s, m, Class::Vi(0));
        let t = vi_next_word(s, pos);
        assert forall|k: int| m <= k < t implies blank(#[trigger] s[k]) by {
            assert(Class::Vi(0).has(s[k]));
        }
        assert(ends_kind(s, pos, m));
    }
}

proof fn previous_word_is_previous(s: Seq<char>, pos: int)
    requires
        0 <= pos <= s.len(),
    ensures
        to_previous_word(s, pos, vi_previous_word(s, pos)),
        0 <= vi_previous_word(s, pos) <= pos,
{
    let m = run_start(s, pos, Class::Vi(0));
    run_start_bounds(s, pos, Class::Vi(0));
    assert forall|k: int| m <= k < pos implies blank(#[trigger] s[k]) by {
        assert(Class::Vi(0).has(s[k]));
    }
    if m > 0 {
        run_back_is_kind(s, m);
        assert(begins_kind(s, vi_previous_word(s, pos), m));
    }
}

proof fn end_of_word_is_end(s: Seq<char>, pos: int)
    requires
        0 <= pos <= s.len(),
    ensures
        to_word_end(s, pos, vi_end_of_word(s, pos)),
        pos <= vi_end_of_word(s, pos) <= s.len(),
        pos < s.len() ==> vi_end_of_word(s, pos) < s.len(),
{
    if pos < s.len() {
        let m = run_end(s, pos + 1, Class::Vi(0));
        run_end_bounds(s, pos + 1, Class::Vi(0));
        assert forall|k: int| pos < k < m implies blank(#[trigger] s[k]) by {
            assert(Class::Vi(0).has(s[k]));
        }
        if m < s.len() {
            run_is_kind(s, m);
            assert(ends_kind(s, m, vi_end_of_word(s, pos) + 1));
        }
    }
}

/// The motions by characters: `h` and `l` go as far as the count says, or as the
/// line goes; `0` and `$` go to the ends, `^` to the first character that is not
/// blank.
pub proof fn motions_by_character(line: Line, ring: Ring, key: Key, history: Seq<Seq<char>>)
    requires
        ready(line),
        line.vi_op is None,
        key == Key::Left || key == Key::Backspace || key == Key::Char('h') || key == Key::Right
            || key == Key::Char('l') || key == Key::Char(' ') || key == Key::Home || key
            == Key::Char('0') && line.vi_count == 0 || key == Key::End || key == Key::Char('$')
            || key == Key::Char('^'),
    ensures
        ({
            let (l, r) = line.vi_key(ring, key, history);
            let s = line.buffer;
            &&& only_moved(line, ring, (l, r))
            &&& is_quiet(line, l)
            &&& l.cursor == (if key == Key::Left || key == Key::Backspace || key == Key::Char('h') {
                most(0, line.cursor - times(line))
            } else if key == Key::Right || key == Key::Char('l') || key == Key::Char(' ') {
                least(s.len() as int, line.cursor + times(line))
            } else if key == Key::Home || key == Key::Char('0') {
                0
            } else if key == Key::End || key == Key::Char('$') {
                s.len() as int
            } else {
                l.cursor
            })
            &&& key == Key::Char('^') ==> {
                ||| 0 <= l.cursor < s.len() && !blank(s[l.cursor]) && (forall|k: int|
                    0 <= k < l.cursor ==> blank(#[trigger] s[k]))
                ||| l.cursor == 0 && (forall|k: int| 0 <= k < s.len() ==> blank(#[trigger] s[k]))
            }
        }),
{
    reveal(Line::vi_key);
    reveal(Line::motion);
    reveal(Line::moved);
    let s = line.buffer;
    run_end_bounds(s, 0, Class::Blank);
    let m = run_end(s, 0, Class::Blank);
    assert forall|k: int| 0 <= k < m implies blank(#[trigger] s[k]) by {
        assert(Class::Blank.has(s[k]));
    }
}

/// The motions by words, one at a time: `w` to the next word, `b` to the start
/// of this one or the one before, `e` to the last character of this one or the
/// next.
#[verifier::rlimit(40)]
pub proof fn motions_by_word(line: Line, ring: Ring, key: Key, history: Seq<Seq<char>>)
    requires
        ready(line),
        line.vi_op is None,
        times(line) == 1,
    ensures
        ({
            let (l, r) = line.vi_key(ring, key, history);
            let s = line.buffer;
            &&& key == Key::Char('w') || key == Key::Char('W') ==> only_moved(line, ring, (l, r))
                && is_quiet(line, l) && to_next_word(s, line.cursor, l.cursor) && l.inside()
            &&& key == Key::Char('b') || key == Key::Char('B') ==> only_moved(line, ring, (l, r))
                && is_quiet(line, l) && to_previous_word(s, line.cursor, l.cursor) && l.inside()
            &&& key == Key::Char('e') || key == Key::Char('E') ==> only_moved(line, ring, (l, r))
                && is_quiet(line, l) && to_word_end(s, line.cursor, l.cursor) && l.inside()
        }),
{
    reveal(Line::vi_key);
    reveal(Line::motion);
    reveal(Line::moved);
    reveal_with_fuel(words_moved, 2);
    let s = line.buffer;
    next_word_is_next(s, line.cursor);
    previous_word_is_previous(s, line.cursor);
    end_of_word_is_end(s, line.cursor);
}

/// The same key so many times.
pub open spec fn pressed(
    line: Line,
    ring: Ring,
    key: Key,
    history: Seq<Seq<char>>,
    n: nat,
) -> Line
    decreases n,
{
    if n == 0 {
        line
    } else {
        pressed(line.vi_key(ring, key, history).0, ring, key, history, (n - 1) as nat)
    }
}

/// A motion that a count repeats.
pub open spec fn is_repeatable(key: Key) -> bool {
    ||| key == Key::Char('w') || key == Key::Char('W')
    ||| key == Key::Char('b') || key == Key::Char('B')
    ||| key == Key::Char('e') || key == Key::Char('E')
    ||| key == Key::Char('h') || key == Key::Left || key == Key::Backspace
    ||| key == Key::Char('l') || key == Key::Char(' ') || key == Key::Right
}

/// A count before a motion is that motion so many times over.
#[verifier::rlimit(40)]
pub proof fn a_count_repeats_a_motion(
    line: Line,
    ring: Ring,
    key: Key,
    history: Seq<Seq<char>>,
)
    requires
        ready(line),
        line.vi_op is None,
        line.vi_count > 0,
        is_repeatable(key),
    ensures
        line.vi_key(ring, key, history).0.cursor == pressed(
            Line { vi_count: 0, ..line },
            ring,
            key,
            history,
            line.vi_count as nat,
        ).cursor,
        only_moved(line, ring, line.vi_key(ring, key, history)),
{
    let start = Line { vi_count: 0, ..line };
    let n = line.vi_count as nat;
    reveal(Line::vi_key);
    reveal(Line::motion);
    reveal(Line::moved);
    if key == Key::Char('w') || key == Key::Char('W') {
        word_keys_add_up(start, ring, key, history, n, WordMotion::Forward);
    } else if key == Key::Char('b') || key == Key::Char('B') {
        word_keys_add_up(start, ring, key, history, n, WordMotion::Back);
    } else if key == Key::Char('e') || key == Key::Char('E') {
        word_keys_add_up(start, ring, key, history, n, WordMotion::End);
    } else {
        character_keys_add_up(start, ring, key, history, n);
    }
}

proof fn word_keys_add_up(
    line: Line,
    ring: Ring,
    key: Key,
    history: Seq<Seq<char>>,
    n: nat,
    motion: WordMotion,
)
    requires
        ready(line),
        line.vi_op is None,
        line.vi_count == 0,
        match motion {
            WordMotion::Forward => key == Key::Char('w') || key == Key::Char('W'),
            WordMotion::Back => key == Key::Char('b') || key == Key::Char('B'),
            WordMotion::End => key == Key::Char('e') || key == Key::Char('E'),
        },
    ensures
        pressed(line, ring, key, history, n).cursor == words_moved(
            line.buffer,
            line.cursor,
            n,
            motion,
        ),
    decreases n,
{
    if n > 0 {
        reveal(Line::vi_key);
        reveal(Line::motion);
        reveal(Line::moved);
        reveal_with_fuel(words_moved, 2);
        motions_by_word(line, ring, key, history);
        let next = line.vi_key(ring, key, history).0;
        assert(next.cursor == word_moved(line.buffer, line.cursor, motion));
        word_keys_add_up(next, ring, key, history, (n - 1) as nat, motion);
    }
}

proof fn character_keys_add_up(
    line: Line,
    ring: Ring,
    key: Key,
    history: Seq<Seq<char>>,
    n: nat,
)
    requires
        ready(line),
        line.vi_op is None,
        line.vi_count == 0,
        key == Key::Char('h') || key == Key::Left || key == Key::Backspace || key == Key::Char('l')
            || key == Key::Char(' ') || key == Key::Right,
    ensures
        pressed(line, ring, key, history, n).cursor == (if key == Key::Char('h') || key == Key::Left
            || key == Key::Backspace {
            most(0, line.cursor - n)
        } else {
            least(line.buffer.len() as int, line.cursor + n)
        }),
    decreases n,
{
    if n > 0 {
        motions_by_character(line, ring, key, history);
        let next = line.vi_key(ring, key, history).0;
        assert(ready(next) && next.vi_op is None && next.vi_count == 0) by {
            reveal(Line::vi_key);
            reveal(Line::motion);
            reveal(Line::moved);
        }
        character_keys_add_up(next, ring, key, history, (n - 1) as nat);
    }
}

/// An operator was applied to `lo..hi`: `d` cuts it out, `c` cuts it out and
/// goes on inserting, `y` copies it and goes to its start. An empty span changes
/// nothing but the mode.
pub open spec fn operates(
    before: Line,
    ring: Ring,
    op: char,
    after: (Line, Ring),
    lo: int,
    hi: int,
    forward: bool,
) -> bool {
    &&& is_settled(after.0)
    &&& after.0.vi_normal == (before.vi_normal && op != 'c')
    &&& if op == 'y' {
        if lo < hi {
            &&& after.0.buffer == before.buffer
            &&& after.0.cursor == lo
            &&& stacked(ring, after.1, before.buffer.subrange(lo, hi))
        } else {
            stays(before, after.0) && after.1 == ring
        }
    } else {
        cut(before, ring, after, lo, hi, forward)
    }
}

/// One of the three operators.
pub open spec fn is_operator(op: char) -> bool {
    op == 'd' || op == 'c' || op == 'y'
}

proof fn operating_operates(
    line: Line,
    ring: Ring,
    op: char,
    lo: int,
    hi: int,
    forward: bool,
)
    requires
        line.inside(),
        is_operator(op),
        is_settled(line),
        0 <= lo <= line.buffer.len(),
        hi <= line.buffer.len(),
        lo < hi || lo == line.cursor || hi == line.cursor,
        ring.max >= 0,
    ensures
        operates(line, ring, op, line.operated(ring, op, lo, hi, forward), lo, hi, forward),
        is_quiet(line, line.operated(ring, op, lo, hi, forward).0),
{
    reveal(Line::operated);
    killing_cuts(line, ring, lo, hi, forward);
    if lo < hi {
        pushing_stacks(ring, line.buffer.subrange(lo, hi));
    }
}

/// A motion whose target is part of what an operator takes.
pub open spec fn takes_its_target(line: Line, key: Key) -> bool {
    ||| key == Key::Char('e') || key == Key::Char('E') || key == Key::Char('%')
    ||| key == Key::Char(';') && (line.last_find matches Some((kind, _)) && (kind == 'f' || kind
        == 't'))
    ||| key == Key::Char(',') && (line.last_find matches Some((kind, _)) && (kind == 'F' || kind
        == 'T'))
}

/// A motion that always leads somewhere.
pub open spec fn is_sure_motion(line: Line, key: Key) -> bool {
    ||| is_repeatable(key)
    ||| key == Key::Home || key == Key::End || key == Key::Char('^') || key == Key::Char('$')
    ||| key == Key::Char('0') && line.vi_count == 0
}

/// A motion that may fail.
pub open spec fn is_unsure_motion(key: Key) -> bool {
    key == Key::Char('%') || key == Key::Char(';') || key == Key::Char(',')
}

/// A key that is a motion goes where the motion leads.
proof fn a_motion_key_moves(line: Line, ring: Ring, key: Key, history: Seq<Seq<char>>)
    requires
        ready(line),
        line.motion(key, line.vi_times()) is Some,
        key == Key::Char('0') ==> line.vi_count == 0,
    ensures
        ({
            let (t, inclusive) = line.motion(key, line.vi_times())->0;
            &&& line.vi_key(ring, key, history) == line.vi_settled().moved(
                ring,
                line.vi_op,
                t,
                inclusive,
            )
            &&& line.vi_op is None ==> line.vi_key(ring, key, history) == (
                Line { cursor: t, ..line.vi_settled() },
                ring,
            )
            &&& line.vi_op matches Some(op) ==> line.vi_key(ring, key, history)
                == line.vi_settled().operated_to(ring, op, t, inclusive)
        }),
{
    reveal(Line::vi_key);
    reveal(Line::moved);
}

#[verifier::rlimit(40)]
proof fn an_operator_takes_the_span(
    line: Line,
    ring: Ring,
    op: char,
    target: int,
    inclusive: bool,
)
    requires
        line.inside(),
        is_operator(op),
        is_settled(line),
        0 <= target <= line.buffer.len(),
        ring.max >= 0,
    ensures
        ({
            let hi = most(line.cursor, target);
            let end = if inclusive {
                least(hi + 1, line.buffer.len() as int)
            } else {
                hi
            };
            operates(
                line,
                ring,
                op,
                line.operated_to(ring, op, target, inclusive),
                least(line.cursor, target),
                end,
                target >= line.cursor,
            )
        }),
{
    reveal(Line::operated_to);
    let hi = most(line.cursor, target);
    let end = if inclusive {
        least(hi + 1, line.buffer.len() as int)
    } else {
        hi
    };
    operating_operates(
        line,
        ring,
        op,
        least(line.cursor, target),
        end,
        target >= line.cursor,
    );
}

/// What a motion key does without the operator, and where the motion of the
/// operator leads.
proof fn a_motion_leads_alike(line: Line, op: char, key: Key, alone: Key)
    requires
        ready(line),
        line.vi_op == Some(op),
        is_sure_motion(line, key) || is_unsure_motion(key),
        alone == (if op == 'c' && (key == Key::Char('w') || key == Key::Char('W')) {
            Key::Char('e')
        } else {
            key
        }),
        is_unsure_motion(key) ==> (line.last_find matches Some((kind, _)) ==> is_find(kind)),
    ensures
        line.motion(key, line.vi_times()) == (Line { vi_op: None, ..line }).motion(
            alone,
            line.vi_times(),
        ),
        is_sure_motion(line, key) ==> line.motion(key, line.vi_times()) is Some,
        line.motion(key, line.vi_times()) matches Some((t, inclusive)) ==> 0 <= t
            <= line.buffer.len() && inclusive == takes_its_target(line, alone),
        is_unsure_motion(key) ==> (line.motion(key, line.vi_times()) matches Some((t, _)) ==> t
            != line.cursor),
{
    reveal(Line::motion);
    if is_unsure_motion(key) {
        unsure_motions_stay_inside(line, key);
    } else {
        sure_motions_stay_inside(line, key);
    }
}

proof fn a_failed_motion_stays(line: Line, ring: Ring, key: Key, history: Seq<Seq<char>>)
    requires
        ready(line),
        is_unsure_motion(key),
        line.motion(key, line.vi_times()) is None,
    ensures
        ({
            let (l, r) = line.vi_key(ring, key, history);
            stays(line, l) && r == ring && is_settled(l)
        }),
{
    reveal(Line::vi_key);
    reveal(Line::vi_command);
    ringing_rings(line.vi_settled());
}

/// An operator over a motion takes what the motion alone moves the cursor over,
/// and, where the motion takes its target, the character it leads to. `cw` takes
/// what `ce` does. A motion that leads nowhere is no span.
#[verifier::rlimit(40)]
pub proof fn an_operator_takes_what_the_motion_moves_over(
    line: Line,
    ring: Ring,
    op: char,
    key: Key,
    history: Seq<Seq<char>>,
)
    requires
        ready(line),
        line.vi_op == Some(op),
        is_operator(op),
        is_sure_motion(line, key) || is_unsure_motion(key),
        ring.max >= 0,
        is_unsure_motion(key) ==> (line.last_find matches Some((kind, _)) ==> is_find(kind)),
    ensures
        ({
            let alone = if op == 'c' && (key == Key::Char('w') || key == Key::Char('W')) {
                Key::Char('e')
            } else {
                key
            };
            let moved = Line { vi_op: None, ..line }.vi_key(ring, alone, history).0;
            let (l, r) = line.vi_key(ring, key, history);
            let lo = least(line.cursor, moved.cursor);
            let hi = most(line.cursor, moved.cursor);
            let end = if takes_its_target(line, alone) {
                least(hi + 1, line.buffer.len() as int)
            } else {
                hi
            };
            if is_unsure_motion(key) && moved.cursor == line.cursor {
                stays(line, l) && r == ring && is_settled(l)
            } else {
                operates(line, ring, op, (l, r), lo, end, moved.cursor >= line.cursor)
            }
        }),
{
    let alone = if op == 'c' && (key == Key::Char('w') || key == Key::Char('W')) {
        Key::Char('e')
    } else {
        key
    };
    let free = Line { vi_op: None, ..line };
    a_motion_leads_alike(line, op, key, alone);
    match line.motion(key, line.vi_times()) {
        Some((t, inclusive)) => {
            a_motion_key_moves(line, ring, key, history);
            a_motion_key_moves(free, ring, alone, history);
            an_operator_takes_the_span(line.vi_settled(), ring, op, t, inclusive);
        },
        None => {
            a_failed_motion_stays(line, ring, key, history);
            a_failed_motion_stays(free, ring, alone, history);
        },
    }
}

proof fn sure_motions_stay_inside(line: Line, key: Key)
    requires
        ready(line),
        is_sure_motion(line, key),
    ensures
        line.motion(key, line.vi_times()) matches Some((t, _)) && 0 <= t <= line.buffer.len(),
{
    reveal(Line::motion);
    let s = line.buffer;
    run_end_bounds(s, 0, Class::Blank);
    let n = line.vi_times() as nat;
    words_stay_inside(s, line.cursor, n, WordMotion::Forward);
    words_stay_inside(s, line.cursor, n, WordMotion::Back);
    words_stay_inside(s, line.cursor, n, WordMotion::End);
}

proof fn words_stay_inside(s: Seq<char>, pos: int, n: nat, motion: WordMotion)
    requires
        0 <= pos <= s.len(),
    ensures
        0 <= words_moved(s, pos, n, motion) <= s.len(),
        motion != WordMotion::Back ==> words_moved(s, pos, n, motion) >= pos,
    decreases n,
{
    if n > 0 {
        next_word_is_next(s, pos);
        previous_word_is_previous(s, pos);
        end_of_word_is_end(s, pos);
        words_stay_inside(s, word_moved(s, pos, motion), (n - 1) as nat, motion);
    }
}

pub(crate) proof fn index_facts(s: Seq<char>, from: int, c: char)
    requires
        0 <= from,
    ensures
        match first_index(s, from, c) {
            Some(i) => from <= i < s.len() && s[i] == c && (forall|k: int|
                from <= k < i ==> #[trigger] s[k] != c),
            None => forall|k: int| from <= k < s.len() ==> #[trigger] s[k] != c,
        },
    decreases s.len() - from,
{
    if from < s.len() && s[from] != c {
        index_facts(s, from + 1, c);
    }
}

pub(crate) proof fn last_index_facts(s: Seq<char>, to: int, c: char)
    requires
        0 <= to <= s.len(),
    ensures
        match last_index(s, to, c) {
            Some(i) => 0 <= i < to && s[i] == c && (forall|k: int|
                i < k < to ==> #[trigger] s[k] != c),
            None => forall|k: int| 0 <= k < to ==> #[trigger] s[k] != c,
        },
    decreases to,
{
    if to > 0 && s[to - 1] != c {
        last_index_facts(s, to - 1, c);
    }
}

/// The find `f`, `t`, `F` or `T` leads from `pos` to `t`: on the first `c` after
/// it, before that, on the last one before it, or behind that. It has to lead
/// away.
pub open spec fn leads(s: Seq<char>, pos: int, kind: char, c: char, t: int) -> bool {
    if kind == 'f' {
        pos < t < s.len() && s[t] == c && (forall|k: int| pos < k < t ==> #[trigger] s[k] != c)
    } else if kind == 't' {
        pos < t && t + 1 < s.len() && s[t + 1] == c && (forall|k: int|
            pos < k <= t ==> #[trigger] s[k] != c)
    } else if kind == 'F' {
        0 <= t < pos && s[t] == c && (forall|k: int| t < k < pos ==> #[trigger] s[k] != c)
    } else {
        0 < t < pos && s[t - 1] == c && (forall|k: int| t <= k < pos ==> #[trigger] s[k] != c)
    }
}

/// The find that looks the other way.
pub open spec fn other_way(kind: char) -> char {
    if kind == 'f' {
        'F'
    } else if kind == 'F' {
        'f'
    } else if kind == 't' {
        'T'
    } else {
        't'
    }
}

/// One of the four finds.
pub open spec fn is_find(kind: char) -> bool {
    kind == 'f' || kind == 'F' || kind == 't' || kind == 'T'
}

proof fn finding_leads(s: Seq<char>, pos: int, kind: char, c: char)
    requires
        0 <= pos <= s.len(),
        is_find(kind),
    ensures
        match find_target(s, pos, kind, c) {
            Some((t, inclusive)) => leads(s, pos, kind, c, t) && inclusive == (kind == 'f' || kind
                == 't'),
            None => forall|t: int| !leads(s, pos, kind, c, t),
        },
{
    index_facts(s, pos + 1, c);
    last_index_facts(s, pos, c);
    assert forall|t: int| find_target(s, pos, kind, c) is None implies !leads(
        s,
        pos,
        kind,
        c,
        t,
    ) by {
        if leads(s, pos, kind, c, t) {
            if kind == 'f' || kind == 't' {
                if let Some(i) = first_index(s, pos + 1, c) {
                    assert(s[i] == c);
                    assert(kind == 't');
                    assert(i == pos + 1);
                    assert(pos < i <= t);
                }
            } else {
                if let Some(i) = last_index(s, pos, c) {
                    assert(s[i] == c);
                    assert(kind == 'T');
                    assert(i == pos - 1);
                    assert(t <= i < pos);
                }
            }
        }
    }
}

/// A find, as its two keys.
pub open spec fn find_keys(
    line: Line,
    ring: Ring,
    kind: char,
    c: char,
    history: Seq<Seq<char>>,
) -> (Line, Ring) {
    line.vi_key(ring, Key::Char(kind), history).0.vi_key(ring, Key::Char(c), history)
}

/// What a line does with the second key of a find.
proof fn a_find_key_finds(line: Line, ring: Ring, kind: char, c: char, history: Seq<Seq<char>>)
    requires
        ready(line),
        is_find(kind),
    ensures
        ({
            let l = Line { last_find: Some((kind, c)), ..line.vi_settled() };
            let after = find_keys(line, ring, kind, c, history);
            match found_n(line.buffer, line.cursor, kind, c, line.vi_times() as nat) {
                Some((t, inclusive)) => match line.vi_op {
                    Some(op) => after == l.operated_to(ring, op, t, inclusive),
                    None => after == (Line { cursor: t, ..l }, ring),
                },
                None => after == (l.rung(), ring),
            }
        }),
{
    reveal(Line::found);
    reveal(Line::moved);
    let waiting = Line { vi_find: Some(kind), ..line };
    assert(line.vi_key(ring, Key::Char(kind), history) == (waiting, ring)) by {
        reveal(Line::vi_key);
        reveal(Line::motion);
    }
    assert(waiting.vi_key(ring, Key::Char(c), history) == waiting.found(
        ring,
        kind,
        Key::Char(c),
    )) by {
        reveal(Line::vi_key);
    }
    let l = Line { last_find: Some((kind, c)), ..line.vi_settled() };
    assert(l == (Line {
        last_find: Some((kind, c)),
        ..Line { vi_find: None, ..waiting.vi_settled() }
    }));
}

/// A find moves the cursor to its target, and an operator takes what lies
/// between, the target of `f` and `t` included. A find that leads nowhere rings
/// the bell. Either way it is remembered.
#[verifier::rlimit(40)]
pub proof fn a_find_leads_to_the_character(
    line: Line,
    ring: Ring,
    kind: char,
    c: char,
    history: Seq<Seq<char>>,
)
    requires
        ready(line),
        times(line) == 1,
        is_find(kind),
        line.vi_op matches Some(op) ==> is_operator(op),
        ring.max >= 0,
    ensures
        ({
            let (l, r) = find_keys(line, ring, kind, c, history);
            &&& l.last_find == Some((kind, c))
            &&& is_settled(l)
            &&& (forall|t: int| !leads(line.buffer, line.cursor, kind, c, t)) ==> stays(line, l)
                && r == ring && rang(line, l)
            &&& forall|t: int| #[trigger]
                leads(line.buffer, line.cursor, kind, c, t) ==> match line.vi_op {
                    None => only_moved(line, ring, (l, r)) && l.cursor == t && is_quiet(line, l),
                    Some(op) => if kind == 'f' || kind == 't' {
                        operates(line, ring, op, (l, r), line.cursor, t + 1, true)
                    } else {
                        operates(line, ring, op, (l, r), t, line.cursor, false)
                    },
                }
        }),
{
    let s = line.buffer;
    a_find_key_finds(line, ring, kind, c, history);
    finding_leads(s, line.cursor, kind, c);
    reveal_with_fuel(found_n, 2);
    let l = Line { last_find: Some((kind, c)), ..line.vi_settled() };
    ringing_rings(l);
    assert forall|t: int| #[trigger] leads(s, line.cursor, kind, c, t) implies find_target(
        s,
        line.cursor,
        kind,
        c,
    ) == Some((t, kind == 'f' || kind == 't')) by {
        let u = (find_target(s, line.cursor, kind, c)->0).0;
        leading_is_one(s, line.cursor, kind, c, t, u);
    }
    if let Some((t, inclusive)) = find_target(s, line.cursor, kind, c) {
        if let Some(op) = line.vi_op {
            an_operator_takes_the_span(l, ring, op, t, inclusive);
            operator_keeps_the_find(l, ring, op, t, inclusive);
        }
    }
}

proof fn cutting_keeps_the_find(line: Line, ring: Ring, lo: int, hi: int, forward: bool)
    ensures
        line.killed(ring, lo, hi, forward).0.last_find == line.last_find,
{
    reveal(Line::killed);
}

proof fn operating_keeps_the_find(
    line: Line,
    ring: Ring,
    op: char,
    lo: int,
    hi: int,
    forward: bool,
)
    ensures
        line.operated(ring, op, lo, hi, forward).0.last_find == line.last_find,
{
    reveal(Line::operated);
    cutting_keeps_the_find(line, ring, lo, hi, forward);
}

#[verifier::rlimit(40)]
proof fn operator_keeps_the_find(line: Line, ring: Ring, op: char, target: int, inclusive: bool)
    ensures
        line.operated_to(ring, op, target, inclusive).0.last_find == line.last_find,
{
    reveal(Line::operated_to);
    let end = if inclusive {
        least(most(line.cursor, target) + 1, line.buffer.len() as int)
    } else {
        most(line.cursor, target)
    };
    operating_keeps_the_find(
        line,
        ring,
        op,
        least(line.cursor, target),
        end,
        target >= line.cursor,
    );
}

proof fn leading_is_one(s: Seq<char>, pos: int, kind: char, c: char, t: int, u: int)
    requires
        leads(s, pos, kind, c, t),
        leads(s, pos, kind, c, u),
    ensures
        t == u,
{
    if kind == 'f' || kind == 'F' {
        assert(s[t] == c && s[u] == c);
    } else if kind == 't' {
        assert(s[t + 1] == c && s[u + 1] == c);
    } else {
        assert(s[t - 1] == c && s[u - 1] == c);
    }
}

/// A find with a count is one find, and then a find with one less; if any of
/// them leads nowhere the cursor stays.
#[verifier::rlimit(40)]
pub proof fn a_count_repeats_a_find(
    line: Line,
    ring: Ring,
    kind: char,
    c: char,
    history: Seq<Seq<char>>,
)
    requires
        ready(line),
        line.vi_op is None,
        line.vi_count >= 2,
        is_find(kind),
    ensures
        ({
            let all = find_keys(line, ring, kind, c, history).0;
            let one = find_keys(Line { vi_count: 1, ..line }, ring, kind, c, history).0;
            let rest = find_keys(
                Line { vi_count: line.vi_count - 1, cursor: one.cursor, ..line },
                ring,
                kind,
                c,
                history,
            ).0;
            all.cursor == (if one.cursor == line.cursor || rest.cursor == one.cursor {
                line.cursor
            } else {
                rest.cursor
            })
        }),
{
    let s = line.buffer;
    let n = line.vi_count as nat;
    let first = Line { vi_count: 1, ..line };
    let one = find_keys(first, ring, kind, c, history).0;
    let then = Line { vi_count: line.vi_count - 1, cursor: one.cursor, ..line };
    a_find_key_finds(line, ring, kind, c, history);
    a_find_key_finds(first, ring, kind, c, history);
    finding_leads(s, line.cursor, kind, c);
    reveal_with_fuel(found_n, 2);
    ringing_rings(Line { last_find: Some((kind, c)), ..first.vi_settled() });
    ringing_rings(Line { last_find: Some((kind, c)), ..line.vi_settled() });
    if let Some((t, inclusive)) = find_target(s, line.cursor, kind, c) {
        assert(one.cursor == t);
        a_find_key_finds(then, ring, kind, c, history);
        ringing_rings(Line { last_find: Some((kind, c)), ..then.vi_settled() });
        found_leads_away(s, t, kind, c, (n - 1) as nat);
    }
}

proof fn found_leads_away(s: Seq<char>, pos: int, kind: char, c: char, n: nat)
    requires
        0 <= pos <= s.len(),
        is_find(kind),
    ensures
        found_n(s, pos, kind, c, n) matches Some((t, _)) ==> t != pos && 0 <= t < s.len() && (t
            > pos <==> kind == 'f' || kind == 't'),
    decreases n,
{
    finding_leads(s, pos, kind, c);
    if let Some((t, _)) = find_target(s, pos, kind, c) {
        if n > 1 {
            found_leads_away(s, t, kind, c, (n - 1) as nat);
        }
    }
}

/// `;` finds as the last find did, and `,` the other way; without a last find
/// they ring the bell.
#[verifier::rlimit(40)]
pub proof fn a_find_is_repeated(
    line: Line,
    ring: Ring,
    key: Key,
    kind: char,
    c: char,
    history: Seq<Seq<char>>,
)
    requires
        ready(line),
        line.vi_op is None,
        times(line) == 1,
        is_find(kind),
        key == Key::Char(';') || key == Key::Char(','),
        line.last_find matches Some(last) ==> last == (kind, c),
    ensures
        ({
            let l = line.vi_key(ring, key, history).0;
            let way = if key == Key::Char(';') {
                kind
            } else {
                other_way(kind)
            };
            &&& l.last_find == line.last_find
            &&& line.last_find is None ==> stays(line, l) && rang(line, l)
            &&& line.last_find is Some ==> l.cursor == find_keys(
                line,
                ring,
                way,
                c,
                history,
            ).0.cursor && l.buffer == line.buffer
        }),
{
    reveal(Line::vi_key);
    reveal(Line::motion);
    reveal(Line::found);
    reveal(Line::moved);
    reveal(Line::vi_command);
    reveal_with_fuel(found_n, 2);
    ringing_rings(line.vi_settled());
    let way = if key == Key::Char(';') {
        kind
    } else {
        other_way(kind)
    };
    let waiting = Line { vi_find: Some(way), ..line };
    ringing_rings(Line {
        last_find: Some((way, c)),
        ..Line { vi_find: None, ..waiting.vi_settled() }
    });
}

/// How often a character stands in `a..b`.
pub open spec fn occurrences(s: Seq<char>, a: int, b: int, c: char) -> int
    decreases b - a,
{
    if a >= b {
        0
    } else {
        occurrences(s, a, b - 1, c) + if s[b - 1] == c {
            1int
        } else {
            0int
        }
    }
}

/// The brackets at `a` and `b` match: between them every bracket of the kind is
/// closed inside.
pub open spec fn brackets_match(s: Seq<char>, a: int, b: int) -> bool {
    let (open, close) = (s[a], s[b]);
    &&& 0 <= a < b < s.len()
    &&& open == '(' && close == ')' || open == '[' && close == ']' || open == '{' && close == '}'
    &&& occurrences(s, a, b + 1, open) == occurrences(s, a, b + 1, close)
    &&& forall|m: int|
        a < m <= b ==> #[trigger] occurrences(s, a, m, open) > occurrences(s, a, m, close)
}

/// A bracket.
pub open spec fn is_bracket(c: char) -> bool {
    c == '(' || c == ')' || c == '[' || c == ']' || c == '{' || c == '}'
}

proof fn occurrences_add(s: Seq<char>, a: int, m: int, b: int, c: char)
    requires
        a <= m <= b,
    ensures
        occurrences(s, a, b, c) == occurrences(s, a, m, c) + occurrences(s, m, b, c),
    decreases b - m,
{
    if m < b {
        occurrences_add(s, a, m, b - 1, c);
    }
}

/// Walking on from `k` at some depth.
proof fn closing_is_first(s: Seq<char>, a: int, k: int, own: char, other: char)
    requires
        0 <= a <= k <= s.len(),
        own != other,
        forall|m: int| a < m <= k ==> #[trigger] occurrences(s, a, m, own) > occurrences(
            s,
            a,
            m,
            other,
        ),
        k == a ==> a < s.len() && s[a] == own,
    ensures
        ({
            let depth = occurrences(s, a, k, own) - occurrences(s, a, k, other);
            match closed_after(s, k, own, other, depth) {
                Some(t) => {
                    &&& k <= t < s.len()
                    &&& a < t
                    &&& s[t] == other
                    &&& occurrences(s, a, t + 1, own) == occurrences(s, a, t + 1, other)
                    &&& forall|m: int|
                        a < m <= t ==> #[trigger] occurrences(s, a, m, own) > occurrences(
                            s,
                            a,
                            m,
                            other,
                        )
                },
                None => forall|m: int|
                    a < m <= s.len() ==> #[trigger] occurrences(s, a, m, own) > occurrences(
                        s,
                        a,
                        m,
                        other,
                    ),
            }
        }),
    decreases s.len() - k,
{
    if k < s.len() {
        let depth = occurrences(s, a, k, own) - occurrences(s, a, k, other);
        assert(occurrences(s, a, k + 1, own) == occurrences(s, a, k, own) + if s[k] == own {
            1int
        } else {
            0int
        });
        assert(occurrences(s, a, k + 1, other) == occurrences(s, a, k, other) + if s[k] == other {
            1int
        } else {
            0int
        });
        if k == a {
            assert(occurrences(s, a, a, own) == 0);
            assert(occurrences(s, a, a, other) == 0);
        }
        let d = occurrences(s, a, k + 1, own) - occurrences(s, a, k + 1, other);
        if d != 0 {
            assert forall|m: int| a < m <= k + 1 implies #[trigger] occurrences(s, a, m, own)
                > occurrences(s, a, m, other) by {}
            closing_is_first(s, a, k + 1, own, other);
        }
    }
}

/// Walking back from `k` at some depth.
proof fn opening_is_last(s: Seq<char>, b: int, k: int, own: char, other: char)
    requires
        0 <= k <= b + 1 <= s.len(),
        own != other,
        forall|m: int| k <= m <= b ==> #[trigger] occurrences(s, m, b + 1, own) > occurrences(
            s,
            m,
            b + 1,
            other,
        ),
        k == b + 1 ==> 0 <= b && s[b] == own,
    ensures
        ({
            let depth = occurrences(s, k, b + 1, own) - occurrences(s, k, b + 1, other);
            match closed_before(s, k, own, other, depth) {
                Some(t) => {
                    &&& 0 <= t < k
                    &&& t < b
                    &&& s[t] == other
                    &&& occurrences(s, t, b + 1, own) == occurrences(s, t, b + 1, other)
                    &&& forall|m: int|
                        t < m <= b ==> #[trigger] occurrences(s, m, b + 1, own) > occurrences(
                            s,
                            m,
                            b + 1,
                            other,
                        )
                },
                None => forall|m: int|
                    0 <= m <= b ==> #[trigger] occurrences(s, m, b + 1, own) > occurrences(
                        s,
                        m,
                        b + 1,
                        other,
                    ),
            }
        }),
    decreases k,
{
    if k > 0 {
        occurrences_add(s, k - 1, k, b + 1, own);
        occurrences_add(s, k - 1, k, b + 1, other);
        assert(occurrences(s, k - 1, k - 1, own) == 0 && occurrences(s, k - 1, k - 1, other) == 0);
        assert(occurrences(s, k - 1, k, own) == (if s[k - 1] == own {
            1int
        } else {
            0int
        }));
        assert(occurrences(s, k - 1, k, other) == (if s[k - 1] == other {
            1int
        } else {
            0int
        }));
        let d = occurrences(s, k - 1, b + 1, own) - occurrences(s, k - 1, b + 1, other);
        if k == b + 1 {
            assert(occurrences(s, k, b + 1, own) == 0 && occurrences(s, k, b + 1, other) == 0);
        }
        if d != 0 {
            assert forall|m: int| k - 1 <= m <= b implies #[trigger] occurrences(s, m, b + 1, own)
                > occurrences(s, m, b + 1, other) by {}
            opening_is_last(s, b, k - 1, own, other);
        }
    }
}

proof fn matching_matches(s: Seq<char>, pos: int)
    requires
        0 <= pos < s.len(),
        is_bracket(s[pos]),
    ensures
        match matching(s, pos) {
            Some(t) => 0 <= t < s.len() && (brackets_match(s, pos, t) || brackets_match(s, t, pos)),
            None => forall|t: int| !brackets_match(s, pos, t) && !brackets_match(s, t, pos),
        },
{
    let own = s[pos];
    let (other, forward) = partner(own)->0;
    if forward {
        assert(occurrences(s, pos, pos, own) == 0 && occurrences(s, pos, pos, other) == 0);
        closing_is_first(s, pos, pos, own, other);
        if matching(s, pos) is None {
            assert forall|t: int| !brackets_match(s, pos, t) && !brackets_match(s, t, pos) by {
                if brackets_match(s, pos, t) {
                    assert(occurrences(s, pos, t + 1, own) > occurrences(s, pos, t + 1, other));
                }
            }
        }
    } else {
        assert(occurrences(s, pos + 1, pos + 1, own) == 0 && occurrences(
            s,
            pos + 1,
            pos + 1,
            other,
        ) == 0);
        opening_is_last(s, pos, pos + 1, own, other);
        match matching(s, pos) {
            Some(t) => {
                assert forall|m: int| t < m <= pos implies #[trigger] occurrences(s, t, m, other)
                    > occurrences(s, t, m, own) by {
                    occurrences_add(s, t, m, pos + 1, own);
                    occurrences_add(s, t, m, pos + 1, other);
                    assert(occurrences(s, m, pos + 1, own) > occurrences(s, m, pos + 1, other));
                }
                assert(brackets_match(s, t, pos));
            },
            None => {
                assert forall|t: int| !brackets_match(s, pos, t) && !brackets_match(
                    s,
                    t,
                    pos,
                ) by {
                    if brackets_match(s, t, pos) {
                        assert(occurrences(s, t, pos + 1, own) > occurrences(
                            s,
                            t,
                            pos + 1,
                            other,
                        ));
                    }
                }
            },
        }
    }
}

proof fn matching_starts_at_the_first_bracket(s: Seq<char>, pos: int, b: int)
    requires
        0 <= pos <= b < s.len(),
        is_bracket(s[b]),
        forall|k: int| pos <= k < b ==> !is_bracket(#[trigger] s[k]),
    ensures
        matching(s, pos) == matching(s, b),
    decreases b - pos,
{
    if pos < b {
        assert(!is_bracket(s[pos]));
        matching_starts_at_the_first_bracket(s, pos + 1, b);
    }
}

proof fn no_bracket_no_match(s: Seq<char>, pos: int)
    requires
        0 <= pos <= s.len(),
        forall|k: int| pos <= k < s.len() ==> !is_bracket(#[trigger] s[k]),
    ensures
        matching(s, pos) is None,
    decreases s.len() - pos,
{
    if pos < s.len() {
        assert(!is_bracket(s[pos]));
        no_bracket_no_match(s, pos + 1);
    }
}

/// `%` leads from the first bracket at or after the cursor to the bracket that
/// matches it. Where there is none the cursor stays.
#[verifier::rlimit(40)]
pub proof fn the_matching_bracket_is_found(
    line: Line,
    ring: Ring,
    history: Seq<Seq<char>>,
    b: int,
)
    requires
        ready(line),
        line.vi_op is None,
        line.cursor <= b <= line.buffer.len(),
        b < line.buffer.len() ==> is_bracket(line.buffer[b]),
        forall|k: int| line.cursor <= k < b ==> !is_bracket(#[trigger] line.buffer[k]),
    ensures
        ({
            let (l, r) = line.vi_key(ring, Key::Char('%'), history);
            let s = line.buffer;
            &&& only_moved(line, ring, (l, r))
            &&& b == s.len() ==> l.cursor == line.cursor
            &&& b < s.len() ==> {
                ||| brackets_match(s, b, l.cursor)
                ||| brackets_match(s, l.cursor, b)
                ||| l.cursor == line.cursor && (forall|t: int|
                    !brackets_match(s, b, t) && !brackets_match(s, t, b))
            }
        }),
{
    reveal(Line::vi_key);
    reveal(Line::motion);
    reveal(Line::moved);
    reveal(Line::vi_command);
    let s = line.buffer;
    if b < s.len() {
        matching_starts_at_the_first_bracket(s, line.cursor, b);
        matching_matches(s, b);
    } else {
        no_bracket_no_match(s, line.cursor);
    }
}

proof fn unsure_motions_stay_inside(line: Line, key: Key)
    requires
        ready(line),
        is_unsure_motion(key),
        line.last_find matches Some((kind, _)) ==> is_find(kind),
    ensures
        line.motion(key, line.vi_times()) matches Some((t, inclusive)) ==> 0 <= t
            < line.buffer.len() && t != line.cursor && inclusive == takes_its_target(line, key),
{
    reveal(Line::motion);
    let s = line.buffer;
    if key == Key::Char('%') {
        if exists|b: int| line.cursor <= b < s.len() && is_bracket(#[trigger] s[b]) {
            let b = choose|b: int| line.cursor <= b < s.len() && is_bracket(#[trigger] s[b]);
            let first = first_bracket(s, line.cursor, b);
            matching_starts_at_the_first_bracket(s, line.cursor, first);
            matching_matches(s, first);
            percent_leads_away(s, line.cursor, first);
        } else {
            no_bracket_no_match(s, line.cursor);
        }
    } else {
        if let Some((kind, c)) = line.last_find {
            finding_leads(s, line.cursor, kind, c);
            finding_leads(s, line.cursor, inverted(kind), c);
        }
    }
}

proof fn first_bracket(s: Seq<char>, pos: int, b: int) -> (first: int)
    requires
        0 <= pos <= b < s.len(),
        is_bracket(s[b]),
    ensures
        pos <= first <= b,
        is_bracket(s[first]),
        forall|k: int| pos <= k < first ==> !is_bracket(#[trigger] s[k]),
    decreases b - pos,
{
    if is_bracket(s[pos]) {
        pos
    } else {
        first_bracket(s, pos + 1, b)
    }
}

/// A match that begins behind the cursor does not lead to the cursor.
proof fn percent_leads_away(s: Seq<char>, pos: int, first: int)
    requires
        0 <= pos <= first < s.len(),
        is_bracket(s[first]),
        forall|k: int| pos <= k < first ==> !is_bracket(#[trigger] s[k]),
    ensures
        matching(s, first) matches Some(t) ==> t != pos,
{
    matching_matches(s, first);
    if let Some(t) = matching(s, first) {
        if t == pos && pos < first {
            assert(!is_bracket(s[pos]));
        }
    }
}

/// `lo..hi` are the characters around `pos` of its kind, and no more.
pub open spec fn run_around(s: Seq<char>, pos: int, lo: int, hi: int) -> bool {
    &&& 0 <= lo <= pos < hi <= s.len()
    &&& forall|k: int| lo <= k < hi ==> same_kind(#[trigger] s[k], s[pos])
    &&& lo > 0 ==> !same_kind(s[lo - 1], s[pos])
    &&& hi < s.len() ==> !same_kind(s[hi], s[pos])
}

/// `lo..hi` are blank, and no more.
pub open spec fn all_blank(s: Seq<char>, lo: int, hi: int) -> bool {
    &&& 0 <= lo <= hi <= s.len()
    &&& forall|k: int| lo <= k < hi ==> blank(#[trigger] s[k])
}

/// The inner word at `pos` is `lo..hi`; with `around`, a word has the blanks
/// behind it as well, or, without any, those before it, and blanks have the word
/// behind them.
pub open spec fn object_at(s: Seq<char>, pos: int, around: bool, lo: int, hi: int) -> bool {
    exists|a: int, b: int|
        {
            &&& #[trigger] run_around(s, pos, a, b)
            &&& if !around {
                lo == a && hi == b
            } else if blank(s[pos]) {
                lo == a && (if b < s.len() {
                    ends_kind(s, b, hi)
                } else {
                    hi == b
                })
            } else if b < s.len() && blank(s[b]) {
                lo == a && all_blank(s, b, hi) && (hi < s.len() ==> !blank(s[hi]))
            } else {
                hi == b && all_blank(s, lo, a) && (lo > 0 ==> !blank(s[lo - 1]))
            }
        }
}

proof fn the_object_is_there(s: Seq<char>, pos: int, around: bool)
    requires
        0 <= pos < s.len(),
    ensures
        word_object(s, pos, around) matches Some((lo, hi)) && object_at(s, pos, around, lo, hi)
            && 0 <= lo <= pos < hi <= s.len(),
{
    let class = Class::Vi(vi_class_of(s[pos]));
    let a = run_start(s, pos, class);
    let b = run_end(s, pos, class);
    run_start_bounds(s, pos, class);
    run_end_bounds(s, pos, class);
    run_end_bounds(s, pos + 1, class);
    assert(run_around(s, pos, a, b)) by {
        assert forall|k: int| a <= k < b implies same_kind(#[trigger] s[k], s[pos]) by {
            assert(class.has(s[k]));
        }
        if a > 0 {
            assert(!class.has(s[a - 1]));
        }
        if b < s.len() {
            assert(!class.has(s[b]));
        }
    }
    if around {
        if blank(s[pos]) {
            if b < s.len() {
                run_is_kind(s, b);
            }
        } else {
            let c = run_end(s, b, Class::Vi(0));
            run_end_bounds(s, b, Class::Vi(0));
            assert forall|k: int| b <= k < c implies blank(#[trigger] s[k]) by {
                assert(Class::Vi(0).has(s[k]));
            }
            if c == b && b < s.len() {
                assert(!Class::Vi(0).has(s[b]));
            }
            if c > b {
                assert(blank(s[b]));
            }
            let d = run_start(s, a, Class::Vi(0));
            run_start_bounds(s, a, Class::Vi(0));
            assert forall|k: int| d <= k < a implies blank(#[trigger] s[k]) by {
                assert(Class::Vi(0).has(s[k]));
            }
        }
    }
}

/// An operator over `iw` or `aw` takes the word object under the cursor. Past
/// the end of the line there is none.
#[verifier::rlimit(40)]
pub proof fn an_operator_takes_the_word_object(
    line: Line,
    ring: Ring,
    op: char,
    around: bool,
    history: Seq<Seq<char>>,
)
    requires
        ready(line),
        line.vi_op == Some(op),
        is_operator(op),
        ring.max >= 0,
    ensures
        ({
            let kind = if around {
                'a'
            } else {
                'i'
            };
            let (l, r) = line.vi_key(ring, Key::Char(kind), history).0.vi_key(
                ring,
                Key::Char('w'),
                history,
            );
            &&& line.cursor == line.buffer.len() ==> stays(line, l) && r == ring && is_settled(l)
            &&& line.cursor < line.buffer.len() ==> exists|lo: int, hi: int| #[trigger]
                object_at(line.buffer, line.cursor, around, lo, hi) && operates(
                    line,
                    ring,
                    op,
                    (l, r),
                    lo,
                    hi,
                    true,
                )
        }),
{
    reveal(Line::vi_key);
    reveal(Line::motion);
    reveal(Line::object);
    let s = line.buffer;
    let kind = if around {
        'a'
    } else {
        'i'
    };
    let waiting = line.vi_key(ring, Key::Char(kind), history).0;
    assert(waiting == (Line { vi_object: Some(kind), ..line }));
    if line.cursor < s.len() {
        the_object_is_there(s, line.cursor, around);
        let (lo, hi) = word_object(s, line.cursor, around)->0;
        let l = Line { vi_object: None, ..waiting.vi_settled() };
        operating_operates(l, ring, op, lo, hi, true);
        assert(object_at(s, line.cursor, around, lo, hi));
    }
}

/// `de` from inside a word takes the rest of the word, to its last character.
pub proof fn deleting_to_the_end_of_the_word(
    line: Line,
    ring: Ring,
    history: Seq<Seq<char>>,
    end: int,
)
    requires
        ready(line),
        times(line) == 1,
        line.vi_op == Some('d'),
        line.cursor + 1 < line.buffer.len(),
        !blank(line.buffer[line.cursor + 1]),
        ends_kind(line.buffer, line.cursor + 1, end),
        ring.max > 0,
        line.prev_action != Action::KillFwd && line.prev_action != Action::KillBack,
    ensures
        ({
            let (l, r) = line.vi_key(ring, Key::Char('e'), history);
            &&& l.buffer == line.buffer.take(line.cursor) + line.buffer.skip(end)
            &&& l.cursor == line.cursor
            &&& r.entries.last() == line.buffer.subrange(line.cursor, end)
        }),
{
    let key = Key::Char('e');
    let free = Line { vi_op: None, ..line };
    motions_by_word(free, ring, key, history);
    an_operator_takes_what_the_motion_moves_over(line, ring, 'd', key, history);
    let s = line.buffer;
    let t = free.vi_key(ring, key, history).0.cursor;
    assert(t + 1 == end) by {
        if t == line.cursor && (forall|k: int|
            line.cursor < k < s.len() ==> blank(#[trigger] s[k])) {
            assert(blank(s[line.cursor + 1]));
        } else {
            let m = choose|m: int|
                #[trigger] ends_kind(s, m, t + 1) && line.cursor < m && !blank(s[m]) && (forall|
                    k: int,
                |
                    line.cursor < k < m ==> blank(#[trigger] s[k]));
            if m > line.cursor + 1 {
                assert(blank(s[line.cursor + 1]));
            }
            assert(m == line.cursor + 1);
            if t + 1 < end {
                assert(same_kind(s[t + 1], s[m]));
            }
            if end < t + 1 {
                assert(same_kind(s[end], s[m]));
            }
        }
    }
}

/// The edits that cut: `x`, `X` and Delete so many characters, `s` with
/// inserting after it, `D` and `C` the rest of the line, `S` all of it.
#[verifier::rlimit(40)]
pub proof fn the_edits_that_cut(line: Line, ring: Ring, key: Key, history: Seq<Seq<char>>)
    requires
        ready(line),
        line.vi_op is None,
        ring.max >= 0,
        key == Key::Delete || key == Key::Char('x') || key == Key::Char('X') || key
            == Key::Char('s') || key == Key::Char('D') || key == Key::Char('C') || key
            == Key::Char('S'),
    ensures
        ({
            let after = line.vi_key(ring, key, history);
            let len = line.buffer.len() as int;
            let n = times(line);
            let inserts = key == Key::Char('s') || key == Key::Char('C') || key == Key::Char('S');
            &&& is_settled(after.0)
            &&& is_quiet(line, after.0)
            &&& after.0.vi_normal == (line.vi_normal && !inserts)
            &&& if key == Key::Char('X') {
                cut(line, ring, after, most(0, line.cursor - n), line.cursor, false)
            } else if key == Key::Char('D') || key == Key::Char('C') {
                cut(line, ring, after, line.cursor, len, true)
            } else if key == Key::Char('S') {
                cut(line, ring, after, 0, len, true)
            } else {
                cut(line, ring, after, line.cursor, least(line.cursor + n, len), true)
            }
        }),
{
    reveal(Line::vi_key);
    reveal(Line::motion);
    reveal(Line::vi_command);
    reveal(Line::linewise);
    let l = line.vi_settled();
    let n = line.vi_times();
    let len = line.buffer.len() as int;
    killing_cuts(l, ring, line.cursor, least(line.cursor + n, len), true);
    killing_cuts(l, ring, most(0, line.cursor - n), line.cursor, false);
    killing_cuts(l, ring, line.cursor, len, true);
    killing_cuts(l, ring, 0, len, true);
}

/// A doubled operator takes the whole line, and `Y` copies it.
pub proof fn the_whole_line(line: Line, ring: Ring, op: char, history: Seq<Seq<char>>)
    requires
        ready(line),
        is_operator(op),
        ring.max >= 0,
    ensures
        line.vi_op == Some(op) ==> ({
            let after = line.vi_key(ring, Key::Char(op), history);
            let len = line.buffer.len() as int;
            &&& is_settled(after.0)
            &&& op == 'y' ==> after.0.buffer == line.buffer && after.0.cursor == 0
                && after.0.vi_normal == line.vi_normal && (if len > 0 {
                stacked(ring, after.1, line.buffer)
            } else {
                after.1 == ring
            })
            &&& op != 'y' ==> cut(line, ring, after, 0, len, true) && after.0.vi_normal == (
            line.vi_normal && op == 'd')
        }),
        line.vi_op != Some(op) ==> ({
            let (l, r) = line.vi_key(ring, Key::Char(op), history);
            l == (Line { vi_op: Some(op), ..line }) && r == ring
        }),
        line.vi_op is None ==> ({
            let (l, r) = line.vi_key(ring, Key::Char('Y'), history);
            stays(line, l) && is_settled(l) && (if line.buffer.len() > 0 {
                stacked(ring, r, line.buffer)
            } else {
                r == ring
            })
        }),
{
    reveal(Line::vi_key);
    reveal(Line::motion);
    reveal(Line::vi_command);
    reveal(Line::linewise);
    killing_cuts(line.vi_settled(), ring, 0, line.buffer.len() as int, true);
    pushing_stacks(ring, line.buffer);
}

/// `r` and a character put that character in place of as many as the count
/// says, the cursor on the last. Where fewer are left the bell rings.
pub proof fn replacing_characters(
    line: Line,
    ring: Ring,
    c: char,
    history: Seq<Seq<char>>,
)
    requires
        ready(line),
        line.vi_op is None,
    ensures
        ({
            let (l, r) = line.vi_key(ring, Key::Char('r'), history).0.vi_key(
                ring,
                Key::Char(c),
                history,
            );
            let n = times(line);
            let s = line.buffer;
            &&& r == ring
            &&& l.vi_count == 0 && !l.vi_replace
            &&& l.vi_normal == line.vi_normal
            &&& line.cursor + n > s.len() ==> stays(line, l) && rang(line, l)
            &&& line.cursor + n <= s.len() ==> {
                &&& l.buffer.len() == s.len()
                &&& l.cursor == line.cursor + n - 1
                &&& forall|k: int|
                    0 <= k < s.len() ==> #[trigger] l.buffer[k] == (if line.cursor <= k
                        < line.cursor + n {
                        c
                    } else {
                        s[k]
                    })
            }
        }),
{
    reveal(Line::vi_key);
    reveal(Line::motion);
    reveal(Line::vi_command);
    reveal(Line::replaced);
    ringing_rings(Line { vi_replace: false, vi_count: 0, ..line });
    let waiting = line.vi_key(ring, Key::Char('r'), history).0;
    assert(waiting == (Line { vi_replace: true, ..line }));
}

/// A character with its case switched.
pub open spec fn switched(c: char) -> Seq<char> {
    if uppercase(c) {
        lower_mapping(c)
    } else {
        upper_mapping(c)
    }
}

/// Characters with their case switched, one after another.
pub open spec fn all_switched(s: Seq<char>) -> Seq<char>
    decreases s.len(),
{
    if s.len() == 0 {
        Seq::empty()
    } else {
        switched(s[0]) + all_switched(s.skip(1))
    }
}

proof fn switching_adds_up(a: Seq<char>, b: Seq<char>)
    ensures
        all_switched(a + b) == all_switched(a) + all_switched(b),
    decreases a.len(),
{
    if a.len() == 0 {
        assert(a + b =~= b);
        assert(all_switched(a) + all_switched(b) =~= all_switched(b));
    } else {
        switching_adds_up(a.skip(1), b);
        assert((a + b).skip(1) =~= a.skip(1) + b);
        assert((a + b)[0] == a[0]);
        assert(all_switched(a + b) =~= all_switched(a) + all_switched(b));
    }
}

proof fn flipping_switches(s: Seq<char>)
    ensures
        flipped(s) == all_switched(s),
    decreases s.len(),
{
    if s.len() > 0 {
        let last = seq![s.last()];
        flipping_switches(s.drop_last());
        switching_adds_up(s.drop_last(), last);
        assert(s.drop_last() + last =~= s);
        reveal_with_fuel(all_switched, 2);
        assert(last.skip(1) =~= Seq::<char>::empty());
        assert(all_switched(last) =~= switched(s.last()));
    }
}

/// `~` switches the case of as many characters as the count says, and goes
/// behind them; what stands before and behind is untouched.
pub proof fn switching_case(line: Line, ring: Ring, history: Seq<Seq<char>>)
    requires
        ready(line),
        line.vi_op is None,
    ensures
        ({
            let (l, r) = line.vi_key(ring, Key::Char('~'), history);
            let s = line.buffer;
            let end = least(line.cursor + times(line), s.len() as int);
            let text = all_switched(s.subrange(line.cursor, end));
            &&& r == ring
            &&& is_settled(l)
            &&& l.buffer == s.take(line.cursor) + text + s.skip(end)
            &&& l.cursor == line.cursor + text.len()
        }),
{
    reveal(Line::vi_key);
    reveal(Line::motion);
    reveal(Line::vi_command);
    reveal(Line::case_flipped);
    let end = least(line.cursor + times(line), line.buffer.len() as int);
    flipping_switches(line.buffer.subrange(line.cursor, end));
}

/// `text` is `one` so many times over.
pub open spec fn is_repeated(text: Seq<char>, one: Seq<char>, n: int) -> bool {
    &&& text.len() == n * one.len()
    &&& forall|i: int, k: int|
        0 <= i < n && 0 <= k < one.len() ==> text[#[trigger] spot(i, one.len() as int, k)] == one[k]
}

/// Where the `k`-th character of the `i`-th copy stands.
pub open spec fn spot(i: int, len: int, k: int) -> int {
    i * len + k
}

proof fn repeating_repeats(one: Seq<char>, n: nat)
    ensures
        is_repeated(repeated(one, n), one, n as int),
    decreases n,
{
    let len = one.len() as int;
    if n > 0 {
        repeating_repeats(one, (n - 1) as nat);
        let before = repeated(one, (n - 1) as nat);
        let m = n - 1;
        assert(n * len == m * len + len) by (nonlinear_arith)
            requires
                m == n - 1,
        ;
        assert forall|i: int, k: int| 0 <= i < n && 0 <= k < len implies repeated(
            one,
            n,
        )[#[trigger] spot(i, len, k)] == one[k] by {
            if i < n - 1 {
                assert(0 <= spot(i, len, k) < before.len()) by (nonlinear_arith)
                    requires
                        0 <= i <= m - 1,
                        0 <= k < len,
                        spot(i, len, k) == i * len + k,
                        before.len() == m * len,
                ;
                assert(before[spot(i, len, k)] == one[k]);
            } else {
                assert(spot(i, len, k) == before.len() + k);
            }
        }
    } else {
        assert(0 * len == 0);
    }
}

/// `p` puts what was cut or copied last behind the character under the cursor,
/// `P` before it, as often as the count says; the cursor is on its last
/// character. Nothing else of the line changes.
#[verifier::rlimit(40)]
pub proof fn putting(line: Line, ring: Ring, key: Key, history: Seq<Seq<char>>)
    requires
        ready(line),
        line.vi_op is None,
        key == Key::Char('p') || key == Key::Char('P'),
    ensures
        ({
            let (l, r) = line.vi_key(ring, key, history);
            let s = line.buffer;
            let at = if key == Key::Char('p') {
                least(line.cursor + 1, s.len() as int)
            } else {
                line.cursor
            };
            &&& r == ring
            &&& is_settled(l)
            &&& ring.entries.len() == 0 || ring.entries.last().len() == 0 ==> stays(line, l)
            &&& ring.entries.len() > 0 && ring.entries.last().len() > 0 ==> exists|text: Seq<char>|
                {
                    &&& #[trigger] is_repeated(text, ring.entries.last(), times(line))
                    &&& l.buffer == s.take(at) + text + s.skip(at)
                    &&& l.cursor == at + text.len() - 1
                }
        }),
{
    reveal(Line::vi_key);
    reveal(Line::motion);
    reveal(Line::vi_command);
    reveal(Line::pasted);
    if ring.entries.len() > 0 && ring.entries.last().len() > 0 {
        let one = ring.entries.last();
        let n = line.vi_times() as nat;
        repeating_repeats(one, n);
        assert(is_repeated(repeated(one, n), one, times(line)));
    }
}

/// The keys that go on inserting: at the cursor, at the start, behind the
/// character under the cursor, at the end.
pub proof fn the_keys_that_insert(line: Line, ring: Ring, key: Key, history: Seq<Seq<char>>)
    requires
        ready(line),
        line.vi_op is None,
        key == Key::Char('i') || key == Key::Char('I') || key == Key::Char('a') || key
            == Key::Char('A'),
    ensures
        ({
            let (l, r) = line.vi_key(ring, key, history);
            let len = line.buffer.len() as int;
            &&& r == ring
            &&& is_settled(l)
            &&& is_quiet(line, l)
            &&& !l.vi_normal
            &&& l.buffer == line.buffer
            &&& l.cursor == (if key == Key::Char('i') {
                line.cursor
            } else if key == Key::Char('I') {
                0
            } else if key == Key::Char('a') {
                least(line.cursor + 1, len)
            } else {
                len
            })
        }),
{
    reveal(Line::vi_key);
    reveal(Line::motion);
    reveal(Line::vi_command);
}

/// `k` and Up, `j` and Down walk the history as the arrow keys do, `u` undoes,
/// and `G` shows the newest entry, or the one whose number was typed; without
/// such an entry the bell rings.
pub proof fn the_keys_that_recall(line: Line, ring: Ring, key: Key, history: Seq<Seq<char>>)
    requires
        ready(line),
        line.vi_op is None,
    ensures
        ({
            let (l, r) = line.vi_key(ring, key, history);
            let settled = Line { vi_count: 0, ..line };
            let i = if line.vi_count > 0 {
                line.vi_count - 1
            } else {
                history.len() - 1
            };
            &&& key == Key::Char('k') || key == Key::Up ==> l == settled.older(history) && r == ring
            &&& key == Key::Char('j') || key == Key::Down ==> l == settled.newer(history) && r
                == ring
            &&& key == Key::Char('u') ==> r == ring && (line.undo.len() == 0 ==> stays(line, l))
                && (line.undo.len() > 0 ==> l.buffer == line.undo.last().0 && l.undo
                == line.undo.drop_last())
            &&& key == Key::Char('G') ==> r == ring && (if 0 <= i < history.len() {
                l.hist_index == Some(i) && (line.hist_index != Some(i)
                    && crate::laws::recalling::untouched(line, i)
                    ==> crate::laws::recalling::shows(l, history, i))
            } else {
                stays(line, l) && rang(line, l)
            })
        }),
{
    reveal(Line::vi_key);
    reveal(Line::motion);
    reveal(Line::vi_command);
    reveal(Line::undone);
    reveal(Line::fetched);
    let l = line.vi_settled();
    ringing_rings(l);
    let i = if line.vi_count > 0 {
        line.vi_count - 1
    } else {
        history.len() - 1
    };
    if 0 <= i < history.len() {
        assert(l.showing(history, i).hist_index == Some(i)) by {
            reveal(Line::showing);
        }
        if line.hist_index != Some(i) && crate::laws::recalling::untouched(line, i) {
            assert(crate::laws::recalling::untouched(l, i));
            crate::laws::recalling::showing_shows(l, history, i);
        }
    }
}

/// A key that completes nothing of what is waited for ends the wait: no
/// character to replace with or to find, or no object that is known. The line
/// stays as it is.
pub proof fn a_wait_can_be_ended(line: Line, ring: Ring, key: Key, history: Seq<Seq<char>>)
    ensures
        ({
            let (l, r) = line.vi_key(ring, key, history);
            let waits = if line.vi_replace || line.vi_object is None {
                (line.vi_replace || line.vi_find is Some) && !(key is Char)
            } else {
                key != Key::Char('w')
            };
            &&& waits ==> r == ring && stays(line, l) && is_quiet(line, l)
            &&& waits ==> l.vi_count == 0 && l.vi_normal == line.vi_normal
            &&& waits && line.vi_replace ==> !l.vi_replace
            &&& waits && !line.vi_replace && line.vi_object is Some ==> l.vi_object is None
                && l.vi_op is None
            &&& waits && !line.vi_replace && line.vi_object is None ==> l.vi_find is None
                && l.vi_op is None
        }),
{
    reveal(Line::vi_key);
    reveal(Line::replaced);
    reveal(Line::object);
    reveal(Line::found);
}

/// Digits make up the count, most significant first, as far as a machine word
/// goes; `0` is one of them only behind another.
pub proof fn digits_make_the_count(line: Line, ring: Ring, c: char, history: Seq<Seq<char>>)
    requires
        ready(line),
        '0' <= c <= '9',
        c != '0' || line.vi_count > 0,
    ensures
        line.vi_key(ring, Key::Char(c), history) == (
            Line {
                vi_count: least(
                    line.vi_count * 10 + (c as int - '0' as int),
                    usize::MAX as int,
                ),
                ..line
            },
            ring,
        ),
{
    reveal(Line::vi_key);
    reveal(Line::motion);
    reveal(Line::counted);
}

} // verus!
