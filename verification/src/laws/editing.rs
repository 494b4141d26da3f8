//! The emacs keymap: motions, deleting and killing, yanking, transposing,
//! changing case, and what is inserted.
use vstd::prelude::*;

use crate::act::{AfterKey, Answer};
use crate::actions::EditorAction;
use crate::decoder::Event;
use crate::edit::{last_word, recased, CaseOp};
use crate::keys::Key;
use crate::laws::completion::{only_the_word_changed, word_starts};
use crate::laws::{cut, is_quiet, killing_cuts, rang, ringing_rings, stays};
use crate::line::{Action, Line, Pending};
use crate::ring::Ring;
use crate::unicode::{alphanumeric, lower_mapping, upper_mapping, whitespace};
use crate::words::{
    alnum_after, alnum_before, run_end, run_end_bounds, run_start, run_start_bounds, word_before,
    Class,
};

verus! {

/// A character of a word: a letter or digit, or, for the words between blanks,
/// anything else but a blank.
pub open spec fn in_word(c: char, alnum: bool) -> bool {
    if alnum {
        alphanumeric(c)
    } else {
        !whitespace(c)
    }
}

/// `m..t` is the first word at or after `pos`, from there on: no word character
/// stands before it, and it goes no further.
pub open spec fn word_ahead(s: Seq<char>, pos: int, m: int, t: int) -> bool {
    &&& pos <= m <= t <= s.len()
    &&& forall|k: int| pos <= k < m ==> !in_word(#[trigger] s[k], true)
    &&& forall|k: int| m <= k < t ==> in_word(#[trigger] s[k], true)
    &&& m < s.len() ==> in_word(s[m], true)
    &&& t < s.len() ==> !in_word(s[t], true)
}

/// `t..m` is the last word before `pos`, up to there.
pub open spec fn word_behind(s: Seq<char>, pos: int, t: int, m: int, alnum: bool) -> bool {
    &&& 0 <= t <= m <= pos
    &&& forall|k: int| m <= k < pos ==> !in_word(#[trigger] s[k], alnum)
    &&& forall|k: int| t <= k < m ==> in_word(#[trigger] s[k], alnum)
    &&& m > 0 ==> in_word(s[m - 1], alnum)
    &&& t > 0 ==> !in_word(s[t - 1], alnum)
}

proof fn the_word_ahead(s: Seq<char>, pos: int)
    requires
        0 <= pos <= s.len(),
    ensures
        word_ahead(s, pos, run_end(s, pos, Class::NonAlnum), alnum_after(s, pos)),
{
    let m = run_end(s, pos, Class::NonAlnum);
    run_end_bounds(s, pos, Class::NonAlnum);
    run_end_bounds(s, m, Class::Alnum);
    assert forall|k: int| pos <= k < m implies !in_word(#[trigger] s[k], true) by {
        assert(Class::NonAlnum.has(s[k]));
    }
    assert forall|k: int| m <= k < alnum_after(s, pos) implies in_word(#[trigger] s[k], true) by {
        assert(Class::Alnum.has(s[k]));
    }
}

proof fn the_word_behind(s: Seq<char>, pos: int)
    requires
        0 <= pos <= s.len(),
    ensures
        word_behind(s, pos, alnum_before(s, pos), run_start(s, pos, Class::NonAlnum), true),
        word_behind(s, pos, word_before(s, pos), run_start(s, pos, Class::Blank), false),
{
    let m = run_start(s, pos, Class::NonAlnum);
    run_start_bounds(s, pos, Class::NonAlnum);
    run_start_bounds(s, m, Class::Alnum);
    assert forall|k: int| m <= k < pos implies !in_word(#[trigger] s[k], true) by {
        assert(Class::NonAlnum.has(s[k]));
    }
    assert forall|k: int| alnum_before(s, pos) <= k < m implies in_word(#[trigger] s[k], true) by {
        assert(Class::Alnum.has(s[k]));
    }
    let n = run_start(s, pos, Class::Blank);
    run_start_bounds(s, pos, Class::Blank);
    run_start_bounds(s, n, Class::NonBlank);
    assert forall|k: int| n <= k < pos implies !in_word(#[trigger] s[k], false) by {
        assert(Class::Blank.has(s[k]));
    }
    assert forall|k: int| word_before(s, pos) <= k < n implies in_word(
        #[trigger] s[k],
        false,
    ) by {
        assert(Class::NonBlank.has(s[k]));
    }
}

/// There is one word ahead.
proof fn word_ahead_is_one(s: Seq<char>, pos: int, m: int, t: int, n: int, u: int)
    requires
        0 <= pos,
        word_ahead(s, pos, m, t),
        word_ahead(s, pos, n, u),
    ensures
        m == n,
        t == u,
{
    if m < n {
        assert(in_word(s[m], true));
    }
    if n < m {
        assert(in_word(s[n], true));
    }
    if t < u {
        assert(in_word(s[t], true));
    }
    if u < t {
        assert(in_word(s[u], true));
    }
}

proof fn word_behind_is_one(s: Seq<char>, pos: int, t: int, m: int, u: int, n: int, alnum: bool)
    requires
        pos <= s.len(),
        word_behind(s, pos, t, m, alnum),
        word_behind(s, pos, u, n, alnum),
    ensures
        m == n,
        t == u,
{
    if m < n {
        assert(in_word(s[n - 1], alnum));
    }
    if n < m {
        assert(in_word(s[m - 1], alnum));
    }
    if t < u {
        assert(in_word(s[u - 1], alnum));
    }
    if u < t {
        assert(in_word(s[t - 1], alnum));
    }
}

/// The cursor alone has moved.
pub open spec fn only_the_cursor_moved(before: Line, after: Line) -> bool {
    &&& after.buffer == before.buffer
    &&& after.hist_index == before.hist_index
    &&& is_quiet(before, after)
}

/// `text` was put in place of `lo..hi`, the cursor behind it.
pub open spec fn replaced(before: Line, after: Line, lo: int, hi: int, text: Seq<char>) -> bool {
    &&& after.buffer == before.buffer.take(lo) + text + before.buffer.skip(hi)
    &&& after.cursor == lo + text.len()
    &&& after.hist_index == before.hist_index
    &&& is_quiet(before, after)
}

/// The motions: one character, one word, and to the ends. At the end of the
/// line, going on takes the hint, all of it or its first word.
#[verifier::rlimit(40)]
pub proof fn motions(
    line: Line,
    ring: Ring,
    key: Key,
    history: Seq<Seq<char>>,
    answer: Answer,
    m: int,
    t: int,
)
    requires
        line.inside(),
    ensures
        ({
            let s = line.buffer;
            let end = line.cursor == s.len();
            let left = line.acted(ring, EditorAction::BackwardChar, key, history, answer).0;
            let right = line.acted(ring, EditorAction::ForwardChar, key, history, answer).0;
            let first = line.acted(ring, EditorAction::BeginningOfLine, key, history, answer).0;
            let last = line.acted(ring, EditorAction::EndOfLine, key, history, answer).0;
            let back = line.acted(ring, EditorAction::BackwardWord, key, history, answer).0;
            let forth = line.acted(ring, EditorAction::ForwardWord, key, history, answer).0;
            &&& only_the_cursor_moved(line, left)
            &&& left.cursor == (if line.cursor > 0 {
                line.cursor - 1
            } else {
                0
            })
            &&& only_the_cursor_moved(line, first) && first.cursor == 0
            &&& only_the_cursor_moved(line, back)
            &&& word_behind(s, line.cursor, t, m, true) ==> back.cursor == t
            &&& !end ==> only_the_cursor_moved(line, right) && right.cursor == line.cursor + 1
            &&& !end ==> only_the_cursor_moved(line, last) && last.cursor == s.len()
            &&& !end ==> only_the_cursor_moved(line, forth)
            &&& !end && word_ahead(s, line.cursor, m, t) ==> forth.cursor == t
            &&& end ==> match answer.hint() {
                None => stays(line, right) && stays(line, last) && stays(line, forth),
                Some(h) => {
                    &&& replaced(line, right, line.cursor, line.cursor, h)
                    &&& replaced(line, last, line.cursor, line.cursor, h)
                    &&& word_ahead(h, 0, m, t) ==> replaced(
                        line,
                        forth,
                        line.cursor,
                        line.cursor,
                        h.take(t),
                    )
                },
            }
        }),
{
    reveal(Line::acted);
    reveal(Line::changed);
    reveal(Line::backward_char);
    reveal(Line::forward_char);
    reveal(Line::end_of_line);
    reveal(Line::forward_word);
    let s = line.buffer;
    the_word_ahead(s, line.cursor);
    the_word_behind(s, line.cursor);
    if word_behind(s, line.cursor, t, m, true) {
        word_behind_is_one(
            s,
            line.cursor,
            t,
            m,
            alnum_before(s, line.cursor),
            run_start(s, line.cursor, Class::NonAlnum),
            true,
        );
    }
    if word_ahead(s, line.cursor, m, t) {
        word_ahead_is_one(
            s,
            line.cursor,
            m,
            t,
            run_end(s, line.cursor, Class::NonAlnum),
            alnum_after(s, line.cursor),
        );
    }
    if let Some(h) = answer.hint() {
        the_word_ahead(h, 0);
        if word_ahead(h, 0, m, t) {
            word_ahead_is_one(
                h,
                0,
                m,
                t,
                run_end(h, 0, Class::NonAlnum),
                alnum_after(h, 0),
            );
        }
    }
}

/// Deleting takes the character before the cursor, or the one under it, and
/// nothing else; C-d on an empty line is end of file.
pub proof fn deleting(
    line: Line,
    ring: Ring,
    key: Key,
    history: Seq<Seq<char>>,
    answer: Answer,
)
    requires
        line.inside(),
    ensures
        ({
            let s = line.buffer;
            let none = Seq::<char>::empty();
            let back = line.acted(ring, EditorAction::BackwardDeleteChar, key, history, answer);
            let here = line.acted(ring, EditorAction::DeleteChar, key, history, answer);
            let or_eof = line.acted(ring, EditorAction::DeleteCharOrEof, key, history, answer);
            &&& back.1 == ring && here.1 == ring && or_eof.1 == ring
            &&& line.cursor == 0 ==> stays(line, back.0)
            &&& line.cursor > 0 ==> replaced(line, back.0, line.cursor - 1, line.cursor, none)
                && back.0.this_action == Action::Delete
            &&& line.cursor == s.len() ==> stays(line, here.0)
            &&& line.cursor < s.len() ==> replaced(line, here.0, line.cursor, line.cursor + 1, none)
                && here.0.this_action == Action::Delete
            &&& s.len() == 0 ==> or_eof.2 == AfterKey::Eof && stays(line, or_eof.0)
            &&& s.len() > 0 ==> or_eof == here && here.2 == AfterKey::Done
        }),
{
    reveal(Line::acted);
    reveal(Line::changed);
    reveal(Line::rubbed_out);
    reveal(Line::deleted);
}

/// What each kill takes: to the end of the line, the whole line, to its start,
/// the blank-delimited word before the cursor, or the word after or before it.
#[verifier::rlimit(40)]
pub proof fn killing(
    line: Line,
    ring: Ring,
    key: Key,
    history: Seq<Seq<char>>,
    answer: Answer,
    m: int,
    t: int,
)
    requires
        line.inside(),
        ring.max >= 0,
    ensures
        ({
            let s = line.buffer;
            let len = s.len() as int;
            let at = line.cursor;
            let rest = line.acted(ring, EditorAction::KillLine, key, history, answer);
            let whole = line.acted(ring, EditorAction::KillWholeLine, key, history, answer);
            let start = line.acted(ring, EditorAction::UnixLineDiscard, key, history, answer);
            let rubout = line.acted(ring, EditorAction::UnixWordRubout, key, history, answer);
            let word = line.acted(ring, EditorAction::KillWord, key, history, answer);
            let back = line.acted(ring, EditorAction::BackwardKillWord, key, history, answer);
            &&& cut(line, ring, (rest.0, rest.1), at, len, true)
            &&& cut(line, ring, (whole.0, whole.1), 0, len, true)
            &&& cut(line, ring, (start.0, start.1), 0, at, false)
            &&& word_behind(s, at, t, m, false) ==> cut(
                line,
                ring,
                (rubout.0, rubout.1),
                t,
                at,
                false,
            )
            &&& word_ahead(s, at, m, t) ==> cut(line, ring, (word.0, word.1), at, t, true)
            &&& word_behind(s, at, t, m, true) ==> cut(line, ring, (back.0, back.1), t, at, false)
        }),
{
    let s = line.buffer;
    let len = s.len() as int;
    let at = line.cursor;
    the_word_ahead(s, at);
    the_word_behind(s, at);
    if word_behind(s, at, t, m, false) {
        word_behind_is_one(
            s,
            at,
            t,
            m,
            word_before(s, at),
            run_start(s, at, Class::Blank),
            false,
        );
    }
    if word_behind(s, at, t, m, true) {
        word_behind_is_one(
            s,
            at,
            t,
            m,
            alnum_before(s, at),
            run_start(s, at, Class::NonAlnum),
            true,
        );
    }
    if word_ahead(s, at, m, t) {
        word_ahead_is_one(s, at, m, t, run_end(s, at, Class::NonAlnum), alnum_after(s, at));
    }
    killing_cuts(line, ring, at, len, true);
    killing_cuts(line, ring, 0, len, true);
    killing_cuts(line, ring, 0, at, false);
    killing_cuts(line, ring, word_before(s, at), at, false);
    killing_cuts(line, ring, at, alnum_after(s, at), true);
    killing_cuts(line, ring, alnum_before(s, at), at, false);
    reveal(Line::acted);
}

/// A yank inserts the newest entry of the ring at the cursor, and yank-pop
/// straight after it puts the entry before in its place, from the oldest on to
/// the newest again. Without anything to yank the line stays.
pub proof fn yanking(
    line: Line,
    ring: Ring,
    key: Key,
    history: Seq<Seq<char>>,
    answer: Answer,
)
    requires
        line.inside(),
    ensures
        ({
            let n = ring.entries.len() as int;
            let (yanked, r, _) = line.acted(ring, EditorAction::Yank, key, history, answer);
            let next = Line { prev_action: yanked.this_action, ..yanked };
            let popped = next.acted(ring, EditorAction::YankPop, key, history, answer).0;
            let at = line.cursor;
            &&& r == ring
            &&& n == 0 ==> stays(line, yanked)
            &&& n > 0 ==> replaced(line, yanked, at, at, ring.entries[n - 1])
            &&& n > 0 ==> replaced(line, popped, at, at, ring.entries[if n > 1 {
                n - 2
            } else {
                0
            }])
            &&& line.prev_action != Action::Yank ==> stays(
                line,
                line.acted(ring, EditorAction::YankPop, key, history, answer).0,
            )
        }),
{
    reveal(Line::acted);
    reveal(Line::changed);
    reveal(Line::yanked);
    reveal(Line::rotated);
    let n = ring.entries.len() as int;
    if n > 0 {
        let (yanked, r, _) = line.acted(ring, EditorAction::Yank, key, history, answer);
        let next = Line { prev_action: yanked.this_action, ..yanked };
        let popped = next.acted(ring, EditorAction::YankPop, key, history, answer).0;
        let j = if n > 1 {
            n - 2
        } else {
            0
        };
        assert(popped.buffer =~= line.buffer.take(line.cursor) + ring.entries[j]
            + line.buffer.skip(line.cursor));
    }
}

/// Each yank-pop goes one entry further back, from the oldest to the newest
/// again: the entry takes the place of the text that the one before inserted.
pub proof fn popping(
    line: Line,
    ring: Ring,
    key: Key,
    history: Seq<Seq<char>>,
    answer: Answer,
    a: int,
    b: int,
    i: int,
)
    requires
        line.inside(),
        line.prev_action == Action::Yank,
        line.yank == Some((a, b, i)),
        0 <= a <= b <= line.buffer.len(),
        0 <= i < ring.entries.len(),
    ensures
        ({
            let l = line.acted(ring, EditorAction::YankPop, key, history, answer).0;
            let j = if i > 0 {
                i - 1
            } else {
                ring.entries.len() - 1
            };
            let text = ring.entries[j];
            &&& replaced(line, l, a, b, text)
            &&& l.this_action == Action::Yank
            &&& l.yank == Some((a, a + text.len() as int, j))
        }),
{
    reveal(Line::acted);
    reveal(Line::changed);
    reveal(Line::rotated);
}

/// C-t swaps the character before the cursor with the one under it, or at the
/// end of the line the two before it, and goes on; at the start it does nothing.
pub proof fn transposing_characters(
    line: Line,
    ring: Ring,
    key: Key,
    history: Seq<Seq<char>>,
    answer: Answer,
)
    requires
        line.inside(),
    ensures
        ({
            let s = line.buffer;
            let l = line.acted(ring, EditorAction::TransposeChars, key, history, answer).0;
            let at = if line.cursor == s.len() {
                line.cursor - 1
            } else {
                line.cursor
            };
            &&& at <= 0 ==> l.buffer == s && l.cursor == 0
            &&& at > 0 ==> {
                &&& l.buffer.len() == s.len()
                &&& l.buffer[at] == s[at - 1]
                &&& l.buffer[at - 1] == s[at]
                &&& forall|k: int|
                    0 <= k < s.len() && k != at && k != at - 1 ==> #[trigger] l.buffer[k] == s[k]
                &&& l.cursor == at + 1
            }
        }),
{
    reveal(Line::acted);
    reveal(Line::changed);
    reveal(Line::transposed);
}

/// M-t swaps two words: the one ahead of the cursor, or the last one where none
/// is ahead, with the word before it. What stands between and around them stays;
/// the cursor goes behind both. With fewer than two words nothing changes.
pub proof fn transposing_words(
    line: Line,
    ring: Ring,
    key: Key,
    history: Seq<Seq<char>>,
    answer: Answer,
    m: int,
    e2: int,
    s2: int,
    s1: int,
    e1: int,
    k2: int,
)
    requires
        line.inside(),
        word_ahead(line.buffer, line.cursor, m, e2),
        word_behind(line.buffer, e2, s2, k2, true),
        word_behind(line.buffer, s2, s1, e1, true),
    ensures
        ({
            let s = line.buffer;
            let l = line.acted(ring, EditorAction::TransposeWords, key, history, answer).0;
            if k2 == e2 && s2 < e2 && s1 < e1 {
                &&& l.buffer == s.take(s1) + s.subrange(s2, e2) + s.subrange(e1, s2) + s.subrange(
                    s1,
                    e1,
                ) + s.skip(e2)
                &&& l.cursor == e2
            } else {
                k2 == e2 ==> stays(line, l)
            }
        }),
{
    reveal(Line::acted);
    reveal(Line::changed);
    reveal(Line::words_transposed);
    let s = line.buffer;
    the_word_ahead(s, line.cursor);
    word_ahead_is_one(
        s,
        line.cursor,
        m,
        e2,
        run_end(s, line.cursor, Class::NonAlnum),
        alnum_after(s, line.cursor),
    );
    if k2 == e2 {
        let start = run_start(s, e2, Class::Alnum);
        run_start_bounds(s, e2, Class::Alnum);
        assert(start == s2) by {
            if start < s2 {
                assert(Class::Alnum.has(s[s2 - 1]));
            }
            if s2 < start {
                assert(in_word(s[start - 1], true));
            }
        }
        the_word_behind(s, s2);
        word_behind_is_one(
            s,
            s2,
            s1,
            e1,
            alnum_before(s, s2),
            run_start(s, s2, Class::NonAlnum),
            true,
        );
        let l = line.acted(ring, EditorAction::TransposeWords, key, history, answer).0;
        if s2 < e2 && s1 < e1 {
            assert(l.buffer =~= s.take(s1) + s.subrange(s2, e2) + s.subrange(e1, s2) + s.subrange(
                s1,
                e1,
            ) + s.skip(e2));
        }
    }
}

/// All characters in uppercase, or in lowercase.
pub open spec fn in_case(s: Seq<char>, upper: bool) -> Seq<char>
    decreases s.len(),
{
    if s.len() == 0 {
        Seq::empty()
    } else {
        (if upper {
            upper_mapping(s[0])
        } else {
            lower_mapping(s[0])
        }) + in_case(s.skip(1), upper)
    }
}

proof fn recasing(s: Seq<char>, op: CaseOp, first: bool)
    ensures
        op == CaseOp::Upper ==> recased(s, op, first) == in_case(s, true),
        op == CaseOp::Lower ==> recased(s, op, first) == in_case(s, false),
        op == CaseOp::Capital && !first && (forall|k: int|
            0 <= k < s.len() ==> alphanumeric(#[trigger] s[k])) ==> recased(s, op, first)
            == in_case(s, false),
    decreases s.len(),
{
    if s.len() > 0 {
        recasing(s.skip(1), op, first);
        if forall|k: int| 0 <= k < s.len() ==> alphanumeric(#[trigger] s[k]) {
            assert(alphanumeric(s[0]));
            assert forall|k: int| 0 <= k < s.skip(1).len() implies alphanumeric(
                #[trigger] s.skip(1)[k],
            ) by {
                assert(s.skip(1)[k] == s[k + 1]);
            }
        }
    }
}

proof fn capitalising(s: Seq<char>, m: int)
    requires
        0 <= m <= s.len(),
        forall|k: int| 0 <= k < m ==> !alphanumeric(#[trigger] s[k]),
        forall|k: int| m <= k < s.len() ==> alphanumeric(#[trigger] s[k]),
    ensures
        recased(s, CaseOp::Capital, true) == s.take(m) + (if m < s.len() {
            upper_mapping(s[m]) + in_case(s.skip(m + 1), false)
        } else {
            Seq::empty()
        }),
    decreases m,
{
    let all = recased(s, CaseOp::Capital, true);
    if s.len() == 0 {
        assert(all =~= s.take(m) + Seq::<char>::empty());
    } else if m == 0 {
        assert(alphanumeric(s[0]));
        let rest = s.skip(1);
        assert forall|k: int| 0 <= k < rest.len() implies alphanumeric(#[trigger] rest[k]) by {
            assert(rest[k] == s[k + 1]);
        }
        recasing(rest, CaseOp::Capital, false);
        assert(s.take(0) + all =~= all);
    } else {
        assert(!alphanumeric(s[0]));
        let rest = s.skip(1);
        assert forall|k: int| 0 <= k < m - 1 implies !alphanumeric(#[trigger] rest[k]) by {
            assert(rest[k] == s[k + 1]);
        }
        assert forall|k: int| m - 1 <= k < rest.len() implies alphanumeric(#[trigger] rest[k]) by {
            assert(rest[k] == s[k + 1]);
        }
        capitalising(rest, m - 1);
        if m < s.len() {
            assert(rest[m - 1] == s[m]);
            assert(rest.skip(m) =~= s.skip(m + 1));
        }
        assert(seq![s[0]] + rest.take(m - 1) =~= s.take(m));
        assert(all =~= s.take(m) + (if m < s.len() {
            upper_mapping(s[m]) + in_case(s.skip(m + 1), false)
        } else {
            Seq::empty()
        }));
    }
}

/// M-u, M-l and M-c change the rest of the word at or after the cursor, and go
/// behind it: all of it to uppercase or to lowercase, or its first letter to
/// uppercase and the others to lowercase.
#[verifier::rlimit(40)]
pub proof fn changing_case(
    line: Line,
    ring: Ring,
    key: Key,
    history: Seq<Seq<char>>,
    answer: Answer,
    m: int,
    t: int,
)
    requires
        line.inside(),
        word_ahead(line.buffer, line.cursor, m, t),
    ensures
        ({
            let s = line.buffer;
            let at = line.cursor;
            let up = line.acted(ring, EditorAction::UpcaseWord, key, history, answer).0;
            let down = line.acted(ring, EditorAction::DowncaseWord, key, history, answer).0;
            let capital = line.acted(ring, EditorAction::CapitalizeWord, key, history, answer).0;
            &&& t == at ==> stays(line, up) && stays(line, down) && stays(line, capital)
            &&& t > at ==> replaced(line, up, at, t, in_case(s.subrange(at, t), true))
            &&& t > at ==> replaced(line, down, at, t, in_case(s.subrange(at, t), false))
            &&& t > at ==> replaced(
                line,
                capital,
                at,
                t,
                s.subrange(at, m) + (if m < t {
                    upper_mapping(s[m]) + in_case(s.subrange(m + 1, t), false)
                } else {
                    Seq::empty()
                }),
            )
        }),
{
    reveal(Line::acted);
    reveal(Line::changed);
    reveal(Line::recased);
    let s = line.buffer;
    let at = line.cursor;
    the_word_ahead(s, at);
    word_ahead_is_one(s, at, m, t, run_end(s, at, Class::NonAlnum), alnum_after(s, at));
    if t > at {
        let part = s.subrange(at, t);
        recasing(part, CaseOp::Upper, true);
        recasing(part, CaseOp::Lower, true);
        assert forall|k: int| 0 <= k < m - at implies !alphanumeric(#[trigger] part[k]) by {
            assert(part[k] == s[at + k]);
            assert(!in_word(s[at + k], true));
        }
        assert forall|k: int| m - at <= k < part.len() implies alphanumeric(
            #[trigger] part[k],
        ) by {
            assert(part[k] == s[at + k]);
            assert(in_word(s[at + k], true));
        }
        capitalising(part, m - at);
        assert(part.take(m - at) =~= s.subrange(at, m));
        if m < t {
            assert(part.skip(m - at + 1) =~= s.subrange(m + 1, t));
        }
    }
}

/// M-\ takes the spaces and tabs around the cursor, all of them and nothing
/// else.
pub proof fn closing_up(
    line: Line,
    ring: Ring,
    key: Key,
    history: Seq<Seq<char>>,
    answer: Answer,
)
    requires
        line.inside(),
    ensures
        ({
            let s = line.buffer;
            let l = line.acted(ring, EditorAction::DeleteHorizontalSpace, key, history, answer).0;
            exists|a: int, b: int|
                {
                    &&& #[trigger] replaced(line, l, a, b, Seq::empty())
                    &&& 0 <= a <= line.cursor <= b <= s.len()
                    &&& forall|k: int| a <= k < b ==> #[trigger] s[k] == ' ' || s[k] == '\t'
                    &&& a > 0 ==> s[a - 1] != ' ' && s[a - 1] != '\t'
                    &&& b < s.len() ==> s[b] != ' ' && s[b] != '\t'
                }
        }),
{
    reveal(Line::acted);
    reveal(Line::changed);
    reveal(Line::closed_up);
    let s = line.buffer;
    let a = run_start(s, line.cursor, Class::Gap);
    let b = run_end(s, line.cursor, Class::Gap);
    run_start_bounds(s, line.cursor, Class::Gap);
    run_end_bounds(s, line.cursor, Class::Gap);
    assert forall|k: int| a <= k < b implies #[trigger] s[k] == ' ' || s[k] == '\t' by {
        assert(Class::Gap.has(s[k]));
    }
    let l = line.acted(ring, EditorAction::DeleteHorizontalSpace, key, history, answer).0;
    assert(replaced(line, l, a, b, Seq::empty()));
}

/// M-. inserts the last blank-delimited word of the newest entry; pressed again,
/// it puts that of the entry before in its place.
pub proof fn inserting_the_last_argument(
    line: Line,
    ring: Ring,
    key: Key,
    history: Seq<Seq<char>>,
    answer: Answer,
    i: int,
    t: int,
    m: int,
)
    requires
        line.inside(),
        line.prev_action != Action::LastArg,
        0 <= i < history.len(),
        word_behind(history[i], history[i].len() as int, t, m, false),
    ensures
        ({
            let n = history.len() as int;
            let word = history[i].subrange(t, m);
            let once = line.acted(ring, EditorAction::InsertLastArgument, key, history, answer).0;
            let next = Line { prev_action: once.this_action, ..once };
            let twice = next.acted(ring, EditorAction::InsertLastArgument, key, history, answer).0;
            &&& i == n - 1 ==> replaced(line, once, line.cursor, line.cursor, word)
            &&& n > 1 && i == n - 2 || n == 1 ==> replaced(
                line,
                twice,
                line.cursor,
                line.cursor,
                word,
            )
        }),
{
    reveal(Line::acted);
    reveal(Line::changed);
    reveal(Line::with_last_word);
    let n = history.len() as int;
    let s = history[i];
    the_word_behind(s, s.len() as int);
    word_behind_is_one(
        s,
        s.len() as int,
        t,
        m,
        word_before(s, s.len() as int),
        run_start(s, s.len() as int, Class::Blank),
        false,
    );
    assert(last_word(s) == s.subrange(t, m));
    let once = line.acted(ring, EditorAction::InsertLastArgument, key, history, answer).0;
    let next = Line { prev_action: once.this_action, ..once };
    let twice = next.acted(ring, EditorAction::InsertLastArgument, key, history, answer).0;
    if n > 1 && i == n - 2 || n == 1 {
        assert(twice.buffer =~= line.buffer.take(line.cursor) + s.subrange(t, m)
            + line.buffer.skip(line.cursor));
    }
}

/// Each press of M-. goes back one entry further, and stays on the oldest: its
/// last word takes the place of the word that the press before inserted.
pub proof fn inserting_earlier_arguments(
    line: Line,
    ring: Ring,
    key: Key,
    history: Seq<Seq<char>>,
    answer: Answer,
    i: int,
    a: int,
    b: int,
    t: int,
    m: int,
)
    requires
        line.inside(),
        line.prev_action == Action::LastArg,
        line.lastarg == Some((i, a, b)),
        0 <= i < history.len(),
        0 <= a <= b <= line.buffer.len(),
        ({
            let s = history[if i > 0 {
                i - 1
            } else {
                0
            }];
            word_behind(s, s.len() as int, t, m, false)
        }),
    ensures
        ({
            let j = if i > 0 {
                i - 1
            } else {
                0
            };
            let word = history[j].subrange(t, m);
            let l = line.acted(ring, EditorAction::InsertLastArgument, key, history, answer).0;
            &&& replaced(line, l, a, b, word)
            &&& l.this_action == Action::LastArg
            &&& l.lastarg == Some((j, a, a + word.len() as int))
        }),
{
    reveal(Line::acted);
    reveal(Line::changed);
    reveal(Line::with_last_word);
    let s = history[if i > 0 {
        i - 1
    } else {
        0
    }];
    the_word_behind(s, s.len() as int);
    word_behind_is_one(
        s,
        s.len() as int,
        t,
        m,
        word_before(s, s.len() as int),
        run_start(s, s.len() as int, Class::Blank),
        false,
    );
    assert(last_word(s) == s.subrange(t, m));
}

/// A new limit leaves the newest entries of the ring, as many as it allows.
pub proof fn limiting_the_ring(ring: Ring, max: int)
    requires
        max >= 0,
    ensures
        ({
            let r = ring.limited(max);
            let n = ring.entries.len() as int;
            let kept = if n > max {
                max
            } else {
                n
            };
            &&& r.max == max
            &&& r.entries.len() == kept
            &&& forall|k: int|
                0 <= k < kept ==> #[trigger] r.entries[k] == ring.entries[n - kept + k]
        }),
{
}

/// A typed character goes in at the cursor. Before a space the abbreviation that
/// the host knows is put in place of the word first; the rest of the line stays.
pub proof fn typing_inserts(
    line: Line,
    ring: Ring,
    c: char,
    history: Seq<Seq<char>>,
    bytes: int,
    text: Seq<char>,
    start: int,
)
    requires
        line.inside(),
        bytes >= 0,
        word_starts(line, bytes, start),
    ensures
        ({
            let plain = line.acted(
                ring,
                EditorAction::SelfInsert,
                Key::Char(c),
                history,
                Answer::Abbreviation(None),
            ).0;
            let expanded = line.acted(
                ring,
                EditorAction::SelfInsert,
                Key::Char(' '),
                history,
                Answer::Abbreviation(Some((bytes, text))),
            ).0;
            &&& replaced(line, plain, line.cursor, line.cursor, seq![c])
            &&& plain.this_action == Action::Insert
            &&& only_the_word_changed(line, expanded, start, text.push(' '))
        }),
{
    reveal(Line::acted);
    reveal(Line::changed);
    reveal(Line::self_inserted);
    reveal(Line::expanded);
    reveal(Line::typed);
    crate::laws::completion::the_word_starts(line, bytes);
    crate::laws::completion::word_start_is_one(
        line,
        bytes,
        crate::complete::clamped(line.buffer, line.cursor, bytes),
        start,
    );
    let expanded = line.acted(
        ring,
        EditorAction::SelfInsert,
        Key::Char(' '),
        history,
        Answer::Abbreviation(Some((bytes, text))),
    ).0;
    assert(expanded.buffer =~= line.buffer.take(start) + text.push(' ') + line.buffer.skip(
        line.cursor,
    ));
}

/// The key after C-] is looked for ahead of the cursor, after M-C-] behind it,
/// and the cursor goes to the nearest; without one the bell rings. The key after
/// a quote is inserted, and C-x C-u undoes.
#[verifier::rlimit(40)]
pub proof fn keys_that_were_waited_for(line: Line, event: Event, c: char)
    requires
        line.inside(),
        line.undo.len() > 0 ==> line.undo.last().1 >= 0,
    ensures
        ({
            let (l, after) = line.resumed(event);
            let s = line.buffer;
            &&& line.pending != Pending::Nothing ==> l.pending == Pending::Nothing
            &&& line.pending == Pending::FindChar(true) && event == Event::Key(Key::Char(c)) ==> {
                &&& l.buffer == s
                &&& (exists|k: int| line.cursor < k < s.len() && #[trigger] s[k] == c) ==> {
                    &&& line.cursor < l.cursor < s.len()
                    &&& s[l.cursor] == c
                    &&& forall|k: int| line.cursor < k < l.cursor ==> #[trigger] s[k] != c
                }
                &&& !(exists|k: int| line.cursor < k < s.len() && #[trigger] s[k] == c) ==> stays(
                    line,
                    l,
                ) && rang(line, l)
            }
            &&& line.pending == Pending::FindChar(false) && event == Event::Key(Key::Char(c)) ==> {
                &&& l.buffer == s
                &&& (exists|k: int| 0 <= k < line.cursor && #[trigger] s[k] == c) ==> {
                    &&& 0 <= l.cursor < line.cursor
                    &&& s[l.cursor] == c
                    &&& forall|k: int| l.cursor < k < line.cursor ==> #[trigger] s[k] != c
                }
                &&& !(exists|k: int| 0 <= k < line.cursor && #[trigger] s[k] == c) ==> stays(
                    line,
                    l,
                ) && rang(line, l)
            }
            &&& line.pending == Pending::Quoted && event == Event::Literal(c) ==> replaced(
                line,
                l,
                line.cursor,
                line.cursor,
                seq![c],
            )
            &&& line.pending == Pending::Chord && event == Event::Key(Key::Ctrl('e')) ==> after
                == AfterKey::External && stays(line, l)
            &&& line.pending == Pending::Chord && event == Event::Key(Key::Ctrl('u'))
                && line.undo.len() > 0 ==> l.buffer == line.undo.last().0
        }),
{
    reveal(Line::resumed);
    reveal(Line::chorded);
    reveal(Line::quoted_in);
    reveal(Line::sought_out);
    reveal(Line::at_char);
    reveal(Line::typed);
    reveal(Line::undone);
    reveal(Line::list_answered);
    reveal(Line::printed);
    ringing_rings(Line { pending: Pending::Nothing, ..line });
    crate::laws::vi::index_facts(line.buffer, line.cursor + 1, c);
    crate::laws::vi::last_index_facts(line.buffer, line.cursor, c);
}

/// Undoing gives back the line as the newest snapshot has it, and reverting as
/// the oldest has it; the cursor is where it was then, as far as the line goes.
pub proof fn undoing(
    line: Line,
    ring: Ring,
    key: Key,
    history: Seq<Seq<char>>,
    answer: Answer,
)
    ensures
        ({
            let n = line.undo.len() as int;
            let undone = line.acted(ring, EditorAction::Undo, key, history, answer).0;
            let reverted = line.acted(ring, EditorAction::RevertLine, key, history, answer).0;
            &&& n == 0 ==> stays(line, undone) && stays(line, reverted)
            &&& undone.this_action == Action::Undo && reverted.this_action == Action::Undo
            &&& n > 0 ==> {
                &&& undone.buffer == line.undo[n - 1].0
                &&& undone.cursor == crate::laws::vi::least(
                    line.undo[n - 1].1,
                    undone.buffer.len() as int,
                )
                &&& undone.undo == line.undo.take(n - 1)
                &&& reverted.buffer == line.undo[0].0
                &&& reverted.cursor == crate::laws::vi::least(
                    line.undo[0].1,
                    reverted.buffer.len() as int,
                )
                &&& reverted.undo.len() == 0
            }
        }),
{
    reveal(Line::acted);
    reveal(Line::changed);
    reveal(Line::undone);
    reveal(Line::reverted);
    assert(line.undo.len() > 0 ==> line.undo.drop_last() =~= line.undo.take(
        line.undo.len() - 1,
    ));
}

} // verus!
