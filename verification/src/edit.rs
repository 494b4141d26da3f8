//! The editing commands: inserting, deleting, killing and yanking, undo,
//! transposing, changing case, and inserting the last argument.
use vstd::prelude::*;

use crate::line::{as_undo, Action, Line, LineState};
use crate::ring::{KillRing, Ring};
use crate::text::{chars_of, copy, push_chars, slice, spliced, texts};
use crate::unicode::{
    alphanumeric, lower_mapping, to_lower, to_upper, upper_mapping,
};
use crate::words::{
    alnum_after, run_end, run_end_bounds, run_start, run_start_bounds, scan_back, scan_forward,
    word_forward_alnum, Class,
};

verus! {

impl Line {
    /// With a character inserted at the cursor.
    #[verifier::opaque]
    pub open spec fn typed(self, c: char) -> Line {
        self.put(self.cursor, self.cursor, seq![c])
    }

    /// With the character before the cursor deleted.
    #[verifier::opaque]
    pub open spec fn rubbed_out(self) -> Line {
        if self.cursor > 0 {
            Line {
                this_action: Action::Delete,
                ..self.put(self.cursor - 1, self.cursor, Seq::empty())
            }
        } else {
            self
        }
    }

    /// With the character under the cursor deleted.
    #[verifier::opaque]
    pub open spec fn deleted(self) -> Line {
        if self.cursor < self.buffer.len() {
            Line {
                this_action: Action::Delete,
                ..self.put(self.cursor, self.cursor + 1, Seq::empty())
            }
        } else {
            self
        }
    }

    /// With the spaces and tabs around the cursor deleted.
    #[verifier::opaque]
    pub open spec fn closed_up(self) -> Line {
        self.put(
            run_start(self.buffer, self.cursor, Class::Gap),
            run_end(self.buffer, self.cursor, Class::Gap),
            Seq::empty(),
        )
    }

    /// With `start..end` killed, and the ring then. Consecutive kills grow one
    /// ring entry (appending for forward kills, prepending for backward).
    #[verifier::opaque]
    pub open spec fn killed(self, ring: Ring, start: int, end: int, forward: bool) -> (Line, Ring) {
        if start >= end {
            (self, ring)
        } else {
            let text = self.buffer.subrange(start, end);
            let again = self.prev_action == Action::KillFwd || self.prev_action == Action::KillBack;
            (
                Line {
                    buffer: spliced(self.buffer, start, end, Seq::empty()),
                    cursor: start,
                    this_action: if forward {
                        Action::KillFwd
                    } else {
                        Action::KillBack
                    },
                    ..self
                },
                if again && ring.entries.len() > 0 {
                    ring.grown(text, forward)
                } else {
                    ring.pushed(text)
                },
            )
        }
    }

    /// With the top of the ring inserted at the cursor.
    #[verifier::opaque]
    pub open spec fn yanked(self, ring: Ring) -> Line {
        match ring.top() {
            Some(text) => Line {
                yank: Some((self.cursor, self.cursor + text.len(), ring.entries.len() - 1)),
                this_action: Action::Yank,
                ..self.put(self.cursor, self.cursor, text)
            },
            None => self,
        }
    }

    /// With the text just yanked replaced by the previous ring entry.
    #[verifier::opaque]
    pub open spec fn rotated(self, ring: Ring) -> Line {
        match self.yank {
            Some((start, end, i)) => if self.prev_action == Action::Yank && 0 <= start <= end
                && end <= self.buffer.len() && 0 <= i < ring.entries.len() {
                let j = if i == 0 {
                    ring.entries.len() - 1
                } else {
                    i - 1
                };
                let text = ring.entries[j];
                Line {
                    yank: Some((start, start + text.len(), j)),
                    this_action: Action::Yank,
                    ..self.put(start, end, text)
                }
            } else {
                self
            },
            None => self,
        }
    }

    /// With the newest snapshot restored.
    #[verifier::opaque]
    pub open spec fn undone(self) -> Line {
        if self.undo.len() > 0 {
            let (buffer, cursor) = self.undo.last();
            Line {
                buffer,
                cursor: if cursor <= buffer.len() {
                    cursor
                } else {
                    buffer.len() as int
                },
                undo: self.undo.drop_last(),
                this_action: Action::Undo,
                ..self
            }
        } else {
            Line { this_action: Action::Undo, ..self }
        }
    }

    /// With the oldest snapshot restored and no other kept.
    #[verifier::opaque]
    pub open spec fn reverted(self) -> Line {
        if self.undo.len() > 0 {
            let (buffer, cursor) = self.undo.first();
            Line {
                buffer,
                cursor: if cursor <= buffer.len() {
                    cursor
                } else {
                    buffer.len() as int
                },
                undo: Seq::empty(),
                this_action: Action::Undo,
                ..self
            }
        } else {
            Line { this_action: Action::Undo, ..self }
        }
    }

    /// With the characters around the cursor transposed (at end of line, the
    /// two before it).
    #[verifier::opaque]
    pub open spec fn transposed(self) -> Line {
        let at = if self.cursor == self.buffer.len() && self.cursor > 0 {
            self.cursor - 1
        } else {
            self.cursor
        };
        if 0 < at < self.buffer.len() {
            self.put(at - 1, at + 1, seq![self.buffer[at], self.buffer[at - 1]])
        } else {
            Line { cursor: at, ..self }
        }
    }

    /// With the word at or after the cursor and the one before it transposed.
    #[verifier::opaque]
    pub open spec fn words_transposed(self) -> Line {
        let s = self.buffer;
        let e2 = alnum_after(s, self.cursor);
        let s2 = run_start(s, e2, Class::Alnum);
        let e1 = run_start(s, s2, Class::NonAlnum);
        let s1 = run_start(s, e1, Class::Alnum);
        if s1 < e1 && s2 < e2 {
            self.put(s1, e2, s.subrange(s2, e2) + s.subrange(e1, s2) + s.subrange(s1, e1))
        } else {
            self
        }
    }

    /// With the case of the rest of the word changed, and the cursor past it.
    #[verifier::opaque]
    pub open spec fn recased(self, op: CaseOp) -> Line {
        let end = alnum_after(self.buffer, self.cursor);
        if end > self.cursor {
            self.put(
                self.cursor,
                end,
                recased(self.buffer.subrange(self.cursor, end), op, true),
            )
        } else {
            self
        }
    }

    /// Where the last word comes from and what it replaces: the newest entry,
    /// or, straight after such an insertion, the entry before in its place.
    pub open spec fn last_word_source(self, n: int) -> (int, int, int) {
        match self.lastarg {
            Some((i, start, end)) => if self.prev_action == Action::LastArg && 0 <= i < n && 0
                <= start <= end && end <= self.buffer.len() {
                (
                    if i > 0 {
                        i - 1
                    } else {
                        0
                    },
                    start,
                    end,
                )
            } else {
                (n - 1, self.cursor, self.cursor)
            },
            None => (n - 1, self.cursor, self.cursor),
        }
    }

    /// With the last word of an older entry inserted.
    #[verifier::opaque]
    pub open spec fn with_last_word(self, history: Seq<Seq<char>>) -> Line {
        if history.len() == 0 {
            self
        } else {
            let (i, start, end) = self.last_word_source(history.len() as int);
            let word = last_word(history[i]);
            Line {
                lastarg: Some((i, start, start + word.len())),
                this_action: Action::LastArg,
                ..self.put(start, end, word)
            }
        }
    }
}

/// A change of case.
#[derive(Debug, Clone, Copy, PartialEq, Eq, Structural)]
pub enum CaseOp {
    /// M-u
    Upper,
    /// M-l
    Lower,
    /// M-c
    Capital,
}

/// Text with its case changed. `first` holds until a capitalised word has
/// begun.
pub open spec fn recased(s: Seq<char>, op: CaseOp, first: bool) -> Seq<char>
    decreases s.len(),
{
    if s.len() == 0 {
        Seq::empty()
    } else {
        let c = s[0];
        let rest = s.skip(1);
        match op {
            CaseOp::Upper => upper_mapping(c) + recased(rest, op, first),
            CaseOp::Lower => lower_mapping(c) + recased(rest, op, first),
            CaseOp::Capital => if !alphanumeric(c) {
                seq![c] + recased(rest, op, first)
            } else if first {
                upper_mapping(c) + recased(rest, op, false)
            } else {
                lower_mapping(c) + recased(rest, op, false)
            },
        }
    }
}

/// The last whitespace-delimited word of a text.
pub open spec fn last_word(s: Seq<char>) -> Seq<char> {
    let end = run_start(s, s.len() as int, Class::Blank);
    s.subrange(run_start(s, end, Class::NonBlank), end)
}

/// Insert a character at the cursor.
pub fn insert_char(st: &mut LineState, c: char)
    requires
        old(st).inside(),
    ensures
        final(st)@ == old(st)@.typed(c),
        final(st).inside(),
        final(st)@.keeps(old(st)@),
{
    reveal(Line::typed);
    let mut text: Vec<char> = Vec::new();
    text.push(c);
    assert(text@ =~= seq![c]);
    let at = st.cursor;
    st.put(at, at, text.as_slice());
}

/// Delete the character before the cursor.
pub fn backward_delete_char(st: &mut LineState)
    requires
        old(st).inside(),
    ensures
        final(st)@ == old(st)@.rubbed_out(),
        final(st).inside(),
        final(st)@.keeps(old(st)@),
{
    reveal(Line::rubbed_out);
    if st.cursor > 0 {
        let at = st.cursor;
        let none: Vec<char> = Vec::new();
        st.put(at - 1, at, none.as_slice());
        st.this_action = Action::Delete;
    }
}

/// Delete the character under the cursor.
pub fn delete_char(st: &mut LineState)
    requires
        old(st).inside(),
    ensures
        final(st)@ == old(st)@.deleted(),
        final(st).inside(),
        final(st)@.keeps(old(st)@),
{
    reveal(Line::deleted);
    if st.cursor < st.buffer.len() {
        let at = st.cursor;
        let none: Vec<char> = Vec::new();
        st.put(at, at + 1, none.as_slice());
        st.this_action = Action::Delete;
    }
}

/// M-\: delete the spaces and tabs around the cursor.
pub fn delete_horizontal_space(st: &mut LineState)
    requires
        old(st).inside(),
    ensures
        final(st)@ == old(st)@.closed_up(),
        final(st).inside(),
        final(st)@.keeps(old(st)@),
{
    reveal(Line::closed_up);
    let start = scan_back(st.buffer.as_slice(), st.cursor, Class::Gap);
    let end = scan_forward(st.buffer.as_slice(), st.cursor, Class::Gap);
    let none: Vec<char> = Vec::new();
    st.put(start, end, none.as_slice());
}

/// Delete `start..end` into the kill ring. Consecutive kills grow one ring
/// entry (appending for forward kills, prepending for backward), so C-w C-w C-y
/// restores both words.
pub fn kill_span(st: &mut LineState, ring: &mut KillRing, start: usize, end: usize, forward: bool)
    requires
        old(st).inside(),
        start < end ==> end <= old(st).buffer@.len(),
    ensures
        (final(st)@, final(ring)@) == old(st)@.killed(
            old(ring)@,
            start as int,
            end as int,
            forward,
        ),
        final(st).inside(),
        final(st)@.keeps(old(st)@),
{
    reveal(Line::killed);
    if start >= end {
        return;
    }
    let text = slice(st.buffer.as_slice(), start, end);
    let again = match st.prev_action {
        Action::KillFwd | Action::KillBack => true,
        _ => false,
    };
    if again && ring.entries.len() > 0 {
        ring.grow(text.as_slice(), forward);
    } else {
        ring.push(text);
    }
    let none: Vec<char> = Vec::new();
    st.put(start, end, none.as_slice());
    st.this_action = if forward {
        Action::KillFwd
    } else {
        Action::KillBack
    };
}

/// C-y: insert the top of the kill ring at the cursor.
pub fn yank(st: &mut LineState, ring: &KillRing)
    requires
        old(st).inside(),
    ensures
        final(st)@ == old(st)@.yanked(ring@),
        final(st).inside(),
        final(st)@.keeps(old(st)@),
{
    reveal(Line::yanked);
    match ring.top() {
        Some(text) => {
            let start = st.cursor;
            st.put(start, start, text.as_slice());
            st.yank = Some((start, st.cursor, ring.entries.len() - 1));
            st.this_action = Action::Yank;
        },
        None => {},
    }
}

/// M-y immediately after a yank: rotate the yanked text to the previous ring
/// entry.
pub fn yank_pop(st: &mut LineState, ring: &KillRing)
    requires
        old(st).inside(),
    ensures
        final(st)@ == old(st)@.rotated(ring@),
        final(st).inside(),
        final(st)@.keeps(old(st)@),
{
    reveal(Line::rotated);
    match st.yank {
        Some((start, end, i)) => {
            if st.prev_action == Action::Yank && start <= end && end <= st.buffer.len() && i
                < ring.entries.len() {
                let j = if i == 0 {
                    ring.entries.len() - 1
                } else {
                    i - 1
                };
                let text = copy(ring.entries[j].as_slice());
                st.put(start, end, text.as_slice());
                st.yank = Some((start, st.cursor, j));
                st.this_action = Action::Yank;
            }
        },
        None => {},
    }
}

/// C-_ / C-x C-u / vi `u`: pop the undo stack.
pub fn undo_cmd(st: &mut LineState)
    ensures
        final(st)@ == old(st)@.undone(),
        final(st)@.keeps(old(st)@),
{
    reveal(Line::undone);
    reveal(as_undo);
    match st.undo.pop() {
        Some((buffer, cursor)) => {
            let ghost all = old(st)@.undo;
            assert(all.last() == (buffer@, cursor as int));
            assert(st@.undo =~= all.drop_last());
            st.cursor = if cursor <= buffer.len() {
                cursor
            } else {
                buffer.len()
            };
            st.buffer = buffer;
        },
        None => {},
    }
    st.this_action = Action::Undo;
}

/// M-r: undo every edit to this line at once.
pub fn revert_line(st: &mut LineState)
    ensures
        final(st)@ == old(st)@.reverted(),
        final(st)@.keeps(old(st)@),
{
    reveal(Line::reverted);
    reveal(as_undo);
    if st.undo.len() > 0 {
        let buffer = copy(st.undo[0].0.as_slice());
        let cursor = st.undo[0].1;
        st.cursor = if cursor <= buffer.len() {
            cursor
        } else {
            buffer.len()
        };
        st.buffer = buffer;
        st.undo = Vec::new();
        assert(st@.undo =~= Seq::<(Seq<char>, int)>::empty());
    }
    st.this_action = Action::Undo;
}

/// C-t: transpose the characters around the cursor (at end of line, the two
/// before it: readline's rule).
pub fn transpose(st: &mut LineState)
    requires
        old(st).inside(),
    ensures
        final(st)@ == old(st)@.transposed(),
        final(st).inside(),
        final(st)@.keeps(old(st)@),
{
    reveal(Line::transposed);
    let mut at: usize = st.cursor;
    if at == st.buffer.len() && at > 0 {
        at -= 1;
    }
    if at > 0 && at < st.buffer.len() {
        let mut pair: Vec<char> = Vec::new();
        pair.push(st.buffer[at]);
        pair.push(st.buffer[at - 1]);
        assert(pair@ =~= seq![st.buffer@[at as int], st.buffer@[at - 1]]);
        st.put(at - 1, at + 1, pair.as_slice());
    } else {
        st.cursor = at;
    }
}

/// M-t: transpose the word at or after the cursor with the one before it,
/// leaving the cursor after the moved pair.
pub fn transpose_words(st: &mut LineState)
    requires
        old(st).inside(),
    ensures
        final(st)@ == old(st)@.words_transposed(),
        final(st).inside(),
        final(st)@.keeps(old(st)@),
{
    reveal(Line::words_transposed);
    let s = st.buffer.as_slice();
    let e2 = word_forward_alnum(s, st.cursor);
    let s2 = scan_back(s, e2, Class::Alnum);
    let e1 = scan_back(s, s2, Class::NonAlnum);
    let s1 = scan_back(s, e1, Class::Alnum);
    if s1 < e1 && s2 < e2 {
        let mut moved = slice(s, s2, e2);
        let between = slice(s, e1, s2);
        let first = slice(s, s1, e1);
        push_chars(&mut moved, between.as_slice());
        push_chars(&mut moved, first.as_slice());
        st.put(s1, e2, moved.as_slice());
    }
}

/// M-u / M-l / M-c: upcase / downcase / capitalize from the cursor to the end
/// of the word, moving the cursor past it.
pub fn case_word(st: &mut LineState, op: CaseOp)
    requires
        old(st).inside(),
    ensures
        final(st)@ == old(st)@.recased(op),
        final(st).inside(),
        final(st)@.keeps(old(st)@),
{
    reveal(Line::recased);
    let end = word_forward_alnum(st.buffer.as_slice(), st.cursor);
    if end <= st.cursor {
        return;
    }
    let seg = slice(st.buffer.as_slice(), st.cursor, end);
    let mut out: Vec<char> = Vec::new();
    let mut first = true;
    let mut i: usize = 0;
    assert(seg@.skip(0) =~= seg@);
    assert(out@ + recased(seg@, op, true) =~= recased(seg@, op, true));
    while i < seg.len()
        invariant
            i <= seg@.len(),
            recased(seg@, op, true) == out@ + recased(seg@.skip(i as int), op, first),
        decreases seg@.len() - i,
    {
        let c = seg[i];
        let ghost before = out@;
        let ghost rest = seg@.skip(i as int);
        let ghost was_first = first;
        assert(rest[0] == c);
        assert(rest.skip(1) =~= seg@.skip(i + 1));
        let mapped = match op {
            CaseOp::Upper => to_upper(c),
            CaseOp::Lower => to_lower(c),
            CaseOp::Capital => if !c.is_alphanumeric() {
                let mut plain: Vec<char> = Vec::new();
                plain.push(c);
                assert(plain@ =~= seq![c]);
                plain
            } else if first {
                first = false;
                to_upper(c)
            } else {
                to_lower(c)
            },
        };
        push_chars(&mut out, mapped.as_slice());
        i += 1;
        assert(recased(rest, op, was_first) == mapped@ + recased(seg@.skip(i as int), op, first));
        assert(before + (mapped@ + recased(seg@.skip(i as int), op, first)) =~= out@ + recased(
            seg@.skip(i as int),
            op,
            first,
        ));
    }
    assert(seg@.skip(i as int).len() == 0);
    assert(out@ + Seq::<char>::empty() =~= out@);
    let at = st.cursor;
    st.put(at, end, out.as_slice());
}

fn last_arg_source(st: &LineState, n: usize) -> (r: (usize, usize, usize))
    requires
        st.inside(),
        n > 0,
    ensures
        (r.0 as int, r.1 as int, r.2 as int) == st@.last_word_source(n as int),
        r.0 < n,
        r.1 <= r.2 <= st.buffer@.len(),
{
    match st.lastarg {
        Some((i, start, end)) => if st.prev_action == Action::LastArg && i < n && start <= end
            && end <= st.buffer.len() {
            (
                if i > 0 {
                    i - 1
                } else {
                    0
                },
                start,
                end,
            )
        } else {
            (n - 1, st.cursor, st.cursor)
        },
        None => (n - 1, st.cursor, st.cursor),
    }
}

fn final_word(entry: &str) -> (r: Vec<char>)
    ensures
        r@ == last_word(entry@),
{
    let entry = chars_of(entry);
    let stop = scan_back(entry.as_slice(), entry.len(), Class::Blank);
    let from = scan_back(entry.as_slice(), stop, Class::NonBlank);
    slice(entry.as_slice(), from, stop)
}

/// M-. / M-_: insert the last word of the previous history entry; repeated
/// presses cycle back through older entries, replacing the previous insertion.
pub fn insert_last_arg(st: &mut LineState, history: &[String])
    requires
        old(st).inside(),
    ensures
        final(st)@ == old(st)@.with_last_word(texts(history@)),
        final(st).inside(),
        final(st)@.keeps(old(st)@),
{
    reveal(Line::with_last_word);
    if history.len() == 0 {
        return;
    }
    let (index, start, end) = last_arg_source(st, history.len());
    let word = final_word(history[index].as_str());
    st.put(start, end, word.as_slice());
    st.lastarg = Some((index, start, st.cursor));
    st.this_action = Action::LastArg;
}

/// Killing a span and yanking where it was gives the text back, with the
/// cursor behind it.
pub proof fn kill_then_yank(line: Line, ring: Ring, start: int, end: int, forward: bool)
    requires
        0 <= start < end <= line.buffer.len(),
        ring.max > 0,
        line.prev_action != Action::KillFwd && line.prev_action != Action::KillBack,
    ensures
        ({
            let (killed, after) = line.killed(ring, start, end, forward);
            let yanked = killed.yanked(after);
            yanked.buffer == line.buffer && yanked.cursor == end
        }),
{
    reveal(Line::killed);
    reveal(Line::yanked);
    let text = line.buffer.subrange(start, end);
    let (killed, after) = line.killed(ring, start, end, forward);
    pushed_is_on_top(ring, text);
    assert(after.top() == Some(text));
    assert(killed.yanked(after).buffer =~= line.buffer);
}

/// What was pushed is on top of the ring.
pub proof fn pushed_is_on_top(ring: Ring, text: Seq<char>)
    requires
        ring.max > 0,
    ensures
        ring.pushed(text).top() == Some(text),
{
    assert(ring.pushed(text).entries.last() == text);
}

/// A forward kill and a forward kill straight after it leave one ring entry:
/// one yank gives both texts back.
pub proof fn forward_kills_yank_back(line: Line, ring: Ring, start: int, mid: int, end: int)
    requires
        0 <= start < mid < end <= line.buffer.len(),
        ring.max > 0,
        line.prev_action != Action::KillFwd && line.prev_action != Action::KillBack,
    ensures
        ({
            let (once, between) = line.killed(ring, start, mid, true);
            let (twice, after) = (Line { prev_action: once.this_action, ..once }).killed(
                between,
                start,
                start + end - mid,
                true,
            );
            twice.yanked(after).buffer == line.buffer
        }),
{
    reveal(Line::killed);
    reveal(Line::yanked);
    let (once, between) = line.killed(ring, start, mid, true);
    pushed_is_on_top(ring, line.buffer.subrange(start, mid));
    let next = Line { prev_action: once.this_action, ..once };
    let (twice, after) = next.killed(between, start, start + end - mid, true);
    assert(once.buffer.subrange(start, start + end - mid) =~= line.buffer.subrange(mid, end));
    assert(after.top() == Some(
        line.buffer.subrange(start, mid) + line.buffer.subrange(mid, end),
    ));
    assert(twice.yanked(after).buffer =~= line.buffer);
}

/// A backward kill and a backward kill straight after it leave one ring entry:
/// one yank gives both texts back.
pub proof fn backward_kills_yank_back(line: Line, ring: Ring, start: int, mid: int, end: int)
    requires
        0 <= start < mid < end <= line.buffer.len(),
        ring.max > 0,
        line.prev_action != Action::KillFwd && line.prev_action != Action::KillBack,
    ensures
        ({
            let (once, between) = line.killed(ring, mid, end, false);
            let (twice, after) = (Line { prev_action: once.this_action, ..once }).killed(
                between,
                start,
                mid,
                false,
            );
            twice.yanked(after).buffer == line.buffer
        }),
{
    reveal(Line::killed);
    reveal(Line::yanked);
    let (once, between) = line.killed(ring, mid, end, false);
    pushed_is_on_top(ring, line.buffer.subrange(mid, end));
    let next = Line { prev_action: once.this_action, ..once };
    let (twice, after) = next.killed(between, start, mid, false);
    assert(once.buffer.subrange(start, mid) =~= line.buffer.subrange(start, mid));
    assert(after.top() == Some(
        line.buffer.subrange(start, mid) + line.buffer.subrange(mid, end),
    ));
    assert(twice.yanked(after).buffer =~= line.buffer);
}

/// Yank-pop pressed so many times in a row.
pub open spec fn popped(line: Line, ring: Ring, times: nat) -> Line
    decreases times,
{
    if times == 0 {
        line
    } else {
        let l = popped(line, ring, (times - 1) as nat);
        Line { prev_action: l.this_action, ..l }.rotated(ring)
    }
}

/// After a yank, yank-pop walks the ring: after so many presses the yanked
/// text is the entry that many places older, wrapping around, and the rest of
/// the line is as it was.
pub proof fn popping_walks_the_ring(line: Line, ring: Ring, times: nat)
    requires
        line.this_action == Action::Yank,
        line.yank matches Some((start, end, i)) && 0 <= start <= end <= line.buffer.len() && 0 <= i
            < ring.entries.len(),
    ensures
        ({
            let (start, end, i) = line.yank->0;
            let j = (i - times) % (ring.entries.len() as int);
            let l = popped(line, ring, times);
            &&& 0 <= j < ring.entries.len()
            &&& times > 0 ==> l.buffer == spliced(line.buffer, start, end, ring.entries[j])
            &&& times > 0 ==> l.yank == Some((start, start + ring.entries[j].len(), j))
            &&& l.this_action == Action::Yank
        }),
    decreases times,
{
    let (start, end, i) = line.yank->0;
    let n = ring.entries.len() as int;
    let j = (i - times) % n;
    assert(0 <= j < n) by (nonlinear_arith)
        requires
            n > 0,
            j == (i - times) % n,
    ;
    if times > 0 {
        let before = (times - 1) as nat;
        popping_walks_the_ring(line, ring, before);
        reveal(Line::rotated);
        let k = (i - before) % n;
        older_place(i - before, n);
        let l = popped(line, ring, before);
        let next = (Line { prev_action: l.this_action, ..l }).rotated(ring);
        assert(i - before - 1 == i - times);
        if before == 0 {
            assert(k == i) by (nonlinear_arith)
                requires
                    0 <= i < n,
                    k == (i - 0) % n,
            ;
        } else {
            let old = ring.entries[k];
            assert(spliced(
                spliced(line.buffer, start, end, old),
                start,
                start + old.len(),
                ring.entries[j],
            ) =~= spliced(line.buffer, start, end, ring.entries[j]));
        }
        assert(popped(line, ring, times) == next);
    }
}

proof fn older_place(m: int, n: int)
    requires
        n > 0,
    ensures
        (m - 1) % n == (if m % n == 0 {
            n - 1
        } else {
            m % n - 1
        }),
{
    vstd::arithmetic::div_mod::lemma_fundamental_div_mod(m, n);
    vstd::arithmetic::div_mod::lemma_mod_bound(m, n);
    let q = m / n;
    let r = m % n;
    assert(m == q * n + r && (q - 1) * n == q * n - n) by (nonlinear_arith)
        requires
            m == n * q + r,
    ;
    if r == 0 {
        vstd::arithmetic::div_mod::lemma_fundamental_div_mod_converse(m - 1, n, q - 1, n - 1);
    } else {
        vstd::arithmetic::div_mod::lemma_fundamental_div_mod_converse(m - 1, n, q, r - 1);
    }
}

/// Yank-pop pressed as often as the ring has entries is back where the yank
/// was.
pub proof fn popping_comes_round(line: Line, ring: Ring)
    requires
        line.this_action == Action::Yank,
        line.yank matches Some((start, end, i)) && 0 <= start <= end <= line.buffer.len() && 0 <= i
            < ring.entries.len() && line.buffer.subrange(start, end) == ring.entries[i],
    ensures
        popped(line, ring, ring.entries.len()).buffer == line.buffer,
{
    let (start, end, i) = line.yank->0;
    let n = ring.entries.len();
    popping_walks_the_ring(line, ring, n);
    assert((i - n) % (n as int) == i) by {
        vstd::arithmetic::div_mod::lemma_fundamental_div_mod_converse(i - n, n as int, -1, i);
    }
    assert(spliced(line.buffer, start, end, ring.entries[i]) =~= line.buffer);
}

/// Transposing loses nothing: the text holds the same characters, each as often
/// as before.
pub proof fn transposing_loses_nothing(line: Line)
    requires
        line.inside(),
    ensures
        line.transposed().buffer.to_multiset() == line.buffer.to_multiset(),
        line.words_transposed().buffer.to_multiset() == line.buffer.to_multiset(),
{
    reveal(Line::transposed);
    reveal(Line::words_transposed);
    let s = line.buffer;
    let at = if line.cursor == s.len() && line.cursor > 0 {
        line.cursor - 1
    } else {
        line.cursor
    };
    if 0 < at < s.len() {
        swapped_spans(s, at - 1, at, at, at + 1);
        assert(s.subrange(at, at + 1) + s.subrange(at, at) + s.subrange(at - 1, at) =~= seq![
            s[at],
            s[at - 1],
        ]);
    }
    let e2 = alnum_after(s, line.cursor);
    run_end_bounds(s, line.cursor, Class::NonAlnum);
    run_end_bounds(s, run_end(s, line.cursor, Class::NonAlnum), Class::Alnum);
    let s2 = run_start(s, e2, Class::Alnum);
    run_start_bounds(s, e2, Class::Alnum);
    let e1 = run_start(s, s2, Class::NonAlnum);
    run_start_bounds(s, s2, Class::NonAlnum);
    run_start_bounds(s, e1, Class::Alnum);
    swapped_spans(s, run_start(s, e1, Class::Alnum), e1, s2, e2);
}

proof fn swapped_spans(s: Seq<char>, s1: int, e1: int, s2: int, e2: int)
    requires
        0 <= s1 <= e1 <= s2 <= e2 <= s.len(),
    ensures
        spliced(
            s,
            s1,
            e2,
            s.subrange(s2, e2) + s.subrange(e1, s2) + s.subrange(s1, e1),
        ).to_multiset() == s.to_multiset(),
{
    let a = s.take(s1);
    let b = s.subrange(s1, e1);
    let c = s.subrange(e1, s2);
    let d = s.subrange(s2, e2);
    let e = s.skip(e2);
    assert(s =~= a + (b + (c + (d + e))));
    assert(spliced(s, s1, e2, d + c + b) =~= a + (d + (c + (b + e))));
    vstd::seq_lib::lemma_multiset_commutative(a, b + (c + (d + e)));
    vstd::seq_lib::lemma_multiset_commutative(b, c + (d + e));
    vstd::seq_lib::lemma_multiset_commutative(c, d + e);
    vstd::seq_lib::lemma_multiset_commutative(d, e);
    vstd::seq_lib::lemma_multiset_commutative(a, d + (c + (b + e)));
    vstd::seq_lib::lemma_multiset_commutative(d, c + (b + e));
    vstd::seq_lib::lemma_multiset_commutative(c, b + e);
    vstd::seq_lib::lemma_multiset_commutative(b, e);
    assert(spliced(s, s1, e2, d + c + b).to_multiset() =~= s.to_multiset());
}

} // verus!
