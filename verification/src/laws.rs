//! What the keys are for, said once more and without the commands' own words:
//! each law relates the line before a key to the line after it, or two keys to
//! one another, in terms of the characters in the buffer, the entries of the
//! history and the texts on the ring.
use vstd::prelude::*;

use crate::actions::BellStyle;
use crate::line::{Action, Line};
use crate::ring::Ring;
use crate::unicode::{alphanumeric, lower_mapping, whitespace};

pub mod binding;
pub mod completion;
pub mod editing;
pub mod keyboard;
pub mod listing;
pub mod prompting;
pub mod reading;
pub mod recalling;
pub mod remembering;
pub mod repaint;
pub mod screen;
pub mod searching;
pub mod stepping;
pub mod vi;

verus! {

/// A text in lowercase, character by character.
pub open spec fn lowered(s: Seq<char>) -> Seq<char>
    decreases s.len(),
{
    if s.len() == 0 {
        Seq::empty()
    } else {
        lower_mapping(s[0]) + lowered(s.skip(1))
    }
}

/// A text, in lowercase if its case is not to count.
pub open spec fn cased(s: Seq<char>, caseless: bool) -> Seq<char> {
    if caseless {
        lowered(s)
    } else {
        s
    }
}

/// `s` begins with `p`; with `caseless`, in lowercase.
pub open spec fn starts(s: Seq<char>, p: Seq<char>, caseless: bool) -> bool {
    let a = cased(s, caseless);
    let b = cased(p, caseless);
    &&& b.len() <= a.len()
    &&& forall|k: int| 0 <= k < b.len() ==> #[trigger] a[k] == b[k]
}

/// `q` stands in `s` from some character on.
pub open spec fn holds(s: Seq<char>, q: Seq<char>, caseless: bool) -> bool {
    exists|i: int| 0 <= i <= s.len() && #[trigger] starts(s.skip(i), q, caseless)
}

/// Lowercase goes character by character.
proof fn lowered_add(a: Seq<char>, b: Seq<char>)
    ensures
        lowered(a + b) == lowered(a) + lowered(b),
    decreases a.len(),
{
    if a.len() == 0 {
        assert(a + b =~= b);
        assert(lowered(a) + lowered(b) =~= lowered(b));
    } else {
        lowered_add(a.skip(1), b);
        assert((a + b).skip(1) =~= a.skip(1) + b);
        assert((a + b)[0] == a[0]);
        assert(lowered(a + b) =~= lowered(a) + lowered(b));
    }
}

proof fn lowered_is_folded(s: Seq<char>)
    ensures
        lowered(s) == crate::text::folded(s),
    decreases s.len(),
{
    if s.len() > 0 {
        let last = seq![s.last()];
        lowered_is_folded(s.drop_last());
        lowered_add(s.drop_last(), last);
        assert(s.drop_last() + last =~= s);
        assert(last.skip(1) =~= Seq::<char>::empty());
        reveal_with_fuel(lowered, 2);
        assert(lowered(last) =~= lower_mapping(s.last()));
    }
}

/// Beginning with a text is having it at the start.
pub(crate) proof fn starts_is_occurring(s: Seq<char>, p: Seq<char>, i: int, caseless: bool)
    requires
        0 <= i <= s.len(),
    ensures
        starts(s.skip(i), p, caseless) == crate::text::occurs_at(s, p, i, caseless),
{
    lowered_is_folded(s.skip(i));
    lowered_is_folded(p);
    let a = cased(s.skip(i), caseless);
    let b = cased(p, caseless);
    if starts(s.skip(i), p, caseless) {
        assert(b =~= a.subrange(0, b.len() as int));
    }
    if b.is_prefix_of(a) {
        assert forall|k: int| 0 <= k < b.len() implies #[trigger] a[k] == b[k] by {
            assert(a.subrange(0, b.len() as int)[k] == a[k]);
        }
    }
}

pub(crate) proof fn holding_is_occurring(s: Seq<char>, q: Seq<char>, caseless: bool)
    ensures
        holds(s, q, caseless) == crate::text::occurs(s, q, caseless),
{
    reveal(crate::text::occurs);
    if holds(s, q, caseless) {
        let i = choose|i: int| 0 <= i <= s.len() && #[trigger] starts(s.skip(i), q, caseless);
        starts_is_occurring(s, q, i, caseless);
    }
    if crate::text::occurs(s, q, caseless) {
        let i = choose|i: int| crate::text::occurs_at(s, q, i, caseless);
        starts_is_occurring(s, q, i, caseless);
    }
}

/// What stands somewhere with one more character stands there without it.
pub(crate) proof fn holding_more_holds_less(s: Seq<char>, q: Seq<char>, c: char, caseless: bool)
    requires
        holds(s, q.push(c), caseless),
    ensures
        holds(s, q, caseless),
{
    let i = choose|i: int| 0 <= i <= s.len() && #[trigger] starts(s.skip(i), q.push(c), caseless);
    lowered_add(q, seq![c]);
    assert(q.push(c) =~= q + seq![c]);
    let a = cased(s.skip(i), caseless);
    let b = cased(q, caseless);
    let more = cased(q.push(c), caseless);
    assert forall|k: int| 0 <= k < b.len() implies #[trigger] a[k] == b[k] by {
        assert(more[k] == b[k]);
    }
    assert(starts(s.skip(i), q, caseless));
}

/// The bell was rung, in its style.
pub open spec fn rang(before: Line, after: Line) -> bool {
    match before.cfg.bell {
        BellStyle::Silent => after.out == before.out && after.flash == before.flash,
        BellStyle::Audible => after.out == before.out + seq!['\x07'] && after.flash
            == before.flash,
        BellStyle::Visible => after.out == before.out + seq!['\x1b', '[', '?', '5', 'h']
            && after.flash,
    }
}

/// Nothing is written to the terminal.
pub open spec fn is_quiet(before: Line, after: Line) -> bool {
    after.out == before.out && after.flash == before.flash
}

/// Text, cursor and place in the history are the same.
pub open spec fn stays(before: Line, after: Line) -> bool {
    &&& after.buffer == before.buffer
    &&& after.cursor == before.cursor
    &&& after.hist_index == before.hist_index
}

pub(crate) proof fn ringing_rings(line: Line)
    ensures
        rang(line, line.rung()),
        stays(line, line.rung()),
        line.rung() == (Line { out: line.rung().out, flash: line.rung().flash, ..line }),
{
    reveal(Line::rung);
    reveal_strlit("\x07");
    reveal_strlit("\x1b[?5h");
    assert("\x07"@ =~= seq!['\x07']);
    assert("\x1b[?5h"@ =~= seq!['\x1b', '[', '?', '5', 'h']);
}

/// The ring has a new entry on top, and as many of the others as it keeps.
pub open spec fn stacked(before: Ring, after: Ring, text: Seq<char>) -> bool {
    let all = before.entries.push(text);
    let kept = if all.len() <= before.max {
        all.len() as int
    } else {
        before.max
    };
    &&& after.max == before.max
    &&& after.entries.len() == kept
    &&& forall|k: int|
        0 <= k < kept ==> #[trigger] after.entries[k] == all[all.len() - kept + k]
}

/// The ring has taken a killed text: straight after another kill at the end of
/// its newest entry, or, killed backward, at the start of it; else as a new
/// entry.
pub open spec fn taken(
    before: Line,
    ring: Ring,
    after: Ring,
    text: Seq<char>,
    forward: bool,
) -> bool {
    let again = before.prev_action == Action::KillFwd || before.prev_action == Action::KillBack;
    if again && ring.entries.len() > 0 {
        let last = ring.entries.len() - 1;
        &&& after.max == ring.max
        &&& after.entries.len() == ring.entries.len()
        &&& forall|k: int| 0 <= k < last ==> #[trigger] after.entries[k] == ring.entries[k]
        &&& after.entries[last] == (if forward {
            ring.entries[last] + text
        } else {
            text + ring.entries[last]
        })
    } else {
        stacked(ring, after, text)
    }
}

/// `lo..hi` was cut out of the line, and went onto the ring; the cursor is where
/// it was.
pub open spec fn cut(
    before: Line,
    ring: Ring,
    after: (Line, Ring),
    lo: int,
    hi: int,
    forward: bool,
) -> bool {
    if lo < hi {
        &&& after.0.buffer == before.buffer.take(lo) + before.buffer.skip(hi)
        &&& after.0.cursor == lo
        &&& after.0.hist_index == before.hist_index
        &&& after.0.this_action == (if forward {
            Action::KillFwd
        } else {
            Action::KillBack
        })
        &&& taken(before, ring, after.1, before.buffer.subrange(lo, hi), forward)
    } else {
        &&& stays(before, after.0)
        &&& after.1 == ring
    }
}

pub(crate) proof fn pushing_stacks(ring: Ring, text: Seq<char>)
    requires
        ring.max >= 0,
    ensures
        stacked(ring, ring.pushed(text), text),
{
}

pub(crate) proof fn killing_cuts(line: Line, ring: Ring, lo: int, hi: int, forward: bool)
    requires
        0 <= lo <= line.buffer.len(),
        hi <= line.buffer.len(),
        lo < hi || lo == line.cursor || hi == line.cursor,
        ring.max >= 0,
    ensures
        cut(line, ring, line.killed(ring, lo, hi, forward), lo, hi, forward),
        ({
            let (l, r) = line.killed(ring, lo, hi, forward);
            l == (Line {
                buffer: l.buffer,
                cursor: l.cursor,
                this_action: l.this_action,
                ..line
            })
        }),
{
    reveal(Line::killed);
    if lo < hi {
        pushing_stacks(ring, line.buffer.subrange(lo, hi));
        assert(line.killed(ring, lo, hi, forward).0.buffer =~= line.buffer.take(lo)
            + line.buffer.skip(hi));
    }
}

/// A character that stands between words.
pub open spec fn blank(c: char) -> bool {
    whitespace(c)
}

/// A character of a vi word: a letter, a digit or an underscore.
pub open spec fn wordy(c: char) -> bool {
    !blank(c) && (alphanumeric(c) || c == '_')
}

/// Two characters of one kind: both blank, both of a word, or both neither.
pub open spec fn same_kind(a: char, b: char) -> bool {
    blank(a) == blank(b) && wordy(a) == wordy(b)
}

} // verus!
