//! One read from its first byte to its result.
use vstd::prelude::*;

use crate::act::AfterKey;
use crate::decoder::{expired, Event, Mode};
use crate::editor::{Kept, ReadEnd};
use crate::hints::Known;
use crate::hooks::Hooks;
use crate::keys::Key;
use crate::laws::stays;
use crate::line::{Line, Pending};
use crate::preload::a_repaint_only_writes;
use crate::ring::Ring;
use crate::session::{heard_byte, patience, reacted, taken, took, Reading, Stimulus, Todo};
use crate::step::Bound;

verus! {

/// What happens other than keys leaves the text, the cursor and what is kept for
/// the next read alone. The end of the input and the deadline end the read, each
/// with its own result; a new width is taken over; everything else waits on.
/// What was owed of the paint is then painted, unless another key is waited for.
pub proof fn only_keys_change_the_text<H: Hooks + ?Sized>(
    before: (Reading, Kept),
    bindings: Seq<(Key, Bound)>,
    stimulus: Stimulus,
    more: bool,
    history: Seq<String>,
    hooks: &H,
    after: (Reading, Kept, Todo),
)
    requires
        reacted(before, bindings, stimulus, more, history, hooks, after),
        !(stimulus is Byte),
        stimulus == Stimulus::Silence ==> expired(before.0.decoder).1 is None,
    ensures
        stays(before.0.line, after.0.line),
        after.1 == before.1,
        after.0.decoder == before.0.decoder,
        stimulus == Stimulus::Closed <==> after.2 == Todo::Return(ReadEnd::Eof),
        stimulus == Stimulus::Late <==> after.2 == Todo::Return(ReadEnd::TimedOut),
        stimulus != Stimulus::Closed && stimulus != Stimulus::Late ==> after.2 is Wait,
        after.0.line.cols == (match stimulus {
            Stimulus::Columns(n) => n as int,
            _ => before.0.line.cols,
        }),
        !(stimulus is Columns) && before.0.line.pending == Pending::Nothing ==> after.0.skipped
            == 0,
        stimulus == Stimulus::Silence ==> !after.0.line.flash && after.0.skipped == 0,
        stimulus == Stimulus::Silence && before.0.skipped == 0 && !before.0.line.flash ==> after.0
            == before.0,
{
    let (r, kept) = before;
    reveal(Line::left);
    assert forall|a: (Line, Known), b: (Line, Known)| #[trigger]
        crate::session::repainted(a, history, hooks, b) implies b.0 == (Line {
        out: b.0.out,
        fresh: b.0.fresh,
        painted_rows: b.0.painted_rows,
        painted_cursor_row: b.0.painted_cursor_row,
        ..a.0
    }) by {
        a_repaint_only_writes(a, history, hooks, b);
    }
}

proof fn a_repaint_writes_on<H: Hooks + ?Sized>(
    before: (Line, Known),
    history: Seq<String>,
    hooks: &H,
    after: (Line, Known),
)
    requires
        crate::session::repainted(before, history, hooks, after),
    ensures
        after.0.out.len() >= before.0.out.len(),
        after.0.out.take(before.0.out.len() as int) == before.0.out,
        !after.0.fresh,
{
    let n = before.0.out.len() as int;
    assert(after.0.out.take(n) =~= before.0.out);
}

/// When the terminal is back in raw mode, the line is painted anew on a line of
/// its own, below what another program left.
pub proof fn a_healed_terminal_is_painted<H: Hooks + ?Sized>(
    before: (Reading, Kept),
    bindings: Seq<(Key, Bound)>,
    more: bool,
    history: Seq<String>,
    hooks: &H,
    after: (Reading, Kept, Todo),
)
    requires
        reacted(before, bindings, Stimulus::Healed, more, history, hooks, after),
    ensures
        ({
            let n = before.0.line.out.len() as int;
            let out = after.0.line.out;
            &&& out.len() > n
            &&& out.take(n) == before.0.line.out
            &&& out[n] == '\n'
            &&& after.0.line.fresh == (before.0.line.pending != Pending::Nothing)
        }),
{
    let n = before.0.line.out.len() as int;
    let line = before.0.line.say("\n"@).region();
    reveal_strlit("\n");
    assert(line.out.take(n) =~= before.0.line.out);
    assert(line.out[n] == '\n');
    let out = after.0.line.out;
    if before.0.line.pending == Pending::Nothing {
        a_repaint_writes_on(
            (line, before.0.hints),
            history,
            hooks,
            (after.0.line, after.0.hints),
        );
        assert(out.take(n + 1)[n] == line.out[n]);
        assert(out.take(n) =~= out.take(n + 1).take(n));
    }
}

/// A byte in the middle of a sequence is taken in, and nothing else happens; a
/// flash of the bell is over.
pub proof fn a_sequence_is_waited_for<H: Hooks + ?Sized>(
    before: (Reading, Kept),
    bindings: Seq<(Key, Bound)>,
    b: u8,
    more: bool,
    history: Seq<String>,
    hooks: &H,
    after: (Reading, Kept, Todo),
)
    requires
        reacted(before, bindings, Stimulus::Byte(b), more, history, hooks, after),
        heard_byte(before.0, b).1 is None,
    ensures
        stays(before.0.line, after.0.line),
        !after.0.line.flash,
        after.0.decoder == heard_byte(before.0, b).0,
        after.0.skipped == before.0.skipped,
        after.1 == before.1,
        after.2 is Wait,
{
}

/// A wait is short behind an ESC, long inside a paste, as long as a flash lasts
/// where the bell flashes, and a beat otherwise; an ESC is never kept waiting
/// longer than any other wait.
pub proof fn how_long_to_wait(r: Reading)
    ensures
        r.decoder.mode == Mode::Escape ==> patience(r) == 30,
        r.decoder.mode == Mode::Paste ==> patience(r) == 1000,
        r.decoder.mode != Mode::Escape && r.decoder.mode != Mode::Paste ==> patience(r) == (
        if r.line.flash {
            80int
        } else {
            200int
        }),
        patience(r) >= 30,
{
}

/// What a read returns is what its line holds when it returns; nothing else
/// than an accepted line is returned as one. A repaint is put off only while
/// more input waits, and not more than two hundred times in a row.
pub proof fn what_is_returned<H: Hooks + ?Sized>(
    before: (Reading, Kept),
    bindings: Seq<(Key, Bound)>,
    event: Event,
    more: bool,
    history: Seq<String>,
    hooks: &H,
    after: (Reading, Kept, Todo),
)
    requires
        taken(before, bindings, event, more, history, hooks, after),
        before.0.skipped >= 0,
    ensures
        after.2 matches Todo::Return(ReadEnd::Line(text)) ==> text == after.0.line.buffer,
        !(after.2 matches Todo::Return(ReadEnd::Line(_))) ==> after.1.next == before.1.next,
        after.2 != Todo::Return(ReadEnd::TimedOut),
        after.0.decoder == before.0.decoder,
        after.0.skipped > 0 ==> more && after.0.skipped == before.0.skipped + 1 && after.0.skipped
            <= 200 && after.2 is Wait,
{
    let (start, mid) = choose|start: (Line, Known), mid: (Line, Ring, Known, AfterKey)| #[trigger]
        took(before, bindings, event, more, history, hooks, start, mid, after);
    reveal(Line::left);
}

} // verus!
