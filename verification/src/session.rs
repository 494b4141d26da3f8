//! One interactive read, from the first paint to the result: what to do about
//! each thing that happens on the terminal.
//!
//! The reader of the terminal performs the [`Order`]s and reports back with a
//! [`Stimulus`]; what it is to write is in the line's output. Repaints for a
//! burst of typed characters are coalesced: a self-inserting key with more
//! input waiting is not painted, at most 200 in a row, and any other event
//! starts from a fresh paint.
use vstd::prelude::*;

use crate::act::{AfterKey, Answer};
use crate::actions::EditorAction;
use crate::decoder::{decoded, event, expired, ground, quoted, Decoder, Decoding, Event, Input, Mode};
use crate::editor::{
    as_next, as_seed, begun, ending, next_after, Editor, Kept, ReadEnd, ReadResult,
};
use crate::hints::{HintCache, Known};
use crate::hooks::Hooks;
use crate::keys::Key;
use crate::line::{Line, LineState, Pending};
use crate::paint::{render, rendered};
use crate::ring::Ring;
use crate::step::{
    as_bindings, feed, resolve_key, stepped_on, take_host_result, Binding, Bound, Verb,
};
use crate::text::{byte_len, byte_of_index, chars_of, slice, string_of, texts};

verus! {

/// What happened.
#[derive(Debug, Clone, Copy, PartialEq, Eq, Structural)]
pub enum Stimulus {
    /// A byte came in.
    Byte(u8),
    /// No byte came in time.
    Silence,
    /// The input has ended.
    Closed,
    /// The deadline has passed.
    Late,
    /// The terminal is that wide.
    Columns(usize),
    /// The terminal had left raw mode, and is back in it.
    Healed,
}

/// What to do next.
#[derive(Debug, PartialEq, Eq)]
pub enum Order {
    /// Wait for a byte, at most so many milliseconds.
    Wait(u64),
    /// Run the host command of a binding, by its index.
    Host(usize),
    /// Have the line edited in the external editor.
    External,
    /// The read has ended.
    Return(ReadResult),
}

/// What to do next, as a mathematical value.
pub ghost enum Todo {
    Wait(int),
    Host(int),
    External,
    Return(ReadEnd),
}

impl View for Order {
    type V = Todo;

    open spec fn view(&self) -> Todo {
        match self {
            Order::Wait(ms) => Todo::Wait(*ms as int),
            Order::Host(i) => Todo::Host(*i as int),
            Order::External => Todo::External,
            Order::Return(r) => Todo::Return(r@),
        }
    }
}

/// One read in progress.
#[derive(Debug)]
pub struct Session {
    /// The line.
    pub st: LineState,
    /// The key decoder.
    pub decoder: Decoder,
    /// Repaints skipped in a row; the paint is stale while there are any.
    pub skipped: usize,
    /// The hint for the buffer.
    pub hints: HintCache,
}

/// One read in progress, as a mathematical value.
pub ghost struct Reading {
    pub line: Line,
    pub decoder: Decoding,
    pub skipped: int,
    pub hints: Known,
}

impl View for Session {
    type V = Reading;

    open spec fn view(&self) -> Reading {
        Reading {
            line: self.st@,
            decoder: self.decoder@,
            skipped: self.skipped as int,
            hints: self.hints@,
        }
    }
}

/// How long to wait for a byte: an ESC is told from a sequence within 30 ms, a
/// paste may pause for a second before it is given up, a visible bell flashes
/// for 80 ms, and an idle prompt ticks every 200 ms.
pub open spec fn patience(r: Reading) -> int {
    if r.decoder.mode == Mode::Escape {
        30
    } else if r.decoder.mode == Mode::Paste {
        1000
    } else if r.line.flash {
        80
    } else {
        200
    }
}

/// The event inserts its character, and nothing else.
pub open spec fn self_inserts(line: Line, bindings: Seq<(Key, Bound)>, event: Event) -> bool {
    &&& line.search is None
    &&& line.pending == Pending::Nothing
    &&& event matches Event::Key(Key::Char(c)) && line.verb(bindings, Key::Char(c)) == Verb::Run(
        EditorAction::SelfInsert,
    )
}

/// A line and its repaint, whatever the hooks answered, with the hint that is
/// remembered.
pub open spec fn repainted<H: Hooks + ?Sized>(
    before: (Line, Known),
    history: Seq<String>,
    hooks: &H,
    after: (Line, Known),
) -> bool {
    exists|answer: Answer, highlighted: String| #[trigger]
        rendered(before, history, hooks, answer, highlighted, after)
}

/// What an event came to, whatever the hooks answered.
pub open spec fn fed<H: Hooks + ?Sized>(
    before: (Line, Ring, Known),
    bindings: Seq<(Key, Bound)>,
    event: Event,
    history: Seq<String>,
    hooks: &H,
    after: (Line, Ring, Known, AfterKey),
) -> bool {
    exists|answer: Answer| #[trigger]
        stepped_on(before, bindings, event, history, hooks, answer, after)
}

/// The paint that an event starts from: a fresh one, unless it types on.
pub open spec fn refreshed<H: Hooks + ?Sized>(
    r: Reading,
    bindings: Seq<(Key, Bound)>,
    event: Event,
    history: Seq<String>,
    hooks: &H,
    start: (Line, Known),
) -> bool {
    if r.skipped > 0 && !self_inserts(r.line, bindings, event) {
        repainted((r.line, r.hints), history, hooks, start)
    } else {
        start == (r.line, r.hints)
    }
}

/// What is left of an event after the line has taken it.
pub open spec fn wound_up<H: Hooks + ?Sized>(
    mid: (Line, Known),
    after: AfterKey,
    skip: bool,
    history: Seq<String>,
    hooks: &H,
    end: (Line, Known),
) -> bool {
    match after {
        AfterKey::Done => if skip || mid.0.pending != Pending::Nothing {
            end == mid
        } else {
            repainted(mid, history, hooks, end)
        },
        AfterKey::Host(_) => end == mid,
        _ => end == (mid.0.left(), mid.1),
    }
}

/// What is to be done after a key.
pub open spec fn order_after(line: Line, after: AfterKey, r: Reading) -> Todo {
    match after {
        AfterKey::Done => Todo::Wait(patience(r)),
        AfterKey::Host(i) => Todo::Host(i as int),
        AfterKey::External => Todo::External,
        _ => Todo::Return(ending(line, after)->0),
    }
}

/// What an event comes to. What it leaves to the next read is the ring, and, on
/// an accepted line, the entry that the line asked for.
pub open spec fn took<H: Hooks + ?Sized>(
    before: (Reading, Kept),
    bindings: Seq<(Key, Bound)>,
    event: Event,
    more: bool,
    history: Seq<String>,
    hooks: &H,
    start: (Line, Known),
    mid: (Line, Ring, Known, AfterKey),
    after: (Reading, Kept, Todo),
) -> bool {
    let (r, kept) = before;
    let (line, ring, known, key) = mid;
    let skip = more && r.skipped < 200 && self_inserts(r.line, bindings, event);
    &&& refreshed(r, bindings, event, history, hooks, start)
    &&& fed((start.0, kept.ring, start.1), bindings, event, history, hooks, mid)
    &&& wound_up((line, known), key, skip, history, hooks, (after.0.line, after.0.hints))
    &&& after.0.skipped == (if skip && key == AfterKey::Done {
        r.skipped + 1
    } else {
        0
    })
    &&& after.0.decoder == r.decoder
    &&& after.1 == (Kept { ring, next: next_after(line, key, texts(history), kept.next) })
    &&& after.2 == order_after(line, key, after.0)
}

/// What a byte decodes to: literally, where the next character is wanted as it
/// is.
pub open spec fn heard_byte(r: Reading, b: u8) -> (Decoding, Option<Event>) {
    if r.line.pending == Pending::Quoted && r.line.search is None {
        quoted(r.decoder, b)
    } else {
        decoded(r.decoder, b)
    }
}

/// With the flash of a visible bell over.
pub open spec fn unflashed(line: Line) -> Line {
    if line.flash {
        Line { flash: false, ..line.say("\x1b[?5l"@) }
    } else {
        line
    }
}

impl Session {
    /// What holds of every session with a host: the line is well-formed, the
    /// hint is the host's, and no more than 200 repaints are owed.
    pub open spec fn wf<H: Hooks + ?Sized>(self, ed: Editor, hooks: &H) -> bool {
        &&& self.st@.wf(ed.texts())
        &&& self.hints.holds(hooks, ed.log.entries@)
        &&& self.skipped <= 200
    }

    /// The same, of a history's entries.
    spec fn fits<H: Hooks + ?Sized>(self, history: Seq<String>, hooks: &H) -> bool {
        &&& self.st@.wf(texts(history))
        &&& self.hints.holds(hooks, history)
    }

    fn patience(&self) -> (r: u64)
        ensures
            r == patience(self@),
    {
        if self.decoder.mode == Mode::Escape {
            30
        } else if self.decoder.mode == Mode::Paste {
            1000
        } else if self.st.flash {
            80
        } else {
            200
        }
    }

    fn repaint<H: Hooks + ?Sized>(&mut self, history: &[String], hooks: &H)
        requires
            old(self).fits(history@, hooks),
        ensures
            repainted(
                (old(self).st@, old(self).hints@),
                history@,
                hooks,
                (final(self).st@, final(self).hints@),
            ),
            final(self).fits(history@, hooks),
            final(self).decoder == old(self).decoder,
            final(self).skipped == 0,
    {
        render(&mut self.st, history, hooks, &mut self.hints);
        self.skipped = 0;
    }
}

fn types_on(st: &LineState, bindings: &Vec<(Key, Binding)>, input: &Input) -> (r: bool)
    ensures
        r == self_inserts(st@, as_bindings(bindings@), input@),
{
    if st.search.is_some() || st.pending != Pending::Nothing {
        return false;
    }
    match input {
        Input::Key(Key::Char(c)) => match resolve_key(st, bindings, Key::Char(*c)) {
            Verb::Run(EditorAction::SelfInsert) => true,
            _ => false,
        },
        _ => false,
    }
}

/// Begin a read: the line is painted, and the first byte is waited for.
pub fn begin<H: Hooks + ?Sized>(
    ed: &mut Editor,
    prompt: &str,
    rprompt: &str,
    cols: usize,
    seed: Option<(&str, &str)>,
    hooks: &H,
) -> (r: Session)
    requires
        old(ed).wf(),
    ensures
        exists|vi: bool|
            call_ensures(H::vi_mode, (hooks,), vi) && #[trigger] repainted(
                (
                    begun(
                        prompt@,
                        rprompt@,
                        cols as int,
                        vi,
                        old(ed).cfg,
                        as_seed(seed),
                        as_next(old(ed).operate_next),
                        old(ed).texts(),
                    ),
                    None,
                ),
                old(ed).log.entries@,
                hooks,
                (r.st@, r.hints@),
            ),
        r.decoder@ == ground(),
        r.skipped == 0,
        r.wf(*final(ed), hooks),
        *final(ed) == (Editor { operate_next: None, ..*old(ed) }),
        final(ed).wf(),
{
    let vi = hooks.vi_mode();
    assert(call_ensures(H::vi_mode, (hooks,), vi));
    let st = ed.begin_line(prompt, rprompt, cols, vi, seed);
    let mut s = Session { st, decoder: Decoder::new(), skipped: 0, hints: HintCache::new() };
    s.repaint(ed.log.entries.as_slice(), hooks);
    s
}

fn wind_up<H: Hooks + ?Sized>(
    ed: &mut Editor,
    s: &mut Session,
    after: AfterKey,
    skip: bool,
    hooks: &H,
) -> (r: Order)
    requires
        old(ed).wf(),
        old(s).wf(*old(ed), hooks),
        old(s).skipped < 200 || !skip,
    ensures
        wound_up(
            (old(s).st@, old(s).hints@),
            after,
            skip,
            old(ed).log.entries@,
            hooks,
            (final(s).st@, final(s).hints@),
        ),
        r@ == order_after(old(s).st@, after, final(s)@),
        final(s).skipped == (if skip && after == AfterKey::Done {
            old(s).skipped + 1
        } else {
            0
        }),
        final(s).decoder == old(s).decoder,
        final(s).wf(*final(ed), hooks),
        as_next(final(ed).operate_next) == next_after(
            old(s).st@,
            after,
            old(ed).texts(),
            as_next(old(ed).operate_next),
        ),
        *final(ed) == (Editor { operate_next: final(ed).operate_next, ..*old(ed) }),
        final(ed).wf(),
{
    match after {
        AfterKey::Done => {
            if skip {
                s.skipped = s.skipped + 1;
            } else if s.st.pending != Pending::Nothing {
                s.skipped = 0;
            } else {
                s.repaint(ed.log.entries.as_slice(), hooks);
            }
            Order::Wait(s.patience())
        },
        AfterKey::Host(i) => {
            s.skipped = 0;
            Order::Host(i)
        },
        AfterKey::External => {
            s.skipped = 0;
            s.st.finish_line();
            Order::External
        },
        _ => {
            s.skipped = 0;
            let end = ed.end_line(&mut s.st, after);
            proof {
                reveal(Line::left);
            }
            Order::Return(end.unwrap())
        },
    }
}

/// Take an input event. `more` tells whether more input is waiting already.
pub fn take_event<H: Hooks + ?Sized>(
    ed: &mut Editor,
    s: &mut Session,
    input: &Input,
    more: bool,
    hooks: &H,
) -> (r: Order)
    requires
        old(ed).wf(),
        old(s).wf(*old(ed), hooks),
    ensures
        taken(
            (old(s)@, old(ed).kept()),
            old(ed).binds(),
            input@,
            more,
            old(ed).log.entries@,
            hooks,
            (final(s)@, final(ed).kept(), r@),
        ),
        final(s).wf(*final(ed), hooks),
        *final(ed) == (Editor {
            kill_ring: final(ed).kill_ring,
            operate_next: final(ed).operate_next,
            ..*old(ed)
        }),
        final(ed).wf(),
{
    let ghost before = (s@, ed.kept());
    let typing = types_on(&s.st, &ed.bindings, input);
    let skip = more && s.skipped < 200 && typing;
    if s.skipped > 0 && !typing {
        s.repaint(ed.log.entries.as_slice(), hooks);
    }
    let ghost start = (s.st@, s.hints@);
    let after = feed(
        &mut s.st,
        &mut ed.kill_ring,
        &ed.bindings,
        input,
        ed.log.entries.as_slice(),
        hooks,
        &mut s.hints,
    );
    let ghost mid = (s.st@, ed.kill_ring@, s.hints@, after);
    let r = wind_up(ed, s, after, skip, hooks);
    assert(took(
        before,
        old(ed).binds(),
        input@,
        more,
        old(ed).log.entries@,
        hooks,
        start,
        mid,
        (s@, ed.kept(), r@),
    ));
    r
}

/// What an event comes to, whatever the hooks answered.
pub open spec fn taken<H: Hooks + ?Sized>(
    before: (Reading, Kept),
    bindings: Seq<(Key, Bound)>,
    event: Event,
    more: bool,
    history: Seq<String>,
    hooks: &H,
    after: (Reading, Kept, Todo),
) -> bool {
    exists|start: (Line, Known), mid: (Line, Ring, Known, AfterKey)| #[trigger]
        took(before, bindings, event, more, history, hooks, start, mid, after)
}

/// The line with an up-to-date paint.
pub open spec fn up_to_date<H: Hooks + ?Sized>(
    r: Reading,
    history: Seq<String>,
    hooks: &H,
    now: (Line, Known),
) -> bool {
    if r.skipped > 0 {
        repainted((r.line, r.hints), history, hooks, now)
    } else {
        now == (r.line, r.hints)
    }
}

/// The read over: the terminal is below an up-to-date paint.
pub open spec fn broken_off<H: Hooks + ?Sized>(
    r: Reading,
    history: Seq<String>,
    hooks: &H,
    end: Reading,
) -> bool {
    &&& exists|now: (Line, Known)| #[trigger]
        up_to_date(r, history, hooks, now) && end.line == now.0.left() && end.hints == now.1
    &&& end.decoder == r.decoder
    &&& end.skipped == 0
}

/// A changed line painted, unless a key is wanted for something else.
pub open spec fn shown_anew<H: Hooks + ?Sized>(
    r: Reading,
    history: Seq<String>,
    hooks: &H,
    end: Reading,
) -> bool {
    if r.line.pending != Pending::Nothing {
        end == r
    } else {
        &&& repainted((r.line, r.hints), history, hooks, (end.line, end.hints))
        &&& end.decoder == r.decoder
        &&& end.skipped == 0
    }
}

/// What each thing that happens comes to. Only an event leaves anything to the
/// next read. Silence that ends no key and no flash is an idle tick: the host is
/// given a beat.
pub open spec fn reacted<H: Hooks + ?Sized>(
    before: (Reading, Kept),
    bindings: Seq<(Key, Bound)>,
    stimulus: Stimulus,
    more: bool,
    history: Seq<String>,
    hooks: &H,
    after: (Reading, Kept, Todo),
) -> bool {
    let (r, kept) = before;
    match stimulus {
        Stimulus::Byte(b) => {
            let (decoder, event) = heard_byte(r, b);
            let next = Reading { line: unflashed(r.line), decoder, ..r };
            match event {
                Some(e) => taken((next, kept), bindings, e, more, history, hooks, after),
                None => after == (next, kept, Todo::Wait(patience(next))),
            }
        },
        Stimulus::Silence => {
            let (decoder, event) = expired(r.decoder);
            match event {
                Some(e) => taken(
                    (Reading { decoder, ..r }, kept),
                    bindings,
                    e,
                    more,
                    history,
                    hooks,
                    after,
                ),
                None => {
                    let next = Reading { line: unflashed(r.line), ..r };
                    &&& !r.line.flash ==> call_ensures(H::on_interrupted_read, (hooks,), ())
                    &&& up_to_date(next, history, hooks, (after.0.line, after.0.hints))
                    &&& after.0.decoder == r.decoder
                    &&& after.0.skipped == 0
                    &&& after.1 == kept
                    &&& after.2 == Todo::Wait(patience(after.0))
                },
            }
        },
        Stimulus::Closed => {
            &&& broken_off(r, history, hooks, after.0)
            &&& after.1 == kept
            &&& after.2 == Todo::Return(ReadEnd::Eof)
        },
        Stimulus::Late => {
            &&& broken_off(r, history, hooks, after.0)
            &&& after.1 == kept
            &&& after.2 == Todo::Return(ReadEnd::TimedOut)
        },
        Stimulus::Columns(cols) => {
            &&& if cols == r.line.cols {
                after.0 == r
            } else {
                shown_anew(
                    Reading { line: Line { cols: cols as int, ..r.line }, ..r },
                    history,
                    hooks,
                    after.0,
                )
            }
            &&& after.1 == kept
            &&& after.2 == Todo::Wait(patience(after.0))
        },
        Stimulus::Healed => {
            &&& shown_anew(
                Reading { line: r.line.say("\n"@).region(), ..r },
                history,
                hooks,
                after.0,
            )
            &&& after.1 == kept
            &&& after.2 == Todo::Wait(patience(after.0))
        },
    }
}

fn break_off<H: Hooks + ?Sized>(s: &mut Session, history: &[String], hooks: &H)
    requires
        old(s).fits(history@, hooks),
    ensures
        broken_off(old(s)@, history@, hooks, final(s)@),
        final(s).fits(history@, hooks),
{
    let ghost before = s@;
    if s.skipped > 0 {
        s.repaint(history, hooks);
    }
    let ghost now = (s.st@, s.hints@);
    assert(up_to_date(before, history@, hooks, now));
    s.st.finish_line();
}

fn show_anew<H: Hooks + ?Sized>(s: &mut Session, history: &[String], hooks: &H)
    requires
        old(s).fits(history@, hooks),
    ensures
        shown_anew(old(s)@, history@, hooks, final(s)@),
        final(s).fits(history@, hooks),
{
    if s.st.pending == Pending::Nothing {
        s.repaint(history, hooks);
    }
}

fn hear_byte(s: &mut Session, b: u8) -> (r: Option<Input>)
    ensures
        (final(s)@.decoder, event(r)) == heard_byte(old(s)@, b),
        final(s).st@ == unflashed(old(s).st@),
        final(s).skipped == old(s).skipped,
        final(s).st@.keeps(old(s).st@),
        final(s).hints == old(s).hints,
{
    s.st.end_flash();
    if s.st.pending == Pending::Quoted && s.st.search.is_none() {
        s.decoder.push_quoted(b)
    } else {
        s.decoder.push(b)
    }
}

fn react_to_byte<H: Hooks + ?Sized>(
    ed: &mut Editor,
    s: &mut Session,
    b: u8,
    more: bool,
    hooks: &H,
) -> (r: Order)
    requires
        old(ed).wf(),
        old(s).wf(*old(ed), hooks),
    ensures
        reacted(
            (old(s)@, old(ed).kept()),
            old(ed).binds(),
            Stimulus::Byte(b),
            more,
            old(ed).log.entries@,
            hooks,
            (final(s)@, final(ed).kept(), r@),
        ),
        final(s).wf(*final(ed), hooks),
        *final(ed) == (Editor {
            kill_ring: final(ed).kill_ring,
            operate_next: final(ed).operate_next,
            ..*old(ed)
        }),
        final(ed).wf(),
{
    match hear_byte(s, b) {
        Some(input) => take_event(ed, s, &input, more, hooks),
        None => Order::Wait(s.patience()),
    }
}

fn tick<H: Hooks + ?Sized>(s: &mut Session, history: &[String], hooks: &H)
    requires
        old(s).fits(history@, hooks),
    ensures
        !old(s).st@.flash ==> call_ensures(H::on_interrupted_read, (hooks,), ()),
        up_to_date(
            (Reading { line: unflashed(old(s).st@), ..old(s)@ }),
            history@,
            hooks,
            (final(s).st@, final(s).hints@),
        ),
        final(s).decoder == old(s).decoder,
        final(s).skipped == 0,
        final(s).fits(history@, hooks),
{
    if !s.st.flash {
        hooks.on_interrupted_read();
    }
    s.st.end_flash();
    if s.skipped > 0 {
        s.repaint(history, hooks);
    }
}

fn react_to_silence<H: Hooks + ?Sized>(
    ed: &mut Editor,
    s: &mut Session,
    more: bool,
    hooks: &H,
) -> (r: Order)
    requires
        old(ed).wf(),
        old(s).wf(*old(ed), hooks),
    ensures
        reacted(
            (old(s)@, old(ed).kept()),
            old(ed).binds(),
            Stimulus::Silence,
            more,
            old(ed).log.entries@,
            hooks,
            (final(s)@, final(ed).kept(), r@),
        ),
        final(s).wf(*final(ed), hooks),
        *final(ed) == (Editor {
            kill_ring: final(ed).kill_ring,
            operate_next: final(ed).operate_next,
            ..*old(ed)
        }),
        final(ed).wf(),
{
    match s.decoder.expire() {
        Some(input) => take_event(ed, s, &input, more, hooks),
        None => {
            tick(s, ed.log.entries.as_slice(), hooks);
            Order::Wait(s.patience())
        },
    }
}

fn react_to_columns<H: Hooks + ?Sized>(
    ed: &mut Editor,
    s: &mut Session,
    cols: usize,
    more: bool,
    hooks: &H,
) -> (r: Order)
    requires
        old(ed).wf(),
        old(s).wf(*old(ed), hooks),
    ensures
        reacted(
            (old(s)@, old(ed).kept()),
            old(ed).binds(),
            Stimulus::Columns(cols),
            more,
            old(ed).log.entries@,
            hooks,
            (final(s)@, final(ed).kept(), r@),
        ),
        final(s).wf(*final(ed), hooks),
        *final(ed) == (Editor {
            kill_ring: final(ed).kill_ring,
            operate_next: final(ed).operate_next,
            ..*old(ed)
        }),
        final(ed).wf(),
{
    if cols != s.st.cols {
        s.st.cols = cols;
        show_anew(s, ed.log.entries.as_slice(), hooks);
    }
    Order::Wait(s.patience())
}

fn react_to_healing<H: Hooks + ?Sized>(
    ed: &mut Editor,
    s: &mut Session,
    more: bool,
    hooks: &H,
) -> (r: Order)
    requires
        old(ed).wf(),
        old(s).wf(*old(ed), hooks),
    ensures
        reacted(
            (old(s)@, old(ed).kept()),
            old(ed).binds(),
            Stimulus::Healed,
            more,
            old(ed).log.entries@,
            hooks,
            (final(s)@, final(ed).kept(), r@),
        ),
        final(s).wf(*final(ed), hooks),
        *final(ed) == (Editor {
            kill_ring: final(ed).kill_ring,
            operate_next: final(ed).operate_next,
            ..*old(ed)
        }),
        final(ed).wf(),
{
    s.st.say("\n");
    s.st.new_region();
    show_anew(s, ed.log.entries.as_slice(), hooks);
    Order::Wait(s.patience())
}

/// React to what happened on the terminal. `more` tells whether more input is
/// waiting already. An idle tick gives the host a beat to fire pending signal
/// traps.
pub fn react<H: Hooks + ?Sized>(
    ed: &mut Editor,
    s: &mut Session,
    stimulus: Stimulus,
    more: bool,
    hooks: &H,
) -> (r: Order)
    requires
        old(ed).wf(),
        old(s).wf(*old(ed), hooks),
    ensures
        reacted(
            (old(s)@, old(ed).kept()),
            old(ed).binds(),
            stimulus,
            more,
            old(ed).log.entries@,
            hooks,
            (final(s)@, final(ed).kept(), r@),
        ),
        final(s).wf(*final(ed), hooks),
        *final(ed) == (Editor {
            kill_ring: final(ed).kill_ring,
            operate_next: final(ed).operate_next,
            ..*old(ed)
        }),
        final(ed).wf(),
{
    match stimulus {
        Stimulus::Byte(b) => react_to_byte(ed, s, b, more, hooks),
        Stimulus::Silence => react_to_silence(ed, s, more, hooks),
        Stimulus::Closed => {
            break_off(s, ed.log.entries.as_slice(), hooks);
            Order::Return(ReadResult::Eof)
        },
        Stimulus::Late => {
            break_off(s, ed.log.entries.as_slice(), hooks);
            Order::Return(ReadResult::TimedOut)
        },
        Stimulus::Columns(cols) => react_to_columns(ed, s, cols, more, hooks),
        Stimulus::Healed => react_to_healing(ed, s, more, hooks),
    }
}

/// What to hand to the host for a key bound to a host command: its tag, the
/// line, and the cursor as a byte offset.
pub fn host_request(ed: &Editor, s: &Session, i: usize) -> (r: Option<(String, String, usize)>)
    requires
        ed.wf(),
        s.st@.wf(ed.texts()),
    ensures
        match r {
            Some((tag, line, cursor)) => i < ed.binds().len() && ed.binds()[i as int].1
                == Bound::Host(tag@) && line@ == s.st@.buffer && cursor == byte_len(
                s.st@.buffer.take(s.st@.cursor),
            ) as usize,
            None => !(i < ed.binds().len() && ed.binds()[i as int].1 is Host),
        },
{
    proof {
        reveal(as_bindings);
    }
    if i >= ed.bindings.len() {
        return None;
    }
    match &ed.bindings[i].1 {
        Binding::Host(tag) => {
            let cursor = byte_of_index(s.st.buffer.as_slice(), s.st.cursor);
            Some((tag.clone(), s.st.text(), cursor))
        },
        _ => None,
    }
}

/// A host command has run: what it left in the line and the cursor is taken
/// over, and the line is painted on a fresh region.
pub fn host_done<H: Hooks + ?Sized>(
    ed: &Editor,
    s: &mut Session,
    line: &str,
    cursor: usize,
    hooks: &H,
) -> (r: Order)
    requires
        ed.wf(),
        old(s).wf(*ed, hooks),
    ensures
        repainted(
            (old(s).st@.rewritten(line@, cursor as int), old(s).hints@),
            ed.log.entries@,
            hooks,
            (final(s).st@, final(s).hints@),
        ),
        final(s).decoder == old(s).decoder,
        final(s).skipped == 0,
        r@ == Todo::Wait(patience(final(s)@)),
        final(s).wf(*ed, hooks),
{
    take_host_result(&mut s.st, line, cursor);
    s.repaint(ed.log.entries.as_slice(), hooks);
    Order::Wait(s.patience())
}

/// A text without the newlines at its end.
pub open spec fn without_final_newlines(s: Seq<char>) -> Seq<char>
    decreases s.len(),
{
    if s.len() > 0 && s.last() == '\n' {
        without_final_newlines(s.drop_last())
    } else {
        s
    }
}

fn trim_newlines(text: &str) -> (r: String)
    ensures
        r@ == without_final_newlines(text@),
{
    let v = chars_of(text);
    let mut n: usize = v.len();
    assert(v@.take(n as int) =~= v@);
    while n > 0 && v[n - 1] == '\n'
        invariant
            n <= v@.len(),
            without_final_newlines(v@.take(n as int)) == without_final_newlines(text@),
        decreases n,
    {
        assert(v@.take(n as int).drop_last() =~= v@.take(n - 1));
        n -= 1;
    }
    assert(n > 0 ==> v@.take(n as int).last() == v@[n - 1]);
    let kept = slice(v.as_slice(), 0, n);
    assert(kept@ =~= v@.take(n as int));
    string_of(kept.as_slice())
}

/// The external editor has run: what it left is the line, or, when it failed
/// or was declined, the line is painted on a fresh region.
pub fn edited<H: Hooks + ?Sized>(
    ed: &Editor,
    s: &mut Session,
    text: Option<&str>,
    hooks: &H,
) -> (r: Order)
    requires
        ed.wf(),
        old(s).wf(*ed, hooks),
    ensures
        match text {
            Some(t) => *final(s) == *old(s) && r@ == Todo::Return(
                ReadEnd::Line(without_final_newlines(t@)),
            ),
            None => repainted(
                (old(s).st@.region(), old(s).hints@),
                ed.log.entries@,
                hooks,
                (final(s).st@, final(s).hints@),
            ) && final(s).decoder == old(s).decoder && final(s).skipped == 0 && r@ == Todo::Wait(
                patience(final(s)@),
            ),
        },
        final(s).wf(*ed, hooks),
{
    match text {
        Some(t) => Order::Return(ReadResult::Line(trim_newlines(t))),
        None => {
            s.st.new_region();
            s.repaint(ed.log.entries.as_slice(), hooks);
            Order::Wait(s.patience())
        },
    }
}

} // verus!
