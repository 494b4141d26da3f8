//! What one input event does to the line: search, pending keys, pastes, the
//! bindings, and the undo bookkeeping around them.
use vstd::prelude::*;

use crate::act::{
    apply_action, consult, heard, remembered, what_to_ask, AfterKey, Answer, Ask, Reply,
};
use crate::actions::{default_action, default_of, EditorAction};
use crate::complete::answer_list_query;
use crate::decoder::{Event, Input};
use crate::edit::{insert_char, undo_cmd};
use crate::hints::{HintCache, Known};
use crate::hooks::Hooks;
use crate::keys::Key;
use crate::line::{as_undo, Action, Line, LineState, Pending};
use crate::ring::{newest, KillRing, Ring};
use crate::search::{flattened, handle_search_key, search_paste, SearchOutcome};
use crate::text::{
    char_index, chars_of, copy, first_index, index_before, index_from, index_of_byte, last_index,
    same, spliced, texts,
};
use crate::vi::handle_vi_normal;

verus! {

/// A key's resolved binding: a named action, a host command tag (`bind -x`),
/// or explicitly nothing (`bind -r` masking a default).
#[derive(Debug, PartialEq, Eq)]
pub enum Binding {
    /// A named action.
    Action(EditorAction),
    /// A host command.
    Host(String),
    /// Nothing.
    Unbound,
}

/// A key's binding, as a mathematical value.
#[verifier::ext_equal]
pub ghost enum Bound {
    Action(EditorAction),
    Host(Seq<char>),
    Unbound,
}

impl View for Binding {
    type V = Bound;

    open spec fn view(&self) -> Bound {
        match self {
            Binding::Action(a) => Bound::Action(*a),
            Binding::Host(tag) => Bound::Host(tag@),
            Binding::Unbound => Bound::Unbound,
        }
    }
}

/// The bindings, as mathematical values.
#[verifier::opaque]
pub open spec fn as_bindings(v: Seq<(Key, Binding)>) -> Seq<(Key, Bound)> {
    Seq::new(v.len(), |i: int| (v[i].0, v[i].1@))
}

/// Where a key is bound, from `from` on.
pub open spec fn bound_at(b: Seq<(Key, Bound)>, key: Key, from: int) -> Option<int>
    decreases b.len() - from,
{
    if from < 0 || from >= b.len() {
        None
    } else if b[from].0 == key {
        Some(from)
    } else {
        bound_at(b, key, from + 1)
    }
}

/// What a key means at the prompt.
#[derive(Debug, Clone, Copy, PartialEq, Eq, Structural)]
pub enum Verb {
    /// Nothing.
    Nothing,
    /// Run an action.
    Run(EditorAction),
    /// A vi normal-mode key.
    Vi,
    /// Enter vi normal mode.
    NormalMode,
    /// The C-x prefix.
    Chord,
    /// Run the host command of a binding.
    Host(usize),
}

impl Line {
    /// What a key means in vi normal mode: a fixed keymap; only the global
    /// controls are shared with the bindings.
    pub open spec fn normal_verb(self, key: Key) -> Verb {
        match key {
            Key::Enter => Verb::Run(EditorAction::AcceptLine),
            Key::Tab => Verb::Run(EditorAction::Complete),
            Key::ShiftTab => Verb::Run(EditorAction::MenuCompleteBackward),
            Key::Ctrl(c) => if c == 'c' {
                Verb::Run(EditorAction::Interrupt)
            } else if c == 'd' && self.buffer.len() == 0 {
                Verb::Run(EditorAction::DeleteCharOrEof)
            } else if c == 'r' {
                Verb::Run(EditorAction::ReverseSearchHistory)
            } else if c == 's' {
                Verb::Run(EditorAction::ForwardSearchHistory)
            } else if c == 'l' {
                Verb::Run(EditorAction::ClearScreen)
            } else if c == '_' || c == 'z' {
                Verb::Run(EditorAction::Undo)
            } else if c == 'x' {
                Verb::Chord
            } else if c == 'v' || c == 'q' {
                Verb::Run(EditorAction::QuotedInsert)
            } else {
                Verb::Vi
            },
            Key::Char(c) => if c == 'v' && self.vi_op is None && self.vi_find is None
                && self.vi_object is None && !self.vi_replace {
                Verb::Run(EditorAction::EditAndExecuteCommand)
            } else {
                Verb::Vi
            },
            _ => Verb::Vi,
        }
    }

    /// What a key means: in the emacs and vi-insert keymaps the host's
    /// bindings come first, then the defaults.
    pub open spec fn verb(self, bindings: Seq<(Key, Bound)>, key: Key) -> Verb {
        if self.vi && self.vi_normal {
            self.normal_verb(key)
        } else if self.vi && key == Key::Esc {
            Verb::NormalMode
        } else {
            match bound_at(bindings, key, 0) {
                Some(i) => match bindings[i].1 {
                    Bound::Action(a) => Verb::Run(a),
                    Bound::Host(_) => Verb::Host(i as usize),
                    Bound::Unbound => Verb::Nothing,
                },
                None => if key == Key::Ctrl('x') {
                    Verb::Chord
                } else {
                    match default_of(key) {
                        Some(a) => Verb::Run(a),
                        None => Verb::Nothing,
                    }
                },
            }
        }
    }

    /// With what the key ends ended: candidate cycling, unless the key
    /// completes, and the prefix anchor, unless it is a prefix search.
    pub open spec fn readied(self, verb: Verb) -> Line {
        Line {
            menu: if completes(verb) {
                self.menu
            } else {
                None
            },
            anchored: self.anchored && searches_prefix(verb),
            ..self
        }
    }

    /// What a key does at the prompt.
    #[verifier::opaque]
    pub open spec fn done(
        self,
        ring: Ring,
        verb: Verb,
        key: Key,
        history: Seq<Seq<char>>,
        answer: Answer,
    ) -> (Line, Ring, AfterKey) {
        let l = self.readied(verb);
        match verb {
            Verb::Nothing => (l, ring, AfterKey::Done),
            Verb::Run(action) => l.acted(ring, action, key, history, answer),
            Verb::Vi => {
                let (m, r) = l.vi_key(ring, key, history);
                (m, r, AfterKey::Done)
            },
            Verb::NormalMode => (
                Line {
                    vi_normal: true,
                    cursor: if l.cursor > 0 {
                        l.cursor - 1
                    } else {
                        l.cursor
                    },
                    ..l
                },
                ring,
                AfterKey::Done,
            ),
            Verb::Chord => (Line { pending: Pending::Chord, ..l }, ring, AfterKey::Done),
            Verb::Host(i) => (l.left(), ring, AfterKey::Host(i)),
        }
    }

    /// With the cursor on an occurrence of a character: the next one, or the
    /// previous one. Without one the bell rings.
    #[verifier::opaque]
    pub open spec fn at_char(self, c: char, forward: bool) -> Line {
        let found = if forward {
            first_index(self.buffer, self.cursor + 1, c)
        } else {
            last_index(self.buffer, self.cursor, c)
        };
        match found {
            Some(i) => Line { cursor: i, ..self },
            None => self.rung(),
        }
    }

    /// The second key of a C-x chord: C-e edits the line externally, C-u
    /// undoes.
    #[verifier::opaque]
    pub open spec fn chorded(self, event: Event) -> (Line, AfterKey) {
        let l = Line { pending: Pending::Nothing, ..self };
        if event == Event::Key(Key::Ctrl('e')) {
            (l, AfterKey::External)
        } else if event == Event::Key(Key::Ctrl('u')) {
            (l.undone(), AfterKey::Done)
        } else {
            (l, AfterKey::Done)
        }
    }

    /// With a character inserted literally.
    #[verifier::opaque]
    pub open spec fn quoted_in(self, event: Event) -> Line {
        let l = Line { pending: Pending::Nothing, ..self };
        match event {
            Event::Literal(c) => Line { this_action: Action::Insert, ..l.typed(c) },
            _ => l,
        }
    }

    /// With the cursor moved to a typed character.
    #[verifier::opaque]
    pub open spec fn sought_out(self, event: Event, forward: bool) -> Line {
        let l = Line { pending: Pending::Nothing, ..self };
        match event {
            Event::Key(Key::Char(c)) => l.at_char(c, forward),
            _ => l,
        }
    }

    /// What an event does that an earlier key waits for.
    #[verifier::opaque]
    pub open spec fn resumed(self, event: Event) -> (Line, AfterKey) {
        match self.pending {
            Pending::Nothing => (self, AfterKey::Done),
            Pending::Chord => self.chorded(event),
            Pending::Quoted => (self.quoted_in(event), AfterKey::Done),
            Pending::FindChar(forward) => (self.sought_out(event, forward), AfterKey::Done),
            Pending::ListQuery(arm) => (
                self.list_answered(
                    arm,
                    event == Event::Key(Key::Char('y')) || event == Event::Key(Key::Char('Y'))
                        || event == Event::Key(Key::Char(' ')),
                ),
                AfterKey::Done,
            ),
        }
    }

    /// With pasted text inserted verbatim, line endings normalized.
    #[verifier::opaque]
    pub open spec fn pasted_in(self, text: Seq<char>) -> Line {
        Line { menu: None, anchored: false, ..self }.put(self.cursor, self.cursor, unified(text))
    }

    /// The key goes on with an undo group.
    pub open spec fn groups(self) -> bool {
        &&& self.this_action == self.prev_action
        &&& self.this_action == Action::Insert || self.this_action == Action::Delete
        &&& self.run < 20
    }

    /// With the mutation since a snapshot made undoable. Runs of plain
    /// self-insert, and of single-character deletes, are grouped, at most 20
    /// characters to a group.
    #[verifier::opaque]
    pub open spec fn booked(self, buffer: Seq<char>, cursor: int) -> Line {
        if self.buffer == buffer || self.this_action == Action::Undo {
            Line { prev_action: self.this_action, ..self }
        } else if self.groups() {
            Line { run: self.run + 1, prev_action: self.this_action, ..self }
        } else {
            Line {
                undo: newest(self.undo.push((buffer, cursor)), self.cfg.max_undo as int),
                run: 1,
                prev_action: self.this_action,
                ..self
            }
        }
    }

    /// What an event does while searching.
    #[verifier::opaque]
    pub open spec fn searched(self, event: Event, history: Seq<Seq<char>>) -> (Line, AfterKey) {
        match event {
            Event::Key(key) => {
                let (l, outcome) = self.search_key(key, history);
                (
                    l,
                    match outcome {
                        SearchOutcome::Accept => AfterKey::Accept,
                        SearchOutcome::Interrupted => AfterKey::Interrupted,
                        _ => AfterKey::Done,
                    },
                )
            },
            Event::Paste(text) => (
                self.narrowed(flattened(unified(text)), history),
                AfterKey::Done,
            ),
            Event::Literal(_) => (self, AfterKey::Done),
        }
    }

    /// What an event does outside of searching, before it is booked.
    pub open spec fn handled(
        self,
        ring: Ring,
        bindings: Seq<(Key, Bound)>,
        event: Event,
        history: Seq<Seq<char>>,
        answer: Answer,
    ) -> (Line, Ring, AfterKey) {
        if self.pending != Pending::Nothing {
            let (l, after) = self.resumed(event);
            (l, ring, after)
        } else {
            match event {
                Event::Key(key) => self.done(
                    ring,
                    self.verb(bindings, key),
                    key,
                    history,
                    answer,
                ),
                Event::Paste(text) => (self.pasted_in(text), ring, AfterKey::Done),
                Event::Literal(_) => (self, ring, AfterKey::Done),
            }
        }
    }

    /// What one input event does, given what the host answered.
    #[verifier::opaque]
    pub open spec fn stepped(
        self,
        ring: Ring,
        bindings: Seq<(Key, Bound)>,
        event: Event,
        history: Seq<Seq<char>>,
        answer: Answer,
    ) -> (Line, Ring, AfterKey) {
        if self.search is Some {
            let (l, after) = self.searched(event, history);
            (l, ring, after)
        } else {
            let (l, r, after) = Line { this_action: Action::Other, ..self }.handled(
                ring,
                bindings,
                event,
                history,
                answer,
            );
            if l.pending == Pending::Nothing && (after == AfterKey::Done || after
                == AfterKey::External) {
                (l.booked(self.buffer, self.cursor), r, after)
            } else {
                (l, r, after)
            }
        }
    }

    /// What an event makes the line ask the host.
    pub open spec fn inquires(self, bindings: Seq<(Key, Bound)>, event: Event) -> Ask {
        if self.search is Some || self.pending != Pending::Nothing {
            Ask::Nothing
        } else {
            match event {
                Event::Key(key) => match self.verb(bindings, key) {
                    Verb::Run(action) => self.readied(Verb::Run(action)).asks(action, key),
                    _ => Ask::Nothing,
                },
                _ => Ask::Nothing,
            }
        }
    }

    /// With what a host command left in the line and the cursor: a cursor past
    /// the end, or inside a UTF-8 sequence, is clamped.
    pub open spec fn rewritten(self, text: Seq<char>, bytes: int) -> Line {
        Line { buffer: text, cursor: char_index(text, bytes), ..self }.region().booked(
            self.buffer,
            self.cursor,
        )
    }
}

/// The key performs completion itself.
pub open spec fn completes(verb: Verb) -> bool {
    verb == Verb::Run(EditorAction::Complete) || verb == Verb::Run(EditorAction::MenuComplete)
        || verb == Verb::Run(EditorAction::MenuCompleteBackward)
}

/// The key is a prefix search.
pub open spec fn searches_prefix(verb: Verb) -> bool {
    verb == Verb::Run(EditorAction::HistorySearchBackward) || verb == Verb::Run(
        EditorAction::HistorySearchForward,
    )
}

/// Text with `\r\n` and `\r` as `\n`.
pub open spec fn unified(s: Seq<char>) -> Seq<char>
    decreases s.len(),
{
    if s.len() == 0 {
        Seq::empty()
    } else if s[0] != '\r' {
        seq![s[0]] + unified(s.skip(1))
    } else if s.len() > 1 && s[1] == '\n' {
        seq!['\n'] + unified(s.skip(2))
    } else {
        seq!['\n'] + unified(s.skip(1))
    }
}

/// Where a key is bound.
pub fn find_binding(bindings: &Vec<(Key, Binding)>, key: &Key) -> (r: Option<usize>)
    ensures
        crate::text::as_index(r) == bound_at(as_bindings(bindings@), *key, 0),
        r matches Some(i) ==> i < bindings@.len(),
{
    reveal(as_bindings);
    let ghost all = as_bindings(bindings@);
    let mut i: usize = 0;
    while i < bindings.len()
        invariant
            i <= bindings@.len(),
            all == as_bindings(bindings@),
            bound_at(all, *key, 0) == bound_at(all, *key, i as int),
        decreases bindings@.len() - i,
    {
        reveal(as_bindings);
        if bindings[i].0 == *key {
            return Some(i);
        }
        i += 1;
    }
    None
}

fn normal_mode_verb(st: &LineState, key: Key) -> (r: Verb)
    ensures
        r == st@.normal_verb(key),
{
    match key {
        Key::Enter => Verb::Run(EditorAction::AcceptLine),
        Key::Tab => Verb::Run(EditorAction::Complete),
        Key::ShiftTab => Verb::Run(EditorAction::MenuCompleteBackward),
        Key::Ctrl(c) => match c {
            'c' => Verb::Run(EditorAction::Interrupt),
            'd' => if st.buffer.len() == 0 {
                Verb::Run(EditorAction::DeleteCharOrEof)
            } else {
                Verb::Vi
            },
            'r' => Verb::Run(EditorAction::ReverseSearchHistory),
            's' => Verb::Run(EditorAction::ForwardSearchHistory),
            'l' => Verb::Run(EditorAction::ClearScreen),
            '_' | 'z' => Verb::Run(EditorAction::Undo),
            'x' => Verb::Chord,
            'v' | 'q' => Verb::Run(EditorAction::QuotedInsert),
            _ => Verb::Vi,
        },
        Key::Char(c) => if c == 'v' && st.vi_op.is_none() && st.vi_find.is_none()
            && st.vi_object.is_none() && !st.vi_replace {
            Verb::Run(EditorAction::EditAndExecuteCommand)
        } else {
            Verb::Vi
        },
        _ => Verb::Vi,
    }
}

/// What a key means.
pub fn resolve_key(st: &LineState, bindings: &Vec<(Key, Binding)>, key: Key) -> (r: Verb)
    ensures
        r == st@.verb(as_bindings(bindings@), key),
{
    if st.vi && st.vi_normal {
        return normal_mode_verb(st, key);
    }
    if st.vi && key == Key::Esc {
        return Verb::NormalMode;
    }
    match find_binding(bindings, &key) {
        Some(i) => {
            assert(as_bindings(bindings@)[i as int].1 == bindings@[i as int].1@) by {
                reveal(as_bindings);
            }
            match &bindings[i].1 {
                Binding::Action(a) => Verb::Run(*a),
                Binding::Host(_) => Verb::Host(i),
                Binding::Unbound => Verb::Nothing,
            }
        },
        None => if key == Key::Ctrl('x') {
            Verb::Chord
        } else {
            match default_action(&key) {
                Some(a) => Verb::Run(a),
                None => Verb::Nothing,
            }
        },
    }
}

/// Whether a key resolves to a completion action: the one case that must not
/// tear down the menu-cycling state before dispatch.
pub fn key_completes(verb: Verb) -> (r: bool)
    ensures
        r == completes(verb),
{
    match verb {
        Verb::Run(EditorAction::Complete) | Verb::Run(EditorAction::MenuComplete) | Verb::Run(
            EditorAction::MenuCompleteBackward,
        ) => true,
        _ => false,
    }
}

fn ready(st: &mut LineState, verb: Verb)
    ensures
        final(st)@ == old(st)@.readied(verb),
        final(st)@.keeps(old(st)@),
{
    if !key_completes(verb) {
        st.menu = None;
    }
    let prefix = match verb {
        Verb::Run(EditorAction::HistorySearchBackward) | Verb::Run(
            EditorAction::HistorySearchForward,
        ) => true,
        _ => false,
    };
    if !prefix {
        st.anchored = false;
    }
}

fn do_key(
    st: &mut LineState,
    ring: &mut KillRing,
    verb: Verb,
    key: Key,
    history: &[String],
    reply: Reply,
) -> (r: AfterKey)
    requires
        old(st)@.wf(texts(history@)),
    ensures
        (final(st)@, final(ring)@, r) == old(st)@.done(
            old(ring)@,
            verb,
            key,
            texts(history@),
            reply@,
        ),
        final(st)@.wf(texts(history@)),
{
    reveal(Line::done);
    ready(st, verb);
    match verb {
        Verb::Nothing => AfterKey::Done,
        Verb::Run(action) => apply_action(st, action, &key, history, ring, reply),
        Verb::Vi => {
            handle_vi_normal(st, key, history, ring);
            AfterKey::Done
        },
        Verb::NormalMode => {
            st.vi_normal = true;
            if st.cursor > 0 {
                st.cursor = st.cursor - 1;
            }
            AfterKey::Done
        },
        Verb::Chord => {
            st.pending = Pending::Chord;
            AfterKey::Done
        },
        Verb::Host(i) => {
            st.finish_line();
            AfterKey::Host(i)
        },
    }
}

fn find_char(st: &mut LineState, c: char, forward: bool)
    requires
        old(st).inside(),
    ensures
        final(st)@ == old(st)@.at_char(c, forward),
        final(st)@.keeps(old(st)@),
        final(st).inside(),
{
    reveal(Line::at_char);
    let found = if forward {
        if st.cursor < st.buffer.len() {
            index_from(st.buffer.as_slice(), st.cursor + 1, c)
        } else {
            None
        }
    } else {
        index_before(st.buffer.as_slice(), st.cursor, c)
    };
    match found {
        Some(i) => {
            st.cursor = i;
        },
        None => {
            st.bell();
        },
    }
}

fn resume_chord(st: &mut LineState, input: &Input) -> (r: AfterKey)
    requires
        old(st).inside(),
    ensures
        (final(st)@, r) == old(st)@.chorded(input@),
        final(st)@.keeps(old(st)@),
        final(st).inside(),
{
    reveal(Line::chorded);
    st.pending = Pending::Nothing;
    match input {
        Input::Key(Key::Ctrl('e')) => AfterKey::External,
        Input::Key(Key::Ctrl('u')) => {
            undo_cmd(st);
            AfterKey::Done
        },
        _ => AfterKey::Done,
    }
}

/// C-v / C-q: insert the next character literally (a tab, an ESC, a ^C).
fn quoted_insert(st: &mut LineState, input: &Input)
    requires
        old(st).inside(),
    ensures
        final(st)@ == old(st)@.quoted_in(input@),
        final(st)@.keeps(old(st)@),
        final(st).inside(),
{
    reveal(Line::quoted_in);
    st.pending = Pending::Nothing;
    match input {
        Input::Literal(c) => {
            insert_char(st, *c);
            st.this_action = Action::Insert;
        },
        _ => {},
    }
}

fn resume_find(st: &mut LineState, input: &Input, forward: bool)
    requires
        old(st).inside(),
    ensures
        final(st)@ == old(st)@.sought_out(input@, forward),
        final(st)@.keeps(old(st)@),
        final(st).inside(),
{
    reveal(Line::sought_out);
    st.pending = Pending::Nothing;
    match input {
        Input::Key(Key::Char(c)) => {
            find_char(st, *c, forward);
        },
        _ => {},
    }
}

fn resume(st: &mut LineState, input: &Input) -> (r: AfterKey)
    requires
        old(st).inside(),
    ensures
        (final(st)@, r) == old(st)@.resumed(input@),
        final(st)@.keeps(old(st)@),
        final(st).inside(),
{
    reveal(Line::resumed);
    match st.pending {
        Pending::Nothing => AfterKey::Done,
        Pending::Chord => resume_chord(st, input),
        Pending::Quoted => {
            quoted_insert(st, input);
            AfterKey::Done
        },
        Pending::FindChar(forward) => {
            resume_find(st, input, forward);
            AfterKey::Done
        },
        Pending::ListQuery(arm) => {
            let yes = match input {
                Input::Key(Key::Char('y')) | Input::Key(Key::Char('Y')) | Input::Key(
                    Key::Char(' '),
                ) => true,
                _ => false,
            };
            answer_list_query(st, arm, yes);
            AfterKey::Done
        },
    }
}

/// Line endings normalized.
pub fn unify(s: &[char]) -> (r: Vec<char>)
    ensures
        r@ == unified(s@),
{
    let mut out: Vec<char> = Vec::new();
    let mut i: usize = 0;
    assert(s@.skip(0) =~= s@);
    assert(out@ + unified(s@) =~= unified(s@));
    while i < s.len()
        invariant
            i <= s@.len(),
            unified(s@) == out@ + unified(s@.skip(i as int)),
        decreases s@.len() - i,
    {
        let ghost t = s@.skip(i as int);
        let ghost before = out@;
        assert(t[0] == s@[i as int]);
        assert(t.skip(1) =~= s@.skip(i + 1));
        if s[i] != '\r' {
            out.push(s[i]);
            i += 1;
            assert(out@ =~= before + seq![s@[i - 1]]);
            assert(before + (seq![s@[i - 1]] + unified(s@.skip(i as int))) =~= out@ + unified(
                s@.skip(i as int),
            ));
        } else if s.len() - i > 1 && s[i + 1] == '\n' {
            assert(t[1] == '\n');
            assert(t.skip(2) =~= s@.skip(i + 2));
            out.push('\n');
            i += 2;
            assert(before + (seq!['\n'] + unified(s@.skip(i as int))) =~= out@ + unified(
                s@.skip(i as int),
            ));
        } else {
            assert(s@.len() - i > 1 ==> t[1] == s@[i + 1]);
            out.push('\n');
            i += 1;
            assert(before + (seq!['\n'] + unified(s@.skip(i as int))) =~= out@ + unified(
                s@.skip(i as int),
            ));
        }
    }
    assert(out@ + Seq::<char>::empty() =~= out@);
    out
}

fn paste_in(st: &mut LineState, text: &[char])
    requires
        old(st).inside(),
    ensures
        final(st)@ == old(st)@.pasted_in(text@),
        final(st)@.keeps(old(st)@),
        final(st).inside(),
{
    reveal(Line::pasted_in);
    st.menu = None;
    st.anchored = false;
    let text = unify(text);
    let at = st.cursor;
    st.put(at, at, text.as_slice());
}

fn push_undo(st: &mut LineState, buffer: Vec<char>, cursor: usize)
    ensures
        final(st)@ == (Line {
            undo: newest(old(st)@.undo.push((buffer@, cursor as int)), old(st)@.cfg.max_undo as int),
            ..old(st)@
        }),
        final(st)@.keeps(old(st)@),
{
    let max = st.cfg.max_undo;
    let mut undo: Vec<(Vec<char>, usize)> = Vec::new();
    std::mem::swap(&mut undo, &mut st.undo);
    let ghost was = as_undo(undo@);
    undo.push((buffer, cursor));
    let ghost all = was.push((buffer@, cursor as int));
    assert(as_undo(undo@) =~= all) by {
        reveal(as_undo);
    }
    let undo = keep_newest(undo, max);
    st.undo = undo;
}

fn keep_newest(undo: Vec<(Vec<char>, usize)>, max: usize) -> (r: Vec<(Vec<char>, usize)>)
    ensures
        as_undo(r@) == newest(as_undo(undo@), max as int),
{
    reveal(as_undo);
    let ghost all = as_undo(undo@);
    let mut r = undo;
    let n = r.len();
    let mut dropped: usize = 0;
    assert(all.skip(0) =~= all);
    while r.len() > max
        invariant
            dropped + r@.len() == n,
            n == all.len(),
            as_undo(r@) == all.skip(dropped as int),
            dropped > 0 ==> n - dropped >= max,
        decreases r@.len(),
    {
        reveal(as_undo);
        let ghost before = r@;
        r.remove(0);
        dropped += 1;
        assert(as_undo(r@) =~= as_undo(before).skip(1));
        assert(as_undo(r@) =~= all.skip(dropped as int));
    }
    r
}

fn book(st: &mut LineState, buffer: Vec<char>, cursor: usize)
    ensures
        final(st)@ == old(st)@.booked(buffer@, cursor as int),
        final(st)@.keeps(old(st)@),
{
    reveal(Line::booked);
    let this = st.this_action;
    if same(st.buffer.as_slice(), buffer.as_slice()) || this == Action::Undo {
        st.prev_action = this;
    } else if this == st.prev_action && (this == Action::Insert || this == Action::Delete)
        && st.run < 20 {
        st.run = st.run + 1;
        st.prev_action = this;
    } else {
        push_undo(st, buffer, cursor);
        st.run = 1;
        st.prev_action = this;
    }
}

fn search_step(st: &mut LineState, input: &Input, history: &[String]) -> (r: AfterKey)
    requires
        old(st)@.wf(texts(history@)),
    ensures
        (final(st)@, r) == old(st)@.searched(input@, texts(history@)),
        final(st)@.wf(texts(history@)),
{
    reveal(Line::searched);
    match input {
        Input::Key(key) => match handle_search_key(st, *key, history) {
            SearchOutcome::Accept => AfterKey::Accept,
            SearchOutcome::Interrupted => AfterKey::Interrupted,
            _ => AfterKey::Done,
        },
        Input::Paste(text) => {
            let text = unify(text.as_slice());
            search_paste(st, text.as_slice(), history);
            AfterKey::Done
        },
        Input::Literal(_) => AfterKey::Done,
    }
}

fn handle(
    st: &mut LineState,
    ring: &mut KillRing,
    bindings: &Vec<(Key, Binding)>,
    input: &Input,
    history: &[String],
    reply: Reply,
) -> (r: AfterKey)
    requires
        old(st)@.wf(texts(history@)),
    ensures
        (final(st)@, final(ring)@, r) == old(st)@.handled(
            old(ring)@,
            as_bindings(bindings@),
            input@,
            texts(history@),
            reply@,
        ),
        final(st)@.wf(texts(history@)),
{
    if st.pending != Pending::Nothing {
        return resume(st, input);
    }
    match input {
        Input::Key(key) => {
            let verb = resolve_key(st, bindings, *key);
            do_key(st, ring, verb, *key, history, reply)
        },
        Input::Paste(text) => {
            paste_in(st, text.as_slice());
            AfterKey::Done
        },
        Input::Literal(_) => AfterKey::Done,
    }
}

/// Take one input event, given what the host answered.
pub fn step(
    st: &mut LineState,
    ring: &mut KillRing,
    bindings: &Vec<(Key, Binding)>,
    input: &Input,
    history: &[String],
    reply: Reply,
) -> (r: AfterKey)
    requires
        old(st)@.wf(texts(history@)),
    ensures
        (final(st)@, final(ring)@, r) == old(st)@.stepped(
            old(ring)@,
            as_bindings(bindings@),
            input@,
            texts(history@),
            reply@,
        ),
        final(st)@.wf(texts(history@)),
{
    reveal(Line::stepped);
    if st.search.is_some() {
        return search_step(st, input, history);
    }
    let buffer = copy(st.buffer.as_slice());
    let cursor = st.cursor;
    st.this_action = Action::Other;
    let after = handle(st, ring, bindings, input, history, reply);
    if st.pending == Pending::Nothing && (after == AfterKey::Done || after == AfterKey::External) {
        book(st, buffer, cursor);
    }
    after
}

/// What an event makes the line ask the host.
pub fn inquiry(st: &LineState, bindings: &Vec<(Key, Binding)>, input: &Input) -> (r: Ask)
    ensures
        r == st@.inquires(as_bindings(bindings@), input@),
{
    if st.search.is_some() || st.pending != Pending::Nothing {
        return Ask::Nothing;
    }
    match input {
        Input::Key(key) => {
            let verb = resolve_key(st, bindings, *key);
            match verb {
                Verb::Run(action) => what_to_ask(st, action, key),
                _ => Ask::Nothing,
            }
        },
        _ => Ask::Nothing,
    }
}

/// What an event comes to with some answer that the host may give.
pub open spec fn stepped_on<H: Hooks + ?Sized>(
    before: (Line, Ring, Known),
    bindings: Seq<(Key, Bound)>,
    event: Event,
    history: Seq<String>,
    hooks: &H,
    answer: Answer,
    after: (Line, Ring, Known, AfterKey),
) -> bool {
    let (line, ring, known) = before;
    let ask = line.inquires(bindings, event);
    &&& heard(hooks, line, history, ask, answer)
    &&& remembered(known, line, ask, answer, after.2)
    &&& (after.0, after.1, after.3) == line.stepped(ring, bindings, event, texts(history), answer)
}

/// Take one input event, asking the host where that needs it.
pub fn feed<H: Hooks + ?Sized>(
    st: &mut LineState,
    ring: &mut KillRing,
    bindings: &Vec<(Key, Binding)>,
    input: &Input,
    history: &[String],
    hooks: &H,
    hints: &mut HintCache,
) -> (r: AfterKey)
    requires
        old(st)@.wf(texts(history@)),
        old(hints).holds(hooks, history@),
    ensures
        final(hints).holds(hooks, history@),
        exists|answer: Answer| #[trigger]
            stepped_on(
                (old(st)@, old(ring)@, old(hints)@),
                as_bindings(bindings@),
                input@,
                history@,
                hooks,
                answer,
                (final(st)@, final(ring)@, final(hints)@, r),
            ),
        final(st)@.wf(texts(history@)),
{
    let ghost before = (st@, ring@, hints@);
    let ask = inquiry(st, bindings, input);
    let reply = consult(st, history, ask, hooks, hints);
    let ghost answer = reply@;
    let r = step(st, ring, bindings, input, history, reply);
    assert(stepped_on(
        before,
        as_bindings(bindings@),
        input@,
        history@,
        hooks,
        answer,
        (st@, ring@, hints@, r),
    ));
    r
}

/// Write back what a host command left in the line and the cursor (a byte
/// offset), and repaint on a fresh region.
pub fn take_host_result(st: &mut LineState, line: &str, cursor: usize)
    requires
        old(st).inside(),
    ensures
        final(st)@ == old(st)@.rewritten(line@, cursor as int),
        final(st).inside(),
        final(st)@.keeps(old(st)@),
{
    let buffer = copy(st.buffer.as_slice());
    let at = st.cursor;
    let text = chars_of(line);
    st.cursor = index_of_byte(text.as_slice(), cursor);
    st.buffer = text;
    st.new_region();
    book(st, buffer, at);
}

/// Editing at the prompt in a keymap in which characters insert themselves.
pub open spec fn types(line: Line) -> bool {
    &&& line.search is None
    &&& line.pending == Pending::Nothing
    &&& !(line.vi && line.vi_normal)
    &&& line.inside()
}

/// No character of the text has been bound to anything else.
pub open spec fn plain_keys(bindings: Seq<(Key, Bound)>, text: Seq<char>) -> bool {
    forall|i: int|
        0 <= i < text.len() ==> bound_at(bindings, Key::Char(#[trigger] text[i]), 0) is None
}

/// The line after a text has been typed, one key per character, with no
/// abbreviation to expand.
pub open spec fn typed_in(
    line: Line,
    ring: Ring,
    bindings: Seq<(Key, Bound)>,
    text: Seq<char>,
    history: Seq<Seq<char>>,
) -> Line
    decreases text.len(),
{
    if text.len() == 0 {
        line
    } else {
        typed_in(line, ring, bindings, text.drop_last(), history).stepped(
            ring,
            bindings,
            Event::Key(Key::Char(text.last())),
            history,
            Answer::Silent,
        ).0
    }
}

/// A character key inserts its character, and is booked as an insertion.
pub proof fn a_key_inserts(
    line: Line,
    ring: Ring,
    bindings: Seq<(Key, Bound)>,
    c: char,
    history: Seq<Seq<char>>,
)
    requires
        types(line),
        bound_at(bindings, Key::Char(c), 0) is None,
    ensures
        line.stepped(ring, bindings, Event::Key(Key::Char(c)), history, Answer::Silent) == (
            (Line { menu: None, anchored: false, this_action: Action::Insert, ..line }).put(
                line.cursor,
                line.cursor,
                seq![c],
            ).booked(line.buffer, line.cursor),
            ring,
            AfterKey::Done,
        ),
{
    reveal(Line::stepped);
    reveal(Line::done);
    reveal(Line::acted);
    reveal(Line::changed);
    reveal(Line::self_inserted);
    reveal(Line::expanded);
    reveal(Line::typed);
}

/// Typed text is in the line, whole and in order, where the cursor was, and
/// the cursor is behind it, however much was typed.
pub proof fn typed_text_is_inserted(
    line: Line,
    ring: Ring,
    bindings: Seq<(Key, Bound)>,
    text: Seq<char>,
    history: Seq<Seq<char>>,
)
    requires
        types(line),
        plain_keys(bindings, text),
    ensures
        types(typed_in(line, ring, bindings, text, history)),
        typed_in(line, ring, bindings, text, history).buffer == spliced(
            line.buffer,
            line.cursor,
            line.cursor,
            text,
        ),
        typed_in(line, ring, bindings, text, history).cursor == line.cursor + text.len(),
        typed_in(line, ring, bindings, text, history).cfg == line.cfg,
    decreases text.len(),
{
    if text.len() == 0 {
        assert(spliced(line.buffer, line.cursor, line.cursor, text) =~= line.buffer);
    } else {
        let c = text.last();
        let l = typed_in(line, ring, bindings, text.drop_last(), history);
        assert forall|i: int| 0 <= i < text.drop_last().len() implies bound_at(
            bindings,
            Key::Char(#[trigger] text.drop_last()[i]),
            0,
        ) is None by {
            assert(text.drop_last()[i] == text[i]);
        }
        typed_text_is_inserted(line, ring, bindings, text.drop_last(), history);
        a_key_inserts(l, ring, bindings, c, history);
        reveal(Line::booked);
        assert(spliced(l.buffer, l.cursor, l.cursor, seq![c]) =~= spliced(
            line.buffer,
            line.cursor,
            line.cursor,
            text,
        ));
    }
}

/// At most twenty characters typed in a row are undone as one: one undo gives
/// back the text and the cursor from before.
pub proof fn typed_run_undoes_as_one(
    line: Line,
    ring: Ring,
    bindings: Seq<(Key, Bound)>,
    text: Seq<char>,
    history: Seq<Seq<char>>,
)
    requires
        types(line),
        plain_keys(bindings, text),
        0 < text.len() <= 20,
        line.prev_action != Action::Insert,
        line.cfg.max_undo > 0,
    ensures
        ({
            let undone = typed_in(line, ring, bindings, text, history).undone();
            undone.buffer == line.buffer && undone.cursor == line.cursor
        }),
{
    typed_run_is_one_group(line, ring, bindings, text, history);
    reveal(Line::undone);
}

proof fn typed_run_is_one_group(
    line: Line,
    ring: Ring,
    bindings: Seq<(Key, Bound)>,
    text: Seq<char>,
    history: Seq<Seq<char>>,
)
    requires
        types(line),
        plain_keys(bindings, text),
        0 < text.len() <= 20,
        line.prev_action != Action::Insert,
        line.cfg.max_undo > 0,
    ensures
        ({
            let l = typed_in(line, ring, bindings, text, history);
            &&& l.run == text.len()
            &&& l.prev_action == Action::Insert
            &&& l.undo.len() > 0
            &&& l.undo.last() == (line.buffer, line.cursor)
        }),
    decreases text.len(),
{
    let c = text.last();
    let before = text.drop_last();
    let l = typed_in(line, ring, bindings, before, history);
    assert forall|i: int| 0 <= i < before.len() implies bound_at(
        bindings,
        Key::Char(#[trigger] before[i]),
        0,
    ) is None by {
        assert(before[i] == text[i]);
    }
    typed_text_is_inserted(line, ring, bindings, before, history);
    a_key_inserts(l, ring, bindings, c, history);
    reveal(Line::booked);
    assert(spliced(l.buffer, l.cursor, l.cursor, seq![c]).len() != l.buffer.len());
    if before.len() > 0 {
        typed_run_is_one_group(line, ring, bindings, before, history);
    } else {
        assert(l == line);
    }
}

/// A paste is inserted whole, whatever it holds, and neither runs a command nor
/// ends the line; one undo takes it back.
pub proof fn a_paste_is_inserted_whole(
    line: Line,
    ring: Ring,
    bindings: Seq<(Key, Bound)>,
    text: Seq<char>,
    history: Seq<Seq<char>>,
    answer: Answer,
)
    requires
        line.search is None,
        line.pending == Pending::Nothing,
        line.inside(),
        line.cfg.max_undo > 0,
        text.len() > 0,
    ensures
        ({
            let (l, r, after) = line.stepped(ring, bindings, Event::Paste(text), history, answer);
            &&& after == AfterKey::Done
            &&& r == ring
            &&& l.buffer == spliced(line.buffer, line.cursor, line.cursor, unified(text))
            &&& l.cursor == line.cursor + unified(text).len()
            &&& l.undone().buffer == line.buffer
            &&& l.undone().cursor == line.cursor
        }),
{
    reveal(Line::stepped);
    reveal(Line::pasted_in);
    reveal(Line::booked);
    reveal(Line::undone);
    assert(unified(text).len() > 0);
}

/// What an event changed can be undone: unless it joined an undo group, or was
/// an undo itself, one undo gives back the text and the cursor from before.
pub proof fn a_step_can_be_undone(
    line: Line,
    ring: Ring,
    bindings: Seq<(Key, Bound)>,
    event: Event,
    history: Seq<Seq<char>>,
    answer: Answer,
)
    requires
        line.search is None,
        line.inside(),
        ({
            let (l, r, after) = (Line { this_action: Action::Other, ..line }).handled(
                ring,
                bindings,
                event,
                history,
                answer,
            );
            &&& after == AfterKey::Done || after == AfterKey::External
            &&& l.pending == Pending::Nothing
            &&& l.buffer != line.buffer
            &&& l.this_action != Action::Undo
            &&& !l.groups()
            &&& l.cfg.max_undo > 0
        }),
    ensures
        ({
            let undone = line.stepped(ring, bindings, event, history, answer).0.undone();
            undone.buffer == line.buffer && undone.cursor == line.cursor
        }),
{
    reveal(Line::stepped);
    reveal(Line::booked);
    reveal(Line::undone);
}

/// Booking a change keeps the oldest snapshot, while there is room: reverting
/// the line goes back to the same text as before the change.
pub proof fn reverting_goes_all_the_way(line: Line, buffer: Seq<char>, cursor: int)
    requires
        0 < line.undo.len() < line.cfg.max_undo,
    ensures
        line.booked(buffer, cursor).reverted().buffer == line.reverted().buffer,
        line.booked(buffer, cursor).reverted().cursor == line.reverted().cursor,
{
    reveal(Line::booked);
    reveal(Line::reverted);
}

/// Changes of one group are undone together: a change that joins the group is
/// undone to the same text and cursor as the group was before it.
pub proof fn a_group_is_undone_together(line: Line, buffer: Seq<char>, cursor: int)
    requires
        line.groups(),
        line.buffer != buffer,
    ensures
        line.booked(buffer, cursor).undone().buffer == line.undone().buffer,
        line.booked(buffer, cursor).undone().cursor == (if line.undo.len() > 0 {
            line.undone().cursor
        } else {
            line.cursor
        }),
{
    reveal(Line::booked);
    reveal(Line::undone);
}

} // verus!
