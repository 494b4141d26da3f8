//! Executing one named action: the emacs (and vi-insert) command set.
//!
//! Some actions need an answer from the host. Which one is a function of the
//! line and the action ([`Line::asks`]); the action itself takes the answer as
//! an argument ([`apply_action`]), and [`run_action`] asks the host for it.
use vstd::prelude::*;

use crate::actions::EditorAction;
use crate::complete::{
    clamp_start, clamped, complete_at_cursor, insert_completions, menu_complete_start, menu_step,
    possible_completions,
};
use crate::edit::{
    backward_delete_char, case_word, delete_char, delete_horizontal_space, insert_char,
    insert_last_arg, kill_span, revert_line, transpose, transpose_words, undo_cmd, yank, yank_pop,
    CaseOp,
};
use crate::hints::{hinted, opt_chars, HintCache, Known};
use crate::hooks::{choices, Candidate, Choice, Hooks};
use crate::keys::Key;
use crate::line::{Action, Line, LineState, Pending};
use crate::recall::{
    history_first, history_last, history_next, history_prefix_next, history_prefix_prev,
    history_prev,
};
use crate::ring::{KillRing, Ring};
use crate::search::start_search;
use crate::text::{byte_len, byte_of_index, chars_of, slice, texts};
use crate::words::{
    alnum_after, alnum_before, word_back, word_back_alnum, word_before, word_forward_alnum,
};

verus! {

/// What the main loop does after a key's action ran.
#[derive(Debug, Clone, Copy, PartialEq, Eq, Structural)]
pub enum AfterKey {
    /// Go on editing.
    Done,
    /// Return the line.
    Accept,
    /// The line was abandoned.
    Interrupted,
    /// End of file.
    Eof,
    /// Hand the line to the external editor.
    External,
    /// Run the host command of a binding, by its index.
    Host(usize),
}

/// What the host has to be asked.
#[derive(Debug, Clone, Copy, PartialEq, Eq, Structural)]
pub enum Ask {
    /// Nothing.
    Nothing,
    /// The hint for the buffer.
    Hint,
    /// The abbreviation before the cursor.
    Abbreviation,
    /// The candidates for the word at the cursor.
    Completion,
}

/// What the host answered. Offsets are byte offsets, as hooks give them.
#[derive(Debug)]
pub enum Reply {
    /// Nothing.
    Silent,
    /// A hint.
    Hint(Option<Vec<char>>),
    /// An abbreviation: where it starts and what it stands for.
    Abbreviation(Option<(usize, Vec<char>)>),
    /// Where the word starts, and the candidates for it.
    Completion(usize, Vec<Candidate>),
}

/// What the host answered, as a mathematical value.
pub ghost enum Answer {
    Silent,
    Hint(Option<Seq<char>>),
    Abbreviation(Option<(int, Seq<char>)>),
    Completion(int, Seq<Choice>),
}

impl View for Reply {
    type V = Answer;

    open spec fn view(&self) -> Answer {
        match self {
            Reply::Silent => Answer::Silent,
            Reply::Hint(Some(h)) => Answer::Hint(Some(h@)),
            Reply::Hint(None) => Answer::Hint(None),
            Reply::Abbreviation(Some((start, text))) => Answer::Abbreviation(
                Some((*start as int, text@)),
            ),
            Reply::Abbreviation(None) => Answer::Abbreviation(None),
            Reply::Completion(start, c) => Answer::Completion(*start as int, choices(c@)),
        }
    }
}

impl Answer {
    /// The hint, if one was given.
    pub open spec fn hint(self) -> Option<Seq<char>> {
        match self {
            Answer::Hint(h) => h,
            _ => None,
        }
    }

    /// The abbreviation, if one was given.
    pub open spec fn abbreviation(self) -> Option<(int, Seq<char>)> {
        match self {
            Answer::Abbreviation(a) => a,
            _ => None,
        }
    }

    /// The completion; without one, no candidates.
    pub open spec fn completion(self) -> (int, Seq<Choice>) {
        match self {
            Answer::Completion(start, c) => (start, c),
            _ => (0, Seq::empty()),
        }
    }
}

impl Line {
    /// What an action has to ask the host.
    pub open spec fn asks(self, action: EditorAction, key: Key) -> Ask {
        match action {
            EditorAction::SelfInsert => if key == Key::Char(' ') {
                Ask::Abbreviation
            } else {
                Ask::Nothing
            },
            EditorAction::ForwardChar | EditorAction::EndOfLine | EditorAction::ForwardWord => if self.cursor
                == self.buffer.len() {
                Ask::Hint
            } else {
                Ask::Nothing
            },
            EditorAction::Complete | EditorAction::MenuComplete
            | EditorAction::MenuCompleteBackward => if self.menu is None {
                Ask::Completion
            } else {
                Ask::Nothing
            },
            EditorAction::PossibleCompletions | EditorAction::InsertCompletions => Ask::Completion,
            _ => Ask::Nothing,
        }
    }

    /// With the abbreviation before the cursor, if there is one, replaced.
    #[verifier::opaque]
    pub open spec fn expanded(self, answer: Answer) -> Line {
        match answer.abbreviation() {
            Some((bytes, text)) => self.put(
                clamped(self.buffer, self.cursor, bytes),
                self.cursor,
                text,
            ),
            None => self,
        }
    }

    /// With a typed character inserted; an abbreviation before a space is
    /// expanded first.
    #[verifier::opaque]
    pub open spec fn self_inserted(self, key: Key, answer: Answer) -> Line {
        match key {
            Key::Char(c) => if c == ' ' {
                Line { this_action: Action::Insert, ..self.expanded(answer).typed(c) }
            } else {
                Line { this_action: Action::Insert, ..self.typed(c) }
            },
            _ => self,
        }
    }

    /// One character forward; at the end, with the hint accepted.
    #[verifier::opaque]
    pub open spec fn forward_char(self, answer: Answer) -> Line {
        if self.cursor == self.buffer.len() {
            match answer.hint() {
                Some(h) => self.put(self.cursor, self.cursor, h),
                None => self,
            }
        } else {
            Line { cursor: self.cursor + 1, ..self }
        }
    }

    /// At the end; there already, with the hint accepted.
    #[verifier::opaque]
    pub open spec fn end_of_line(self, answer: Answer) -> Line {
        if self.cursor == self.buffer.len() {
            match answer.hint() {
                Some(h) => self.put(self.cursor, self.cursor, h),
                None => self,
            }
        } else {
            Line { cursor: self.buffer.len() as int, ..self }
        }
    }

    /// One word forward; at the end, with one word of the hint accepted.
    #[verifier::opaque]
    pub open spec fn forward_word(self, answer: Answer) -> Line {
        if self.cursor == self.buffer.len() {
            match answer.hint() {
                Some(h) => self.put(self.cursor, self.cursor, h.take(alnum_after(h, 0))),
                None => self,
            }
        } else {
            Line { cursor: alnum_after(self.buffer, self.cursor), ..self }
        }
    }

    /// One character back.
    #[verifier::opaque]
    pub open spec fn backward_char(self) -> Line {
        if self.cursor > 0 {
            Line { cursor: self.cursor - 1, ..self }
        } else {
            self
        }
    }

    /// Where the completed word starts.
    pub open spec fn word_start(self, answer: Answer) -> int {
        clamped(self.buffer, self.cursor, answer.completion().0)
    }

    /// Tab.
    #[verifier::opaque]
    pub open spec fn tabbed(self, answer: Answer) -> Line {
        if self.menu is Some {
            self.cycled(true)
        } else if self.cfg.menu_complete {
            self.menu_begun(self.word_start(answer), answer.completion().1, true)
        } else {
            self.completed(self.word_start(answer), answer.completion().1)
        }
    }

    /// Menu completion, forward or backward.
    #[verifier::opaque]
    pub open spec fn menu_tabbed(self, answer: Answer, forward: bool) -> Line {
        if self.menu is Some {
            self.cycled(forward)
        } else {
            self.menu_begun(self.word_start(answer), answer.completion().1, forward)
        }
    }

    /// The history entry after the one shown, to be pre-loaded next.
    #[verifier::opaque]
    pub open spec fn getting_next(self, history: Seq<Seq<char>>) -> Line {
        Line {
            next: match self.hist_index {
                Some(i) => if i + 1 < history.len() {
                    Some(i + 1)
                } else {
                    None
                },
                None => None,
            },
            ..self
        }
    }

    /// The kill of an action, if it is one: the span and the direction.
    pub open spec fn kill_of(self, action: EditorAction) -> Option<(int, int, bool)> {
        let s = self.buffer;
        let len = s.len() as int;
        match action {
            EditorAction::KillLine => Some((self.cursor, len, true)),
            EditorAction::KillWholeLine => Some((0, len, true)),
            EditorAction::UnixLineDiscard => Some((0, self.cursor, false)),
            EditorAction::UnixWordRubout => Some((word_before(s, self.cursor), self.cursor, false)),
            EditorAction::KillWord => Some((self.cursor, alnum_after(s, self.cursor), true)),
            EditorAction::BackwardKillWord => Some(
                (alnum_before(s, self.cursor), self.cursor, false),
            ),
            _ => None,
        }
    }

    /// What an action that neither kills nor ends the line does to it.
    #[verifier::opaque]
    pub open spec fn changed(
        self,
        ring: Ring,
        action: EditorAction,
        key: Key,
        history: Seq<Seq<char>>,
        answer: Answer,
    ) -> Line {
        match action {
            EditorAction::SelfInsert => self.self_inserted(key, answer),
            EditorAction::BackwardDeleteChar => self.rubbed_out(),
            EditorAction::DeleteChar | EditorAction::DeleteCharOrEof => self.deleted(),
            EditorAction::BackwardChar => self.backward_char(),
            EditorAction::ForwardChar => self.forward_char(answer),
            EditorAction::BeginningOfLine => Line { cursor: 0, ..self },
            EditorAction::EndOfLine => self.end_of_line(answer),
            EditorAction::BackwardWord => Line {
                cursor: alnum_before(self.buffer, self.cursor),
                ..self
            },
            EditorAction::ForwardWord => self.forward_word(answer),
            EditorAction::DeleteHorizontalSpace => self.closed_up(),
            EditorAction::Yank => self.yanked(ring),
            EditorAction::YankPop => self.rotated(ring),
            EditorAction::TransposeChars => self.transposed(),
            EditorAction::TransposeWords => self.words_transposed(),
            EditorAction::UpcaseWord => self.recased(CaseOp::Upper),
            EditorAction::DowncaseWord => self.recased(CaseOp::Lower),
            EditorAction::CapitalizeWord => self.recased(CaseOp::Capital),
            EditorAction::Undo => self.undone(),
            EditorAction::RevertLine => self.reverted(),
            EditorAction::InsertLastArgument => self.with_last_word(history),
            EditorAction::PreviousHistory => self.older(history),
            EditorAction::NextHistory => self.newer(history),
            EditorAction::BeginningOfHistory => self.oldest(history),
            EditorAction::EndOfHistory => self.live(history),
            EditorAction::HistorySearchBackward => self.prefix_older(history),
            EditorAction::HistorySearchForward => self.prefix_newer(history),
            EditorAction::ReverseSearchHistory => self.searching(false, history),
            EditorAction::ForwardSearchHistory => self.searching(true, history),
            EditorAction::ClearScreen => self.say("\x1b[2J\x1b[H"@).region(),
            EditorAction::Complete => self.tabbed(answer),
            EditorAction::MenuComplete => self.menu_tabbed(answer, true),
            EditorAction::MenuCompleteBackward => self.menu_tabbed(answer, false),
            EditorAction::PossibleCompletions => self.possible(
                self.word_start(answer),
                answer.completion().1,
            ),
            EditorAction::InsertCompletions => self.all_inserted(
                self.word_start(answer),
                answer.completion().1,
            ),
            EditorAction::CharacterSearch => Line { pending: Pending::FindChar(true), ..self },
            EditorAction::CharacterSearchBackward => Line {
                pending: Pending::FindChar(false),
                ..self
            },
            EditorAction::QuotedInsert => Line { pending: Pending::Quoted, ..self },
            _ => self,
        }
    }

    /// What an action does, given what the host answered.
    #[verifier::opaque]
    pub open spec fn acted(
        self,
        ring: Ring,
        action: EditorAction,
        key: Key,
        history: Seq<Seq<char>>,
        answer: Answer,
    ) -> (Line, Ring, AfterKey) {
        match action {
            EditorAction::AcceptLine => (self, ring, AfterKey::Accept),
            EditorAction::Interrupt => (self, ring, AfterKey::Interrupted),
            EditorAction::EditAndExecuteCommand => (self, ring, AfterKey::External),
            EditorAction::OperateAndGetNext => (
                self.getting_next(history),
                ring,
                AfterKey::Accept,
            ),
            _ => if action == EditorAction::DeleteCharOrEof && self.buffer.len() == 0 {
                (self, ring, AfterKey::Eof)
            } else {
                match self.kill_of(action) {
                    Some((start, end, forward)) => {
                        let (l, r) = self.killed(ring, start, end, forward);
                        (l, r, AfterKey::Done)
                    },
                    None => (
                        self.changed(ring, action, key, history, answer),
                        ring,
                        AfterKey::Done,
                    ),
                }
            },
        }
    }
}

/// What an action has to ask the host.
pub fn what_to_ask(st: &LineState, action: EditorAction, key: &Key) -> (r: Ask)
    ensures
        r == st@.asks(action, *key),
{
    match action {
        EditorAction::SelfInsert => match *key {
            Key::Char(' ') => Ask::Abbreviation,
            _ => Ask::Nothing,
        },
        EditorAction::ForwardChar | EditorAction::EndOfLine | EditorAction::ForwardWord => if st.cursor
            == st.buffer.len() {
            Ask::Hint
        } else {
            Ask::Nothing
        },
        EditorAction::Complete | EditorAction::MenuComplete
        | EditorAction::MenuCompleteBackward => if st.menu.is_none() {
            Ask::Completion
        } else {
            Ask::Nothing
        },
        EditorAction::PossibleCompletions | EditorAction::InsertCompletions => Ask::Completion,
        _ => Ask::Nothing,
    }
}

fn the_hint(reply: Reply) -> (r: Option<Vec<char>>)
    ensures
        match r {
            Some(h) => reply@.hint() == Some(h@),
            None => reply@.hint() is None,
        },
{
    match reply {
        Reply::Hint(h) => h,
        _ => None,
    }
}

fn the_completion(reply: Reply) -> (r: (usize, Vec<Candidate>))
    ensures
        (r.0 as int, choices(r.1@)) == reply@.completion(),
{
    match reply {
        Reply::Completion(start, c) => (start, c),
        _ => {
            let none: Vec<Candidate> = Vec::new();
            assert(choices(none@) =~= Seq::<Choice>::empty()) by {
                reveal(choices);
            }
            (0, none)
        },
    }
}

fn expand(st: &mut LineState, reply: Reply)
    requires
        old(st).inside(),
    ensures
        final(st)@ == old(st)@.expanded(reply@),
        final(st).inside(),
        final(st)@.keeps(old(st)@),
{
    reveal(Line::expanded);
    match reply {
        Reply::Abbreviation(Some((bytes, text))) => {
            let start = clamp_start(st, bytes);
            let at = st.cursor;
            st.put(start, at, text.as_slice());
        },
        _ => {},
    }
}

fn self_insert(st: &mut LineState, key: &Key, reply: Reply)
    requires
        old(st).inside(),
    ensures
        final(st)@ == old(st)@.self_inserted(*key, reply@),
        final(st).inside(),
        final(st)@.keeps(old(st)@),
{
    reveal(Line::self_inserted);
    match *key {
        Key::Char(c) => {
            if c == ' ' {
                expand(st, reply);
            }
            insert_char(st, c);
            st.this_action = Action::Insert;
        },
        _ => {},
    }
}

fn accept_hint(st: &mut LineState, hint: &[char])
    requires
        old(st).inside(),
    ensures
        final(st)@ == old(st)@.put(old(st)@.cursor, old(st)@.cursor, hint@),
        final(st).inside(),
        final(st)@.keeps(old(st)@),
{
    let at = st.cursor;
    st.put(at, at, hint);
}

fn move_forward_char(st: &mut LineState, reply: Reply)
    requires
        old(st).inside(),
    ensures
        final(st)@ == old(st)@.forward_char(reply@),
        final(st).inside(),
        final(st)@.keeps(old(st)@),
{
    reveal(Line::forward_char);
    if st.cursor == st.buffer.len() {
        match the_hint(reply) {
            Some(h) => {
                accept_hint(st, h.as_slice());
            },
            None => {},
        }
    } else {
        st.cursor = st.cursor + 1;
    }
}

fn move_end_of_line(st: &mut LineState, reply: Reply)
    requires
        old(st).inside(),
    ensures
        final(st)@ == old(st)@.end_of_line(reply@),
        final(st).inside(),
        final(st)@.keeps(old(st)@),
{
    reveal(Line::end_of_line);
    if st.cursor == st.buffer.len() {
        match the_hint(reply) {
            Some(h) => {
                accept_hint(st, h.as_slice());
            },
            None => {},
        }
    } else {
        st.cursor = st.buffer.len();
    }
}

fn move_forward_word(st: &mut LineState, reply: Reply)
    requires
        old(st).inside(),
    ensures
        final(st)@ == old(st)@.forward_word(reply@),
        final(st).inside(),
        final(st)@.keeps(old(st)@),
{
    reveal(Line::forward_word);
    if st.cursor == st.buffer.len() {
        match the_hint(reply) {
            Some(h) => {
                let end = word_forward_alnum(h.as_slice(), 0);
                let word = slice(h.as_slice(), 0, end);
                assert(word@ =~= h@.take(end as int));
                accept_hint(st, word.as_slice());
            },
            None => {},
        }
    } else {
        st.cursor = word_forward_alnum(st.buffer.as_slice(), st.cursor);
    }
}

fn move_backward_char(st: &mut LineState)
    requires
        old(st).inside(),
    ensures
        final(st)@ == old(st)@.backward_char(),
        final(st).inside(),
        final(st)@.keeps(old(st)@),
{
    reveal(Line::backward_char);
    if st.cursor > 0 {
        st.cursor = st.cursor - 1;
    }
}

fn tab(st: &mut LineState, reply: Reply)
    requires
        old(st).inside(),
    ensures
        final(st)@ == old(st)@.tabbed(reply@),
        final(st).inside(),
        final(st)@.keeps(old(st)@),
{
    reveal(Line::tabbed);
    if st.menu.is_some() {
        menu_step(st, true);
    } else {
        let (bytes, candidates) = the_completion(reply);
        let start = clamp_start(st, bytes);
        if st.cfg.menu_complete {
            menu_complete_start(st, start, candidates, true);
        } else {
            complete_at_cursor(st, start, candidates);
        }
    }
}

fn menu_tab(st: &mut LineState, reply: Reply, forward: bool)
    requires
        old(st).inside(),
    ensures
        final(st)@ == old(st)@.menu_tabbed(reply@, forward),
        final(st).inside(),
        final(st)@.keeps(old(st)@),
{
    reveal(Line::menu_tabbed);
    if st.menu.is_some() {
        menu_step(st, forward);
    } else {
        let (bytes, candidates) = the_completion(reply);
        let start = clamp_start(st, bytes);
        menu_complete_start(st, start, candidates, forward);
    }
}

fn get_next(st: &mut LineState, history: &[String])
    requires
        old(st)@.wf(texts(history@)),
    ensures
        final(st)@ == old(st)@.getting_next(texts(history@)),
        final(st)@.wf(texts(history@)),
{
    reveal(Line::getting_next);
    let n = history.len();
    st.next = match st.hist_index {
        Some(i) => if i + 1 < n {
            Some(i + 1)
        } else {
            None
        },
        None => None,
    };
}

fn kill_span_of(st: &LineState, action: EditorAction) -> (r: Option<(usize, usize, bool)>)
    requires
        st.inside(),
    ensures
        match r {
            Some((a, b, forward)) => st@.kill_of(action) == Some((a as int, b as int, forward))
                && b <= st.buffer@.len(),
            None => st@.kill_of(action) is None,
        },
{
    let s = st.buffer.as_slice();
    match action {
        EditorAction::KillLine => Some((st.cursor, s.len(), true)),
        EditorAction::KillWholeLine => Some((0, s.len(), true)),
        EditorAction::UnixLineDiscard => Some((0, st.cursor, false)),
        EditorAction::UnixWordRubout => Some((word_back(s, st.cursor), st.cursor, false)),
        EditorAction::KillWord => Some((st.cursor, word_forward_alnum(s, st.cursor), true)),
        EditorAction::BackwardKillWord => Some((word_back_alnum(s, st.cursor), st.cursor, false)),
        _ => None,
    }
}

fn change(
    st: &mut LineState,
    action: EditorAction,
    key: &Key,
    history: &[String],
    ring: &KillRing,
    reply: Reply,
)
    requires
        old(st)@.wf(texts(history@)),
    ensures
        final(st)@ == old(st)@.changed(ring@, action, *key, texts(history@), reply@),
        final(st)@.wf(texts(history@)),
{
    reveal(Line::changed);
    match action {
        EditorAction::SelfInsert => self_insert(st, key, reply),
        EditorAction::BackwardDeleteChar => backward_delete_char(st),
        EditorAction::DeleteChar | EditorAction::DeleteCharOrEof => delete_char(st),
        EditorAction::BackwardChar => move_backward_char(st),
        EditorAction::ForwardChar => move_forward_char(st, reply),
        EditorAction::BeginningOfLine => {
            st.cursor = 0;
        },
        EditorAction::EndOfLine => move_end_of_line(st, reply),
        EditorAction::BackwardWord => {
            st.cursor = word_back_alnum(st.buffer.as_slice(), st.cursor);
        },
        EditorAction::ForwardWord => move_forward_word(st, reply),
        EditorAction::DeleteHorizontalSpace => delete_horizontal_space(st),
        EditorAction::Yank => yank(st, ring),
        EditorAction::YankPop => yank_pop(st, ring),
        EditorAction::TransposeChars => transpose(st),
        EditorAction::TransposeWords => transpose_words(st),
        EditorAction::UpcaseWord => case_word(st, CaseOp::Upper),
        EditorAction::DowncaseWord => case_word(st, CaseOp::Lower),
        EditorAction::CapitalizeWord => case_word(st, CaseOp::Capital),
        EditorAction::Undo => undo_cmd(st),
        EditorAction::RevertLine => revert_line(st),
        EditorAction::InsertLastArgument => insert_last_arg(st, history),
        EditorAction::PreviousHistory => history_prev(st, history),
        EditorAction::NextHistory => history_next(st, history),
        EditorAction::BeginningOfHistory => history_first(st, history),
        EditorAction::EndOfHistory => history_last(st, history),
        EditorAction::HistorySearchBackward => history_prefix_prev(st, history),
        EditorAction::HistorySearchForward => history_prefix_next(st, history),
        EditorAction::ReverseSearchHistory => start_search(st, false, history),
        EditorAction::ForwardSearchHistory => start_search(st, true, history),
        EditorAction::ClearScreen => st.clear_screen(),
        EditorAction::Complete => tab(st, reply),
        EditorAction::MenuComplete => menu_tab(st, reply, true),
        EditorAction::MenuCompleteBackward => menu_tab(st, reply, false),
        EditorAction::PossibleCompletions => {
            let (bytes, candidates) = the_completion(reply);
            let start = clamp_start(st, bytes);
            possible_completions(st, start, candidates);
        },
        EditorAction::InsertCompletions => {
            let (bytes, candidates) = the_completion(reply);
            let start = clamp_start(st, bytes);
            insert_completions(st, start, candidates);
        },
        EditorAction::CharacterSearch => {
            st.pending = Pending::FindChar(true);
        },
        EditorAction::CharacterSearchBackward => {
            st.pending = Pending::FindChar(false);
        },
        EditorAction::QuotedInsert => {
            st.pending = Pending::Quoted;
        },
        _ => {},
    }
}

/// Execute one named action, given what the host answered. `key` supplies the
/// character for `SelfInsert`.
pub fn apply_action(
    st: &mut LineState,
    action: EditorAction,
    key: &Key,
    history: &[String],
    ring: &mut KillRing,
    reply: Reply,
) -> (r: AfterKey)
    requires
        old(st)@.wf(texts(history@)),
    ensures
        (final(st)@, final(ring)@, r) == old(st)@.acted(
            old(ring)@,
            action,
            *key,
            texts(history@),
            reply@,
        ),
        final(st)@.wf(texts(history@)),
{
    reveal(Line::acted);
    match action {
        EditorAction::AcceptLine => {
            return AfterKey::Accept;
        },
        EditorAction::Interrupt => {
            return AfterKey::Interrupted;
        },
        EditorAction::EditAndExecuteCommand => {
            return AfterKey::External;
        },
        EditorAction::OperateAndGetNext => {
            get_next(st, history);
            return AfterKey::Accept;
        },
        EditorAction::DeleteCharOrEof => {
            if st.buffer.len() == 0 {
                return AfterKey::Eof;
            }
        },
        _ => {},
    }
    match kill_span_of(st, action) {
        Some((start, end, forward)) => {
            kill_span(st, ring, start, end, forward);
        },
        None => {
            change(st, action, key, history, ring, reply);
        },
    }
    AfterKey::Done
}

/// The answer that a hook gave to what was asked: it was called with the
/// buffer, and with the cursor as a byte offset.
pub open spec fn heard<H: Hooks + ?Sized>(
    hooks: &H,
    line: Line,
    history: Seq<String>,
    ask: Ask,
    answer: Answer,
) -> bool {
    match ask {
        Ask::Nothing => answer == Answer::Silent,
        Ask::Hint => answer matches Answer::Hint(hint) && hinted(
            hooks,
            line.buffer,
            history,
            hint,
        ),
        Ask::Abbreviation => exists|l: &str, at: usize, r: Option<(usize, String)>| #[trigger]
            call_ensures(H::expand_abbreviation, (hooks, l, at), r) && l@ == line.buffer && at
                == cursor_bytes(line) && answer == Answer::Abbreviation(
                match r {
                    Some((start, text)) => Some((start as int, text@)),
                    None => None,
                },
            ),
        Ask::Completion => exists|l: &str, at: usize, r: (usize, Vec<Candidate>)| #[trigger]
            call_ensures(H::complete, (hooks, l, at), r) && l@ == line.buffer && at
                == cursor_bytes(line) && answer == Answer::Completion(r.0 as int, choices(r.1@)),
    }
}

/// What is remembered once the host has been asked: a hint, with its text. A
/// hint that was known already is the one that was remembered.
pub open spec fn remembered(was: Known, line: Line, ask: Ask, answer: Answer, now: Known) -> bool {
    if ask == Ask::Hint {
        &&& now == Some((line.buffer, answer.hint()))
        &&& was matches Some((text, hint)) ==> text == line.buffer ==> answer.hint() == hint
    } else {
        now == was
    }
}

/// The cursor as a byte offset.
pub open spec fn cursor_bytes(line: Line) -> usize {
    byte_len(line.buffer.take(line.cursor)) as usize
}

/// Ask the host.
pub fn consult<H: Hooks + ?Sized>(
    st: &LineState,
    history: &[String],
    ask: Ask,
    hooks: &H,
    hints: &mut HintCache,
) -> (r: Reply)
    requires
        st.inside(),
        old(hints).holds(hooks, history@),
    ensures
        heard(hooks, st@, history@, ask, r@),
        remembered(old(hints)@, st@, ask, r@, final(hints)@),
        final(hints).holds(hooks, history@),
{
    match ask {
        Ask::Nothing => Reply::Silent,
        Ask::Hint => {
            let hint = hints.ask(st, history, hooks);
            let ghost given = opt_chars(hint);
            let reply = Reply::Hint(hint);
            assert(reply@ == Answer::Hint(given));
            reply
        },
        Ask::Abbreviation => {
            let text = st.text();
            let l: &str = text.as_str();
            let at = byte_of_index(st.buffer.as_slice(), st.cursor);
            let r = hooks.expand_abbreviation(l, at);
            assert(call_ensures(H::expand_abbreviation, (hooks, l, at), r));
            match r {
                Some((start, t)) => Reply::Abbreviation(Some((start, chars_of(t.as_str())))),
                None => Reply::Abbreviation(None),
            }
        },
        Ask::Completion => {
            let text = st.text();
            let l: &str = text.as_str();
            let at = byte_of_index(st.buffer.as_slice(), st.cursor);
            let r = hooks.complete(l, at);
            assert(call_ensures(H::complete, (hooks, l, at), r));
            Reply::Completion(r.0, r.1)
        },
    }
}

/// What an action comes to with some answer that the host may give.
pub open spec fn acted_on<H: Hooks + ?Sized>(
    before: (Line, Ring),
    action: EditorAction,
    key: Key,
    history: Seq<String>,
    hooks: &H,
    answer: Answer,
    after: (Line, Ring, AfterKey),
) -> bool {
    &&& heard(hooks, before.0, history, before.0.asks(action, key), answer)
    &&& after == before.0.acted(before.1, action, key, texts(history), answer)
}

/// Execute one named action, asking the host where the action needs it.
pub fn run_action<H: Hooks + ?Sized>(
    st: &mut LineState,
    action: EditorAction,
    key: &Key,
    history: &[String],
    ring: &mut KillRing,
    hooks: &H,
) -> (r: AfterKey)
    requires
        old(st)@.wf(texts(history@)),
    ensures
        exists|answer: Answer| #[trigger]
            acted_on(
                (old(st)@, old(ring)@),
                action,
                *key,
                history@,
                hooks,
                answer,
                (final(st)@, final(ring)@, r),
            ),
        final(st)@.wf(texts(history@)),
{
    let ghost before = (st@, ring@);
    let ask = what_to_ask(st, action, key);
    let mut hints = HintCache::new();
    let reply = consult(st, history, ask, hooks, &mut hints);
    let ghost answer = reply@;
    let r = apply_action(st, action, key, history, ring, reply);
    assert(acted_on(before, action, *key, history@, hooks, answer, (st@, ring@, r)));
    r
}

} // verus!
