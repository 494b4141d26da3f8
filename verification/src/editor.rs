//! The line editor: what persists across lines (history, kill ring, bindings,
//! the readline variables), and how a line begins and ends.
use vstd::prelude::*;

use crate::act::{AfterKey, Answer};
use crate::actions::{
    default_bindings, default_keymap, default_keys_are_distinct, default_of, keymap_lists_defaults,
    BellStyle, EditorAction,
};
use crate::decoder::Event;
use crate::histfile::{formatted, load_undoes_save, parsed_file, writable};
use crate::keys::Key;
use crate::keyspec::{
    key_named, key_spec, name_of_key, nameable, named_is_nameable, parse_key_spec,
    spelling_names_key,
};
use crate::line::{default_config, fresh_line, EditorConfig, Line, LineState};
use crate::log::{no_repeats, one_line, History, Item, Log};
use crate::paint::last_line_start;
use crate::ring::{KillRing, Ring};
use crate::step::{
    as_bindings, bound_at, find_binding, plain_keys, typed_in, typed_text_is_inserted, types,
    Binding, Bound, Verb,
};
use crate::text::{
    chars_of, lossy_utf8, push_chars, slice, spliced, string_of, texts, utf8_text_lossy,
};

verus! {

/// How a read ended.
#[derive(Debug, Clone, PartialEq, Eq)]
pub enum ReadResult {
    /// A complete line (Enter).
    Line(String),
    /// Ctrl-C at the prompt.
    Interrupted,
    /// Ctrl-D on an empty line.
    Eof,
    /// The deadline passed with no complete line (bash's `$TMOUT`).
    TimedOut,
}

/// What kind of error a call ended in.
#[derive(Debug, Clone, Copy, PartialEq, Eq, Structural)]
pub enum ErrorKind {
    /// An argument made no sense.
    InvalidInput,
}

/// A key spec that names no single key.
#[derive(Debug)]
pub struct BindError {
    /// The spec.
    pub spec: String,
}

impl BindError {
    /// What kind of error this is.
    pub fn kind(&self) -> (r: ErrorKind)
        ensures
            r == ErrorKind::InvalidInput,
    {
        ErrorKind::InvalidInput
    }
}

/// The line editor: owns the history and the kill ring, both of which persist
/// across lines within a session.
#[derive(Debug)]
pub struct Editor {
    /// The history.
    pub log: History,
    /// The kill ring: survives across lines within a session.
    pub kill_ring: KillRing,
    /// Lines that start with a space are not added to the history.
    pub ignore_space: bool,
    /// The history file carries `#<epoch>` timestamp comments.
    pub write_timestamps: bool,
    /// Host rebindings, overlaid on the default keymap (emacs and vi-insert
    /// modes; vi normal mode is not rebindable).
    pub bindings: Vec<(Key, Binding)>,
    /// The readline variables.
    pub cfg: EditorConfig,
    /// The history entry that the next line is pre-loaded with: its index when
    /// that was decided, and its text.
    pub operate_next: Option<(usize, String)>,
}

/// The bindings with one more: the key's entry replaced, or a new one.
pub open spec fn rebound(b: Seq<(Key, Bound)>, key: Key, x: Bound) -> Seq<(Key, Bound)> {
    match bound_at(b, key, 0) {
        Some(i) => b.update(i, (key, x)),
        None => b.push((key, x)),
    }
}

/// The rows of the default keymap that are not rebound.
pub open spec fn default_rows(rows: Seq<(Key, EditorAction)>, b: Seq<(Key, Bound)>) -> Seq<
    (Seq<char>, EditorAction),
>
    decreases rows.len(),
{
    if rows.len() == 0 {
        Seq::empty()
    } else {
        let front = default_rows(rows.drop_last(), b);
        let (key, action) = rows.last();
        if bound_at(b, key, 0) is None {
            front.push((name_of_key(key), action))
        } else {
            front
        }
    }
}

/// The rebindings to actions.
pub open spec fn action_rows(b: Seq<(Key, Bound)>) -> Seq<(Seq<char>, EditorAction)>
    decreases b.len(),
{
    if b.len() == 0 {
        Seq::empty()
    } else {
        let front = action_rows(b.drop_last());
        match b.last().1 {
            Bound::Action(a) => front.push((name_of_key(b.last().0), a)),
            _ => front,
        }
    }
}

/// The bindings to host commands.
pub open spec fn host_rows(b: Seq<(Key, Bound)>) -> Seq<(Seq<char>, Seq<char>)>
    decreases b.len(),
{
    if b.len() == 0 {
        Seq::empty()
    } else {
        let front = host_rows(b.drop_last());
        match b.last().1 {
            Bound::Host(tag) => front.push((name_of_key(b.last().0), tag)),
            _ => front,
        }
    }
}

/// The effective action bindings: the defaults with rebindings applied.
pub open spec fn listing(b: Seq<(Key, Bound)>) -> Seq<(Seq<char>, EditorAction)> {
    default_rows(default_keymap(), b) + action_rows(b)
}

/// Listed actions.
pub open spec fn as_rows(v: Seq<(String, EditorAction)>) -> Seq<(Seq<char>, EditorAction)> {
    Seq::new(v.len(), |i: int| (v[i].0@, v[i].1))
}

/// Listed host commands.
pub open spec fn as_host_rows(v: Seq<(String, String)>) -> Seq<(Seq<char>, Seq<char>)> {
    Seq::new(v.len(), |i: int| (v[i].0@, v[i].1@))
}

/// The newest entry before `n` with that text.
pub open spec fn last_with(history: Seq<Seq<char>>, n: int, text: Seq<char>) -> Option<int>
    decreases n,
{
    if n <= 0 || n > history.len() {
        None
    } else if history[n - 1] == text {
        Some(n - 1)
    } else {
        last_with(history, n - 1, text)
    }
}

/// Where a remembered entry is now: where it was, if it is still there, else
/// where its text occurs last.
pub open spec fn located(history: Seq<Seq<char>>, i: int, text: Seq<char>) -> Option<int> {
    if 0 <= i < history.len() && history[i] == text {
        Some(i)
    } else {
        last_with(history, history.len() as int, text)
    }
}

/// An entry to pre-load.
pub open spec fn as_next(n: Option<(usize, String)>) -> Option<(int, Seq<char>)> {
    match n {
        Some((i, text)) => Some((i as int, text@)),
        None => None,
    }
}

/// What a read leaves to the next one.
pub ghost struct Kept {
    /// The kill ring.
    pub ring: Ring,
    /// The entry to pre-load: where it was, and its text.
    pub next: Option<(int, Seq<char>)>,
}

/// The entry to pre-load after a key: an accepted line sets it to the entry it
/// asked for, or to none; no other key touches it.
pub open spec fn next_after(
    line: Line,
    after: AfterKey,
    history: Seq<Seq<char>>,
    was: Option<(int, Seq<char>)>,
) -> Option<(int, Seq<char>)> {
    if after == AfterKey::Accept {
        match line.next {
            Some(i) => if i < history.len() {
                Some((i, history[i]))
            } else {
                None
            },
            None => None,
        }
    } else {
        was
    }
}

/// A line as it begins: seeded with text before and after the cursor, or with
/// the entry that was remembered for it, or empty.
pub open spec fn begun(
    prompt: Seq<char>,
    rprompt: Seq<char>,
    cols: int,
    vi: bool,
    cfg: EditorConfig,
    seed: Option<(Seq<char>, Seq<char>)>,
    next: Option<(int, Seq<char>)>,
    history: Seq<Seq<char>>,
) -> Line {
    let k = last_line_start(prompt);
    let l = Line {
        head: prompt.take(k),
        prompt: prompt.skip(k),
        rprompt,
        cols,
        vi,
        cfg,
        ..fresh_line(Seq::empty(), 0)
    };
    match seed {
        Some((left, right)) => Line { buffer: left + right, cursor: left.len() as int, ..l },
        None => match next {
            Some((i, text)) => match located(history, i, text) {
                Some(j) => Line {
                    hist_index: Some(j),
                    buffer: history[j],
                    cursor: history[j].len() as int,
                    ..l
                },
                None => l,
            },
            None => l,
        },
    }
}

/// How a line ends after a key: with a result, or not yet.
pub open spec fn ending(line: Line, after: AfterKey) -> Option<ReadEnd> {
    match after {
        AfterKey::Accept => Some(ReadEnd::Line(line.buffer)),
        AfterKey::Interrupted => Some(ReadEnd::Interrupted),
        AfterKey::Eof => Some(ReadEnd::Eof),
        _ => None,
    }
}

/// How a read ended, as a mathematical value.
pub ghost enum ReadEnd {
    Line(Seq<char>),
    Interrupted,
    Eof,
    TimedOut,
}

impl View for ReadResult {
    type V = ReadEnd;

    open spec fn view(&self) -> ReadEnd {
        match self {
            ReadResult::Line(s) => ReadEnd::Line(s@),
            ReadResult::Interrupted => ReadEnd::Interrupted,
            ReadResult::Eof => ReadEnd::Eof,
            ReadResult::TimedOut => ReadEnd::TimedOut,
        }
    }
}

/// An optional result.
pub open spec fn as_end(r: Option<ReadResult>) -> Option<ReadEnd> {
    match r {
        Some(r) => Some(r@),
        None => None,
    }
}

/// `SystemTime::elapsed` of the epoch, in whole seconds: whatever the system
/// clock says.
#[verifier::external_body]
fn seconds_since_epoch() -> (r: Option<i64>)
{
    std::time::UNIX_EPOCH.elapsed().ok().map(|d| d.as_secs() as i64)
}

/// The system clock was asked, and said so.
pub closed spec fn clock_said(now: Option<i64>) -> bool {
    call_ensures(seconds_since_epoch, (), now)
}

impl Default for Editor {
    /// A fresh editor.
    fn default() -> (r: Editor)
        ensures
            r.wf(),
            r.is_new(),
    {
        Editor::new()
    }
}

impl Editor {
    /// What holds of every editor: its history is well-formed, and its bindings
    /// are tidy.
    pub open spec fn wf(self) -> bool {
        &&& self.log.wf()
        &&& tidy(self.binds())
    }

    /// With nothing in it, and readline's defaults.
    pub open spec fn is_new(self) -> bool {
        &&& self.log@ == (Log {
            items: Seq::empty(),
            persisted: 0,
            max: usize::MAX as int,
            dedup: false,
        })
        &&& self.kill_ring@ == (Ring { entries: Seq::empty(), max: 32 })
        &&& !self.ignore_space
        &&& !self.write_timestamps
        &&& self.binds() == Seq::<(Key, Bound)>::empty()
        &&& self.cfg == default_config()
        &&& self.operate_next is None
    }

    /// The host's bindings.
    pub open spec fn binds(self) -> Seq<(Key, Bound)> {
        as_bindings(self.bindings@)
    }

    /// The history's texts.
    pub open spec fn texts(self) -> Seq<Seq<char>> {
        texts(self.log.entries@)
    }

    /// What the next read takes over.
    pub open spec fn kept(self) -> Kept {
        Kept { ring: self.kill_ring@, next: as_next(self.operate_next) }
    }

    /// Whether the parts of the editor fit together, as they do in every editor
    /// that was built through its methods.
    pub fn is_sound(&self) -> (r: bool)
        ensures
            r == self.wf(),
    {
        proof {
            reveal(as_bindings);
        }
        let log = &self.log;
        if log.stamps.len() != log.entries.len() || log.persisted > log.entries.len()
            || log.entries.len() > log.max {
            return false;
        }
        if !log.is_on_one_line() {
            return false;
        }
        let mut i: usize = 0;
        while i < self.bindings.len()
            invariant
                i <= self.bindings@.len(),
                forall|k: int|
                    0 <= k < i ==> nameable((#[trigger] self.bindings@[k]).0) && bound_at(
                        self.binds(),
                        self.bindings@[k].0,
                        0,
                    ) == Some(k),
            decreases self.bindings@.len() - i,
        {
            let key = self.bindings[i].0;
            let name = key_spec(&key);
            let named = match parse_key_spec(name.as_str()) {
                Some(k) => k == key,
                None => false,
            };
            let first = match find_binding(&self.bindings, &key) {
                Some(k) => k == i,
                None => false,
            };
            proof {
                reveal(as_bindings);
                named_is_nameable(name@);
                if nameable(key) {
                    spelling_names_key(key);
                }
                bound_at_finds(self.binds(), key, 0);
                assert(self.binds()[i as int].0 == key);
            }
            if !named || !first {
                return false;
            }
            i += 1;
        }
        assert(tidy(self.binds())) by {
            assert forall|a: int| 0 <= a < self.binds().len() implies nameable(
                (#[trigger] self.binds()[a]).0,
            ) by {
                assert(nameable(self.bindings@[a].0));
            }
            assert forall|a: int, b: int| 0 <= a < b < self.binds().len() implies (
            #[trigger] self.binds()[a]).0 != (#[trigger] self.binds()[b]).0 by {
                assert(bound_at(self.binds(), self.bindings@[a].0, 0) == Some(a));
                assert(bound_at(self.binds(), self.bindings@[b].0, 0) == Some(b));
            }
        }
        true
    }

    /// A fresh editor with empty history and kill ring.
    pub fn new() -> (r: Editor)
        ensures
            r.wf(),
            r.is_new(),
    {
        let r = Editor {
            log: History::new(),
            kill_ring: KillRing::new(),
            ignore_space: false,
            write_timestamps: false,
            bindings: Vec::new(),
            cfg: EditorConfig::default(),
            operate_next: None,
        };
        assert(r.binds() =~= Seq::<(Key, Bound)>::empty()) by {
            reveal(as_bindings);
        }
        r
    }

    /// Rebind `keys` to `action`, replacing the default (or a previous
    /// rebinding), as readline's `bind '"\C-x": function'` does. The key spec
    /// accepts readline's spellings: `\C-x`, `\M-f`, `\e[1;5C`, plus the usual
    /// backslash escapes. Bindings apply to the emacs and vi-insert keymaps; vi
    /// normal mode is fixed. Errors on a spec that does not parse to a single
    /// recognized key (multi-key chords are not supported).
    pub fn bind(&mut self, keys: &str, action: EditorAction) -> (r: Result<(), BindError>)
        requires
            old(self).wf(),
        ensures
            final(self).wf(),
            r is Ok <==> key_named(keys@) is Some,
            r matches Err(e) ==> e.spec@ == keys@ && *final(self) == *old(self),
            r is Ok ==> final(self).binds() == rebound(
                old(self).binds(),
                key_named(keys@)->0,
                Bound::Action(action),
            ),
            *final(self) == (Editor { bindings: final(self).bindings, ..*old(self) }),
    {
        self.bind_internal(keys, Binding::Action(action))
    }

    /// Bind `keys` to a host command (bash's `bind -x`). When the key is
    /// pressed the host's hook runs with `tag` and the current line and cursor,
    /// and whatever it writes back becomes the buffer.
    pub fn bind_host(&mut self, keys: &str, tag: String) -> (r: Result<(), BindError>)
        requires
            old(self).wf(),
        ensures
            final(self).wf(),
            r is Ok <==> key_named(keys@) is Some,
            r matches Err(e) ==> e.spec@ == keys@ && *final(self) == *old(self),
            r is Ok ==> final(self).binds() == rebound(
                old(self).binds(),
                key_named(keys@)->0,
                Bound::Host(tag@),
            ),
            *final(self) == (Editor { bindings: final(self).bindings, ..*old(self) }),
    {
        self.bind_internal(keys, Binding::Host(tag))
    }

    /// Remove any binding for `keys`, including the default, so the key does
    /// nothing (readline's `bind -r`). Rebind with [`bind`](Editor::bind) to
    /// restore behavior.
    pub fn unbind(&mut self, keys: &str) -> (r: Result<(), BindError>)
        requires
            old(self).wf(),
        ensures
            final(self).wf(),
            r is Ok <==> key_named(keys@) is Some,
            r matches Err(e) ==> e.spec@ == keys@ && *final(self) == *old(self),
            r is Ok ==> final(self).binds() == rebound(
                old(self).binds(),
                key_named(keys@)->0,
                Bound::Unbound,
            ),
            *final(self) == (Editor { bindings: final(self).bindings, ..*old(self) }),
    {
        self.bind_internal(keys, Binding::Unbound)
    }

    fn bind_internal(&mut self, keys: &str, binding: Binding) -> (r: Result<(), BindError>)
        requires
            old(self).wf(),
        ensures
            final(self).wf(),
            r is Ok <==> key_named(keys@) is Some,
            r matches Err(e) ==> e.spec@ == keys@ && *final(self) == *old(self),
            r is Ok ==> final(self).binds() == rebound(
                old(self).binds(),
                key_named(keys@)->0,
                binding@,
            ),
            *final(self) == (Editor { bindings: final(self).bindings, ..*old(self) }),
    {
        match parse_key_spec(keys) {
            None => Err(BindError { spec: keys.to_owned() }),
            Some(key) => {
                let ghost before = self.bindings@;
                let ghost x = binding@;
                proof {
                    named_is_nameable(keys@);
                    binding_binds(as_bindings(before), key, x, key);
                }
                match find_binding(&self.bindings, &key) {
                    Some(i) => {
                        self.bindings.set(i, (key, binding));
                        assert(self.binds() =~= as_bindings(before).update(i as int, (key, x))) by {
                            reveal(as_bindings);
                        }
                    },
                    None => {
                        self.bindings.push((key, binding));
                        assert(self.binds() =~= as_bindings(before).push((key, x))) by {
                            reveal(as_bindings);
                        }
                    },
                }
                Ok(())
            },
        }
    }

    /// The current action bindings (defaults with rebindings applied) as (key
    /// spec, action) pairs, a shell's `bind -P`. Host-command bindings and
    /// self-inserting character keys are not listed.
    pub fn bindings(&self) -> (r: Vec<(String, EditorAction)>)
        ensures
            as_rows(r@) == listing(self.binds()),
    {
        let rows = default_bindings();
        let mut out: Vec<(String, EditorAction)> = Vec::new();
        let ghost b = self.binds();
        let mut i: usize = 0;
        assert(as_rows(out@) =~= default_rows(rows@.take(0), b));
        while i < rows.len()
            invariant
                i <= rows@.len(),
                b == self.binds(),
                as_rows(out@) == default_rows(rows@.take(i as int), b),
            decreases rows@.len() - i,
        {
            let (key, action) = rows[i];
            let ghost before = as_rows(out@);
            if find_binding(&self.bindings, &key).is_none() {
                out.push((key_spec(&key), action));
                assert(as_rows(out@) =~= before.push((name_of_key(key), action)));
            }
            i += 1;
            assert(rows@.take(i as int).drop_last() =~= rows@.take(i - 1));
        }
        assert(rows@.take(i as int) =~= rows@);
        let ghost defaults = as_rows(out@);
        let mut k: usize = 0;
        assert(defaults + action_rows(b.take(0)) =~= defaults);
        while k < self.bindings.len()
            invariant
                k <= self.bindings@.len(),
                b == self.binds(),
                as_rows(out@) == defaults + action_rows(b.take(k as int)),
            decreases self.bindings@.len() - k,
        {
            let ghost before = as_rows(out@);
            assert(b.len() == self.bindings@.len() && b[k as int] == (
                self.bindings@[k as int].0,
                self.bindings@[k as int].1@,
            )) by {
                reveal(as_bindings);
            }
            match &self.bindings[k].1 {
                Binding::Action(a) => {
                    out.push((key_spec(&self.bindings[k].0), *a));
                    assert(as_rows(out@) =~= before.push((name_of_key(b[k as int].0), *a)));
                },
                _ => {},
            }
            k += 1;
            assert(b.take(k as int).drop_last() =~= b.take(k - 1));
            assert(b.take(k as int).last() == b[k - 1]);
            assert(as_rows(out@) =~= defaults + action_rows(b.take(k as int)));
        }
        assert(b.take(k as int) =~= b) by {
            reveal(as_bindings);
        }
        out
    }

    /// The host-command bindings as (key spec, tag) pairs, bash's `bind -X`.
    pub fn host_bindings(&self) -> (r: Vec<(String, String)>)
        ensures
            as_host_rows(r@) == host_rows(self.binds()),
    {
        let mut out: Vec<(String, String)> = Vec::new();
        let ghost b = self.binds();
        let mut k: usize = 0;
        assert(as_host_rows(out@) =~= host_rows(b.take(0)));
        while k < self.bindings.len()
            invariant
                k <= self.bindings@.len(),
                b == self.binds(),
                as_host_rows(out@) == host_rows(b.take(k as int)),
            decreases self.bindings@.len() - k,
        {
            let ghost before = as_host_rows(out@);
            assert(b.len() == self.bindings@.len() && b[k as int] == (
                self.bindings@[k as int].0,
                self.bindings@[k as int].1@,
            )) by {
                reveal(as_bindings);
            }
            match &self.bindings[k].1 {
                Binding::Host(tag) => {
                    out.push((key_spec(&self.bindings[k].0), tag.clone()));
                    assert(as_host_rows(out@) =~= before.push(
                        (name_of_key(b[k as int].0), tag@),
                    ));
                },
                _ => {},
            }
            k += 1;
            assert(b.take(k as int).drop_last() =~= b.take(k - 1));
            assert(b.take(k as int).last() == b[k - 1]);
        }
        assert(b.take(k as int) =~= b) by {
            reveal(as_bindings);
        }
        out
    }

    /// Case-insensitive completion matching (readline's
    /// `completion-ignore-case`): the common-prefix step compares candidates
    /// ignoring case (the first candidate's case is inserted). Off by default.
    pub fn set_completion_ignore_case(&mut self, on: bool)
        ensures
            *final(self) == (Editor {
                cfg: (EditorConfig { completion_ignore_case: on, ..old(self).cfg }),
                ..*old(self)
            }),
    {
        self.cfg.completion_ignore_case = on;
    }

    /// List completion candidates immediately when a completion is ambiguous,
    /// instead of on the second Tab (readline's `show-all-if-ambiguous`). Off
    /// by default.
    pub fn set_show_all_if_ambiguous(&mut self, on: bool)
        ensures
            *final(self) == (Editor {
                cfg: (EditorConfig { show_all_if_ambiguous: on, ..old(self).cfg }),
                ..*old(self)
            }),
    {
        self.cfg.show_all_if_ambiguous = on;
    }

    /// Make Tab cycle through the candidates directly, inserting the first
    /// match immediately (readline's `menu-complete` bound in place of
    /// `complete`). Off by default.
    pub fn set_menu_complete(&mut self, on: bool)
        ensures
            *final(self) == (Editor {
                cfg: (EditorConfig { menu_complete: on, ..old(self).cfg }),
                ..*old(self)
            }),
    {
        self.cfg.menu_complete = on;
    }

    /// What ringing the bell does (readline's `bell-style`). The editor rings
    /// on completion with no candidates, on history motion past either end, on
    /// a failed search, and on a failed vi find.
    pub fn set_bell_style(&mut self, style: BellStyle)
        ensures
            *final(self) == (Editor {
                cfg: (EditorConfig { bell: style, ..old(self).cfg }),
                ..*old(self)
            }),
    {
        self.cfg.bell = style;
    }

    /// Case-insensitive history search (readline's `search-ignore-case`), for
    /// incremental and prefix search. Off by default.
    pub fn set_search_ignore_case(&mut self, on: bool)
        ensures
            *final(self) == (Editor {
                cfg: (EditorConfig { search_ignore_case: on, ..old(self).cfg }),
                ..*old(self)
            }),
    {
        self.cfg.search_ignore_case = on;
    }

    /// Ask before listing this many candidates or more (readline's
    /// `completion-query-items`); 0 never asks. 100 by default.
    pub fn set_completion_query_items(&mut self, n: usize)
        ensures
            *final(self) == (Editor {
                cfg: (EditorConfig { query_items: n, ..old(self).cfg }),
                ..*old(self)
            }),
    {
        self.cfg.query_items = n;
    }

    /// What follows a unique, fully inserted completion (readline's
    /// `rl_completion_append_character`); `None` for nothing. A space by
    /// default.
    pub fn set_completion_append_character(&mut self, c: Option<char>)
        ensures
            *final(self) == (Editor {
                cfg: (EditorConfig { append_character: c, ..old(self).cfg }),
                ..*old(self)
            }),
    {
        self.cfg.append_character = c;
    }

    /// Prefix the prompt with readline's mode strings: `(ins)` / `(cmd)` in vi
    /// mode, `@` in emacs mode. Off by default.
    pub fn set_show_mode_in_prompt(&mut self, on: bool)
        ensures
            *final(self) == (Editor {
                cfg: (EditorConfig { show_mode: on, ..old(self).cfg }),
                ..*old(self)
            }),
    {
        self.cfg.show_mode = on;
    }

    /// Keep at most `n` undo steps. 200 by default.
    pub fn set_max_undo_len(&mut self, n: usize)
        ensures
            *final(self) == (Editor {
                cfg: (EditorConfig { max_undo: n, ..old(self).cfg }),
                ..*old(self)
            }),
    {
        self.cfg.max_undo = n;
    }

    /// Keep at most `n` kill-ring entries. 32 by default.
    pub fn set_max_kill_ring_len(&mut self, n: usize)
        ensures
            final(self).kill_ring@ == old(self).kill_ring@.limited(n as int),
            *final(self) == (Editor { kill_ring: final(self).kill_ring, ..*old(self) }),
    {
        self.kill_ring.set_max(n);
    }

    /// When enabled, adding an entry removes earlier duplicates anywhere in the
    /// history (bash `HISTCONTROL=erasedups`), not just a consecutive repeat.
    /// Off by default.
    pub fn set_history_dedup(&mut self, on: bool)
        requires
            old(self).wf(),
        ensures
            final(self).log@ == (Log { dedup: on, ..old(self).log@ }),
            final(self).wf(),
            *final(self) == (Editor { log: final(self).log, ..*old(self) }),
    {
        self.log.dedup = on;
    }

    /// When enabled, [`add_history_entry`](Editor::add_history_entry) skips
    /// lines that start with a space (bash `HISTCONTROL=ignorespace`). Off by
    /// default.
    pub fn set_history_ignore_space(&mut self, on: bool)
        ensures
            *final(self) == (Editor { ignore_space: on, ..*old(self) }),
    {
        self.ignore_space = on;
    }

    /// Cap the history at `n` entries (readline's `stifle_history`): the oldest
    /// entries are dropped as new ones arrive. Applies immediately and to
    /// future additions. The default is unbounded.
    pub fn set_max_history_len(&mut self, n: usize)
        requires
            old(self).wf(),
        ensures
            final(self).log@ == (Log { max: n as int, ..old(self).log@ }).capped(),
            final(self).wf(),
            *final(self) == (Editor { log: final(self).log, ..*old(self) }),
    {
        self.log.set_max(n);
    }

    /// The history entries, oldest first.
    pub fn history(&self) -> (r: &[String])
        ensures
            r@ == self.log.entries@,
    {
        self.log.entries.as_slice()
    }

    /// Per-entry epoch timestamps, parallel to [`history`](Editor::history);
    /// `None` for entries loaded from a file without them.
    pub fn history_timestamps(&self) -> (r: &[Option<i64>])
        ensures
            r@ == self.log.stamps@,
    {
        self.log.stamps.as_slice()
    }

    /// When enabled, saving and appending precede each entry with bash's
    /// `#<epoch>` timestamp comment. Off by default, so existing plain history
    /// files are not rewritten into the timestamped format behind the user's
    /// back. Loading understands both formats regardless of this toggle.
    pub fn set_history_timestamps(&mut self, on: bool)
        ensures
            *final(self) == (Editor { write_timestamps: on, ..*old(self) }),
    {
        self.write_timestamps = on;
    }

    /// Append to history, skipping a consecutive duplicate, and under
    /// [`set_history_ignore_space`](Editor::set_history_ignore_space) a line
    /// that starts with a space. A multi-line entry (a bracketed paste) is
    /// joined with `; `, so recall and the line-oriented history file both
    /// work. The entry is stamped with the current time.
    pub fn add_history_entry(&mut self, line: &str)
        requires
            old(self).wf(),
        ensures
            final(self).wf(),
            *final(self) == (Editor { log: final(self).log, ..*old(self) }),
            old(self).ignores(line@) ==> *final(self) == *old(self),
            !old(self).ignores(line@) ==> exists|now: Option<i64>| #[trigger]
                clock_said(now) && final(self).log@ == old(self).log@.added(one_line(line@), now),
    {
        let text = chars_of(line);
        if self.ignore_space && text.len() > 0 && text[0] == ' ' {
            return;
        }
        let now = seconds_since_epoch();
        self.log.add_entry(line, now);
        assert(clock_said(now));
    }

    /// The line is not to enter the history.
    pub open spec fn ignores(self, line: Seq<char>) -> bool {
        self.ignore_space && line.len() > 0 && line[0] == ' '
    }

    /// Append to history with a given timestamp.
    pub fn add_entry(&mut self, line: &str, stamp: Option<i64>)
        requires
            old(self).wf(),
        ensures
            final(self).log@ == old(self).log@.added(one_line(line@), stamp),
            final(self).wf(),
            *final(self) == (Editor { log: final(self).log, ..*old(self) }),
    {
        self.log.add_entry(line, stamp);
    }

    /// Replace the whole history in place, as a shell does after its
    /// `history -c` / `history -d` builtin. Entries are treated as already
    /// persisted: a following append writes only entries added after this call.
    /// Timestamps are cleared.
    pub fn replace_history(&mut self, entries: Vec<String>)
        requires
            old(self).wf(),
        ensures
            final(self).log@ == old(self).log@.replaced(texts(entries@)),
            final(self).wf(),
            *final(self) == (Editor { log: final(self).log, ..*old(self) }),
    {
        self.log.replace(entries);
    }

    fn locate(&self, i: usize, text: &String) -> (r: Option<usize>)
        ensures
            crate::text::as_index(r) == located(self.texts(), i as int, text@),
            r matches Some(j) ==> j < self.log.entries@.len(),
    {
        let ghost all = self.texts();
        if i < self.log.entries.len() && self.log.entries[i] == *text {
            return Some(i);
        }
        let mut n: usize = self.log.entries.len();
        while n > 0
            invariant
                n <= self.log.entries@.len(),
                all == self.texts(),
                !(i < all.len() && all[i as int] == text@),
                last_with(all, all.len() as int, text@) == last_with(all, n as int, text@),
            decreases n,
        {
            if self.log.entries[n - 1] == *text {
                return Some(n - 1);
            }
            n -= 1;
        }
        None
    }

    /// Begin a line. `rprompt` is the already-expanded right-side prompt text,
    /// or empty for none; `seed` is the text before and after the cursor to
    /// start with. Without a seed the line is pre-loaded with the entry that
    /// the previous line asked for (operate-and-get-next), found again by its
    /// text if the history shifted in between.
    pub fn begin_line(
        &mut self,
        prompt: &str,
        rprompt: &str,
        cols: usize,
        vi: bool,
        seed: Option<(&str, &str)>,
    ) -> (r: LineState)
        requires
            old(self).wf(),
        ensures
            r@ == begun(
                prompt@,
                rprompt@,
                cols as int,
                vi,
                old(self).cfg,
                as_seed(seed),
                as_next(old(self).operate_next),
                old(self).texts(),
            ),
            r@.wf(old(self).texts()),
            *final(self) == (Editor { operate_next: None, ..*old(self) }),
    {
        let mut next: Option<(usize, String)> = None;
        std::mem::swap(&mut next, &mut self.operate_next);
        let mut st = LineState::with_text("", 0);
        proof {
            reveal_strlit("");
            assert(""@ =~= Seq::<char>::empty());
        }
        let p = chars_of(prompt);
        let k = split_prompt(p.as_slice());
        st.head = slice(p.as_slice(), 0, k);
        assert(st.head@ =~= prompt@.take(k as int));
        st.prompt = slice(p.as_slice(), k, p.len());
        assert(st.prompt@ =~= prompt@.skip(k as int));
        st.rprompt = chars_of(rprompt);
        st.cols = cols;
        st.vi = vi;
        st.cfg = self.cfg;
        match seed {
            Some((left, right)) => {
                let mut buffer = chars_of(left);
                st.cursor = buffer.len();
                let tail = chars_of(right);
                push_chars(&mut buffer, tail.as_slice());
                st.buffer = buffer;
            },
            None => match next {
                Some((i, text)) => match self.locate(i, &text) {
                    Some(j) => {
                        st.hist_index = Some(j);
                        st.buffer = chars_of(self.log.entries[j].as_str());
                        st.cursor = st.buffer.len();
                    },
                    None => {},
                },
                None => {},
            },
        }
        st
    }

    /// End a line after a key, if the key ends it: the terminal moves below the
    /// edit region, and the entry to pre-load the next line with is kept.
    pub fn end_line(&mut self, st: &mut LineState, after: AfterKey) -> (r: Option<ReadResult>)
        requires
            old(self).wf(),
        ensures
            as_end(r) == ending(old(st)@, after),
            final(st)@ == (if r is Some {
                old(st)@.left()
            } else {
                old(st)@
            }),
            as_next(final(self).operate_next) == next_after(
                old(st)@,
                after,
                old(self).texts(),
                as_next(old(self).operate_next),
            ),
            *final(self) == (Editor { operate_next: final(self).operate_next, ..*old(self) }),
    {
        match after {
            AfterKey::Accept => {
                st.finish_line();
                proof {
                    reveal(Line::left);
                }
                self.operate_next = match st.next {
                    Some(i) => if i < self.log.entries.len() {
                        Some((i, self.log.entries[i].clone()))
                    } else {
                        None
                    },
                    None => None,
                };
                Some(ReadResult::Line(st.text()))
            },
            AfterKey::Interrupted => {
                st.finish_line();
                Some(ReadResult::Interrupted)
            },
            AfterKey::Eof => {
                st.finish_line();
                Some(ReadResult::Eof)
            },
            _ => None,
        }
    }
}

/// The seed of a line.
pub open spec fn as_seed(seed: Option<(&str, &str)>) -> Option<(Seq<char>, Seq<char>)> {
    match seed {
        Some((left, right)) => Some((left@, right@)),
        None => None,
    }
}

/// Where a prompt's last line starts.
fn split_prompt(p: &[char]) -> (r: usize)
    ensures
        r == last_line_start(p@),
        r <= p@.len(),
{
    let mut k: usize = p.len();
    assert(p@.take(k as int) =~= p@);
    while k > 0 && p[k - 1] != '\n'
        invariant
            k <= p@.len(),
            last_line_start(p@) == last_line_start(p@.take(k as int)),
        decreases k,
    {
        assert(p@.take(k as int).last() == p@[k - 1]);
        assert(p@.take(k as int).drop_last() =~= p@.take(k - 1));
        k -= 1;
    }
    assert(k > 0 ==> p@.take(k as int).last() == p@[k - 1]);
    k
}

/// The line of a plain read (no editing): its bytes without the `\r` of a CRLF
/// ending. Nothing before the end of the input is end of file.
pub fn plain_result(bytes: &[u8], ended: bool) -> (r: ReadResult)
    ensures
        r@ == plain_end(bytes@, ended),
{
    if ended && bytes.len() == 0 {
        return ReadResult::Eof;
    }
    let n = if bytes.len() > 0 && bytes[bytes.len() - 1] == 0x0d {
        bytes.len() - 1
    } else {
        bytes.len()
    };
    let line = crate::keys::byte_slice(bytes, 0, n);
    assert(bytes@.len() > 0 ==> bytes@.last() == bytes@[bytes@.len() - 1]);
    assert(line@ =~= (if bytes@.len() > 0 && bytes@.last() == 0x0d {
        bytes@.drop_last()
    } else {
        bytes@
    }));
    ReadResult::Line(utf8_text_lossy(line.as_slice()))
}

/// How a plain read of some bytes ends.
pub open spec fn plain_end(bytes: Seq<u8>, ended: bool) -> ReadEnd {
    if ended && bytes.len() == 0 {
        ReadEnd::Eof
    } else if bytes.len() > 0 && bytes.last() == 0x0d {
        ReadEnd::Line(lossy_utf8(bytes.drop_last()))
    } else {
        ReadEnd::Line(lossy_utf8(bytes))
    }
}

/// A line without the line ending at its end, however many characters of one
/// there are.
pub open spec fn unended(s: Seq<char>) -> Seq<char>
    decreases s.len(),
{
    if s.len() > 0 && (s.last() == '\n' || s.last() == '\r') {
        unended(s.drop_last())
    } else {
        s
    }
}

/// The line of a buffered read, which comes with its line ending: nothing at
/// all is end of file.
pub fn buffered_result(line: &str) -> (r: ReadResult)
    ensures
        r@ == (if line@.len() == 0 {
            ReadEnd::Eof
        } else {
            ReadEnd::Line(unended(line@))
        }),
{
    let v = chars_of(line);
    if v.len() == 0 {
        return ReadResult::Eof;
    }
    let mut n: usize = v.len();
    assert(v@.take(n as int) =~= v@);
    while n > 0 && (v[n - 1] == '\n' || v[n - 1] == '\r')
        invariant
            n <= v@.len(),
            unended(v@.take(n as int)) == unended(line@),
        decreases n,
    {
        assert(v@.take(n as int).drop_last() =~= v@.take(n - 1));
        n -= 1;
    }
    assert(n > 0 ==> v@.take(n as int).last() == v@[n - 1]);
    let kept = slice(v.as_slice(), 0, n);
    assert(kept@ =~= v@.take(n as int));
    ReadResult::Line(string_of(kept.as_slice()))
}

/// No key is bound twice, and a spec can name each.
pub open spec fn tidy(b: Seq<(Key, Bound)>) -> bool {
    &&& forall|i: int| 0 <= i < b.len() ==> nameable((#[trigger] b[i]).0)
    &&& forall|i: int, j: int| 0 <= i < j < b.len() ==> (#[trigger] b[i]).0 != (#[trigger] b[j]).0
}

proof fn bound_at_finds(b: Seq<(Key, Bound)>, key: Key, from: int)
    requires
        0 <= from <= b.len(),
    ensures
        match bound_at(b, key, from) {
            Some(i) => from <= i < b.len() && b[i].0 == key && (forall|k: int|
                from <= k < i ==> (#[trigger] b[k]).0 != key),
            None => forall|k: int| from <= k < b.len() ==> (#[trigger] b[k]).0 != key,
        },
    decreases b.len() - from,
{
    if from < b.len() && b[from].0 != key {
        bound_at_finds(b, key, from + 1);
    }
}

/// What a key has been bound to.
pub open spec fn bound_to(b: Seq<(Key, Bound)>, key: Key) -> Option<Bound> {
    match bound_at(b, key, 0) {
        Some(i) => Some(b[i].1),
        None => None,
    }
}

/// Binding a key binds that key, and leaves every other as it was.
pub proof fn binding_binds(b: Seq<(Key, Bound)>, key: Key, x: Bound, other: Key)
    ensures
        bound_to(rebound(b, key, x), key) == Some(x),
        other != key ==> bound_to(rebound(b, key, x), other) == bound_to(b, other) && bound_at(
            rebound(b, key, x),
            other,
            0,
        ) == bound_at(b, other, 0),
        tidy(b) && nameable(key) ==> tidy(rebound(b, key, x)),
{
    let r = rebound(b, key, x);
    bound_at_finds(b, key, 0);
    bound_at_finds(b, other, 0);
    bound_at_finds(r, key, 0);
    bound_at_finds(r, other, 0);
    let own = match bound_at(b, key, 0) {
        Some(i) => i,
        None => b.len() as int,
    };
    assert(r[own] == (key, x));
    assert(bound_at(r, key, 0) is Some);
    if bound_at(r, key, 0)->0 < own {
        assert(r[bound_at(r, key, 0)->0] == b[bound_at(r, key, 0)->0]);
    }
    if other != key {
        match bound_at(b, other, 0) {
            Some(i) => {
                assert(r[i] == b[i]);
                let k = bound_at(r, other, 0)->0;
                assert(bound_at(r, other, 0) is Some);
                if k < i {
                    assert(r[k] == b[k]);
                }
            },
            None => {
                if let Some(k) = bound_at(r, other, 0) {
                    assert(k < b.len());
                    assert(r[k] == b[k]);
                }
            },
        }
    }
}

/// A bound key runs its action, an unbound one does nothing, and any other key
/// does what it did. (Escape enters normal mode in the vi keymap, and normal
/// mode is not rebindable.)
pub proof fn bound_keys_run_their_actions(
    line: Line,
    b: Seq<(Key, Bound)>,
    key: Key,
    action: EditorAction,
    other: Key,
)
    requires
        !(line.vi && line.vi_normal),
        !(line.vi && key == Key::Esc),
    ensures
        line.verb(rebound(b, key, Bound::Action(action)), key) == Verb::Run(action),
        line.verb(rebound(b, key, Bound::Unbound), key) == Verb::Nothing,
        other != key ==> line.verb(rebound(b, key, Bound::Action(action)), other) == line.verb(
            b,
            other,
        ),
        other != key ==> line.verb(rebound(b, key, Bound::Unbound), other) == line.verb(b, other),
{
    binding_binds(b, key, Bound::Action(action), other);
    binding_binds(b, key, Bound::Unbound, other);
}

/// The action that a key runs at the prompt, as the listing shows it.
pub open spec fn runs(b: Seq<(Key, Bound)>, key: Key) -> Option<EditorAction> {
    match bound_to(b, key) {
        Some(Bound::Action(a)) => Some(a),
        Some(_) => None,
        None => if key is Char {
            None
        } else {
            default_of(key)
        },
    }
}

proof fn default_rows_hold(
    rows: Seq<(Key, EditorAction)>,
    b: Seq<(Key, Bound)>,
    row: (Seq<char>, EditorAction),
)
    ensures
        default_rows(rows, b).contains(row) <==> exists|i: int|
            0 <= i < rows.len() && bound_at(b, (#[trigger] rows[i]).0, 0) is None && row == (
                name_of_key(rows[i].0),
                rows[i].1,
            ),
    decreases rows.len(),
{
    let all = default_rows(rows, b);
    if rows.len() > 0 {
        let front = rows.drop_last();
        let last = rows.len() - 1;
        default_rows_hold(front, b, row);
        let before = default_rows(front, b);
        if all.contains(row) {
            let k = choose|k: int| 0 <= k < all.len() && all[k] == row;
            if k < before.len() {
                assert(before[k] == row);
                let i = choose|i: int|
                    0 <= i < front.len() && bound_at(b, (#[trigger] front[i]).0, 0) is None && row
                        == (name_of_key(front[i].0), front[i].1);
                assert(rows[i] == front[i]);
            } else {
                assert(rows[last] == rows.last());
            }
        }
        if exists|i: int|
            0 <= i < rows.len() && bound_at(b, (#[trigger] rows[i]).0, 0) is None && row == (
                name_of_key(rows[i].0),
                rows[i].1,
            ) {
            let i = choose|i: int|
                0 <= i < rows.len() && bound_at(b, (#[trigger] rows[i]).0, 0) is None && row == (
                    name_of_key(rows[i].0),
                    rows[i].1,
                );
            if i < last {
                assert(front[i] == rows[i]);
                let k = choose|k: int| 0 <= k < before.len() && before[k] == row;
                assert(all[k] == row);
            } else {
                assert(all[before.len() as int] == row);
            }
        }
    }
}

proof fn action_rows_hold(b: Seq<(Key, Bound)>, row: (Seq<char>, EditorAction))
    ensures
        action_rows(b).contains(row) <==> exists|i: int|
            0 <= i < b.len() && (#[trigger] b[i]).1 == Bound::Action(row.1) && row.0
                == name_of_key(b[i].0),
    decreases b.len(),
{
    let all = action_rows(b);
    if b.len() > 0 {
        let front = b.drop_last();
        let last = b.len() - 1;
        let before = action_rows(front);
        action_rows_hold(front, row);
        if all.contains(row) {
            let k = choose|k: int| 0 <= k < all.len() && all[k] == row;
            if k < before.len() {
                assert(before[k] == row);
                let i = choose|i: int|
                    0 <= i < front.len() && (#[trigger] front[i]).1 == Bound::Action(row.1) && row.0
                        == name_of_key(front[i].0);
                assert(b[i] == front[i]);
            } else {
                assert(b[last] == b.last());
            }
        }
        if exists|i: int|
            0 <= i < b.len() && (#[trigger] b[i]).1 == Bound::Action(row.1) && row.0
                == name_of_key(b[i].0) {
            let i = choose|i: int|
                0 <= i < b.len() && (#[trigger] b[i]).1 == Bound::Action(row.1) && row.0
                    == name_of_key(b[i].0);
            if i < last {
                assert(front[i] == b[i]);
                let k = choose|k: int| 0 <= k < before.len() && before[k] == row;
                assert(all[k] == row);
            } else {
                assert(all[before.len() as int] == row);
            }
        }
    }
}

proof fn default_keys_are_nameable()
    ensures
        forall|i: int|
            0 <= i < default_keymap().len() ==> nameable((#[trigger] default_keymap()[i]).0),
{
}

/// The listing shows exactly what the keys run: a key's row is there with an
/// action if and only if the key runs that action at the prompt. So a rebinding
/// replaces the default row, an unbound key has none, and host commands and
/// self-inserting characters are not listed.
pub proof fn listing_shows_what_keys_run(b: Seq<(Key, Bound)>, key: Key, action: EditorAction)
    requires
        tidy(b),
        nameable(key),
    ensures
        listing(b).contains((name_of_key(key), action)) <==> runs(b, key) == Some(action),
{
    let row = (name_of_key(key), action);
    let map = default_keymap();
    let d = default_rows(map, b);
    let c = action_rows(b);
    default_rows_hold(map, b, row);
    action_rows_hold(b, row);
    default_keys_are_nameable();
    spelling_names_key(key);
    bound_at_finds(b, key, 0);
    keymap_lists_defaults(key, action);
    if listing(b).contains(row) {
        let k = choose|k: int| 0 <= k < listing(b).len() && listing(b)[k] == row;
        if k < d.len() {
            assert(d[k] == row);
            let i = choose|i: int|
                0 <= i < map.len() && bound_at(b, (#[trigger] map[i]).0, 0) is None && row == (
                    name_of_key(map[i].0),
                    map[i].1,
                );
            spelling_names_key(map[i].0);
            assert(map[i] == (key, action));
            assert(map.contains((key, action)));
        } else {
            assert(c[k - d.len()] == row);
            let i = choose|i: int|
                0 <= i < b.len() && (#[trigger] b[i]).1 == Bound::Action(row.1) && row.0
                    == name_of_key(b[i].0);
            spelling_names_key(b[i].0);
            assert(b[i].0 == key);
            assert(bound_at(b, key, 0) == Some(i));
        }
    }
    if runs(b, key) == Some(action) {
        match bound_at(b, key, 0) {
            Some(i) => {
                assert(b[i].1 == Bound::Action(row.1));
                let k = choose|k: int| 0 <= k < c.len() && c[k] == row;
                assert(listing(b)[d.len() + k] == row);
            },
            None => {
                let i = choose|i: int| 0 <= i < map.len() && map[i] == (key, action);
                assert(bound_at(b, map[i].0, 0) is None);
                let k = choose|k: int| 0 <= k < d.len() && d[k] == row;
                assert(listing(b)[k] == row);
            },
        }
    }
}

/// No two rows have the same spec, and no spec is empty.
pub open spec fn told_apart(rows: Seq<(Seq<char>, EditorAction)>) -> bool {
    &&& forall|i: int, j: int|
        0 <= i < j < rows.len() ==> (#[trigger] rows[i]).0 != (#[trigger] rows[j]).0
    &&& forall|i: int| 0 <= i < rows.len() ==> (#[trigger] rows[i]).0.len() > 0
}

/// Two keys that can be named have different names, and none is empty.
proof fn names_tell_keys_apart(a: Key, b: Key)
    requires
        nameable(a),
        nameable(b),
    ensures
        name_of_key(a) == name_of_key(b) ==> a == b,
        name_of_key(a).len() > 0,
{
    spelling_names_key(a);
    spelling_names_key(b);
}

proof fn default_rows_told_apart(rows: Seq<(Key, EditorAction)>, b: Seq<(Key, Bound)>)
    requires
        forall|i: int| 0 <= i < rows.len() ==> nameable((#[trigger] rows[i]).0),
        forall|i: int, j: int|
            0 <= i < j < rows.len() ==> (#[trigger] rows[i]).0 != (#[trigger] rows[j]).0,
    ensures
        told_apart(default_rows(rows, b)),
    decreases rows.len(),
{
    if rows.len() > 0 {
        let front = rows.drop_last();
        let last = rows.last();
        let before = default_rows(front, b);
        let all = default_rows(rows, b);
        assert(last == rows[rows.len() - 1]);
        default_rows_told_apart(front, b);
        names_tell_keys_apart(last.0, last.0);
        assert forall|k: int| 0 <= k < before.len() implies (#[trigger] before[k]).0
            != name_of_key(last.0) by {
            default_rows_hold(front, b, before[k]);
            assert(before.contains(before[k]));
            let i = choose|i: int|
                0 <= i < front.len() && bound_at(b, (#[trigger] front[i]).0, 0) is None && before[k]
                    == (name_of_key(front[i].0), front[i].1);
            assert(front[i] == rows[i]);
            names_tell_keys_apart(front[i].0, last.0);
        }
        assert forall|i: int, j: int| 0 <= i < j < all.len() implies (#[trigger] all[i]).0 != (
        #[trigger] all[j]).0 by {
            assert(all[i] == before[i]);
            if j < before.len() {
                assert(all[j] == before[j]);
            }
        }
        assert forall|i: int| 0 <= i < all.len() implies (#[trigger] all[i]).0.len() > 0 by {
            if i < before.len() {
                assert(all[i] == before[i]);
            }
        }
    }
}

proof fn action_rows_told_apart(b: Seq<(Key, Bound)>)
    requires
        tidy(b),
    ensures
        told_apart(action_rows(b)),
    decreases b.len(),
{
    if b.len() > 0 {
        let front = b.drop_last();
        let last = b.last();
        let before = action_rows(front);
        let all = action_rows(b);
        assert(last == b[b.len() - 1]);
        action_rows_told_apart(front);
        names_tell_keys_apart(last.0, last.0);
        assert forall|k: int| 0 <= k < before.len() implies (#[trigger] before[k]).0
            != name_of_key(last.0) by {
            action_rows_hold(front, before[k]);
            assert(before.contains(before[k]));
            let i = choose|i: int|
                0 <= i < front.len() && (#[trigger] front[i]).1 == Bound::Action(before[k].1)
                    && before[k].0 == name_of_key(front[i].0);
            assert(front[i] == b[i]);
            names_tell_keys_apart(front[i].0, last.0);
        }
        assert forall|i: int, j: int| 0 <= i < j < all.len() implies (#[trigger] all[i]).0 != (
        #[trigger] all[j]).0 by {
            assert(all[i] == before[i]);
            if j < before.len() {
                assert(all[j] == before[j]);
            }
        }
        assert forall|i: int| 0 <= i < all.len() implies (#[trigger] all[i]).0.len() > 0 by {
            if i < before.len() {
                assert(all[i] == before[i]);
            }
        }
    }
}

/// The listing shows no key twice, and names every key it shows.
pub proof fn listed_specs_are_distinct(b: Seq<(Key, Bound)>)
    requires
        tidy(b),
    ensures
        told_apart(listing(b)),
{
    let map = default_keymap();
    let d = default_rows(map, b);
    let c = action_rows(b);
    let all = listing(b);
    default_keys_are_nameable();
    default_keys_are_distinct();
    default_rows_told_apart(map, b);
    action_rows_told_apart(b);
    assert forall|i: int, j: int| 0 <= i < d.len() && 0 <= j < c.len() implies (#[trigger] d[i]).0
        != (#[trigger] c[j]).0 by {
        default_rows_hold(map, b, d[i]);
        assert(d.contains(d[i]));
        let m = choose|m: int|
            0 <= m < map.len() && bound_at(b, (#[trigger] map[m]).0, 0) is None && d[i] == (
                name_of_key(map[m].0),
                map[m].1,
            );
        action_rows_hold(b, c[j]);
        assert(c.contains(c[j]));
        let n = choose|n: int|
            0 <= n < b.len() && (#[trigger] b[n]).1 == Bound::Action(c[j].1) && c[j].0
                == name_of_key(b[n].0);
        bound_at_finds(b, map[m].0, 0);
        names_tell_keys_apart(map[m].0, b[n].0);
    }
    assert forall|i: int, j: int| 0 <= i < j < all.len() implies (#[trigger] all[i]).0 != (
    #[trigger] all[j]).0 by {
        if j < d.len() {
            assert(all[i] == d[i] && all[j] == d[j]);
        } else if i < d.len() {
            assert(all[i] == d[i] && all[j] == c[j - d.len()]);
        } else {
            assert(all[i] == c[i - d.len()] && all[j] == c[j - d.len()]);
        }
    }
    assert forall|i: int| 0 <= i < all.len() implies (#[trigger] all[i]).0.len() > 0 by {
        if i < d.len() {
            assert(all[i] == d[i]);
        } else {
            assert(all[i] == c[i - d.len()]);
        }
    }
}

/// The bindings after some calls of `bind`, `bind_host` and `unbind`, each given
/// by its key spec and what it binds the key to. A spec that names no key
/// changes nothing.
pub open spec fn bound_by(calls: Seq<(Seq<char>, Bound)>) -> Seq<(Key, Bound)>
    decreases calls.len(),
{
    if calls.len() == 0 {
        Seq::empty()
    } else {
        let b = bound_by(calls.drop_last());
        match key_named(calls.last().0) {
            Some(key) => rebound(b, key, calls.last().1),
            None => b,
        }
    }
}

/// What the last of some calls that names a key binds it to.
pub open spec fn last_call(calls: Seq<(Seq<char>, Bound)>, key: Key) -> Option<Bound>
    decreases calls.len(),
{
    if calls.len() == 0 {
        None
    } else if key_named(calls.last().0) == Some(key) {
        Some(calls.last().1)
    } else {
        last_call(calls.drop_last(), key)
    }
}

/// Whatever was bound and unbound before, the last call for a key counts, and
/// calls for other keys do not disturb it: the key is listed with an action if
/// and only if the last call for it bound it to that action, or there was none
/// and that is its default. No key is listed twice, or without a spec.
pub proof fn the_last_call_counts(
    calls: Seq<(Seq<char>, Bound)>,
    key: Key,
    action: EditorAction,
)
    requires
        nameable(key),
    ensures
        bound_to(bound_by(calls), key) == last_call(calls, key),
        told_apart(listing(bound_by(calls))),
        listing(bound_by(calls)).contains((name_of_key(key), action)) <==> match last_call(
            calls,
            key,
        ) {
            Some(x) => x == Bound::Action(action),
            None => default_keymap().contains((key, action)),
        },
{
    calls_bind(calls, key);
    let b = bound_by(calls);
    listed_specs_are_distinct(b);
    listing_shows_what_keys_run(b, key, action);
    keymap_lists_defaults(key, action);
}

proof fn calls_bind(calls: Seq<(Seq<char>, Bound)>, key: Key)
    ensures
        tidy(bound_by(calls)),
        bound_to(bound_by(calls), key) == last_call(calls, key),
    decreases calls.len(),
{
    if calls.len() > 0 {
        let (spec_text, x) = calls.last();
        let b = bound_by(calls.drop_last());
        calls_bind(calls.drop_last(), key);
        named_is_nameable(spec_text);
        if let Some(k) = key_named(spec_text) {
            binding_binds(b, k, x, key);
        }
    }
}

/// An entry that looks like nothing but itself in the history file.
pub open spec fn plain_entry(item: Item) -> bool {
    &&& item.0.len() > 0
    &&& item.0[0] != '#'
    &&& item.0.last() != '\r'
    &&& item.1 matches Some(t) ==> t >= 100_000_000
}

/// What one editor saves, a new one loads: the same history, with the same
/// timestamps if they were written and none if not. Appending right after
/// writes nothing.
pub proof fn a_saved_history_loads_back(ed: Editor, new: Editor, stamped: bool)
    requires
        ed.wf(),
        new.is_new(),
        forall|i: int| 0 <= i < ed.log@.items.len() ==> plain_entry(#[trigger] ed.log@.items[i]),
        no_repeats(ed.log@.items),
    ensures
        ({
            let log = new.log@.all_added(
                parsed_file(formatted(ed.log@.items, stamped)),
            ).all_persisted();
            &&& log.texts() == ed.log@.texts()
            &&& forall|i: int|
                0 <= i < log.items.len() ==> (#[trigger] log.items[i]).1 == (if stamped {
                    ed.log@.items[i].1
                } else {
                    None
                })
            &&& forall|s: bool|
                #[trigger] formatted(log.items.skip(log.persisted), s) == Seq::<char>::empty()
        }),
{
    let items = ed.log@.items;
    reveal_strlit("#V2");
    assert forall|i: int| 0 <= i < items.len() implies writable(
        #[trigger] items[i],
        stamped,
        i == items.len() - 1,
    ) by {
        assert(plain_entry(items[i]));
    }
    if items.len() > 0 {
        assert(plain_entry(items[0]));
        assert("#V2"@[0] == '#');
    }
    load_undoes_save(ed.log@, new.log@, stamped);
    let log = new.log@.all_added(parsed_file(formatted(items, stamped))).all_persisted();
    assert(log.texts() =~= ed.log@.texts());
}

/// Every editor's timestamps are parallel to its history, which holds no more
/// entries than it keeps, each on one line.
pub proof fn every_history_fits(ed: Editor)
    requires
        ed.wf(),
    ensures
        ed.log.stamps@.len() == ed.log.entries@.len(),
        ed.log.entries@.len() <= ed.log.max,
        forall|i: int|
            0 <= i < ed.log.entries@.len() ==> !(#[trigger] ed.log.entries@[i])@.contains('\n'),
{
    assert forall|i: int| 0 <= i < ed.log.entries@.len() implies !(
    #[trigger] ed.log.entries@[i])@.contains('\n') by {
        assert(!ed.log@.items[i].0.contains('\n'));
    }
}

/// A remembered entry is found where it was, or where its text is, and is lost
/// only when no entry has that text.
pub proof fn located_has_the_text(history: Seq<Seq<char>>, i: int, text: Seq<char>)
    ensures
        match located(history, i, text) {
            Some(j) => 0 <= j < history.len() && history[j] == text,
            None => !history.contains(text),
        },
{
    last_with_finds(history, history.len() as int, text);
}

proof fn last_with_finds(history: Seq<Seq<char>>, n: int, text: Seq<char>)
    requires
        0 <= n <= history.len(),
    ensures
        match last_with(history, n, text) {
            Some(j) => 0 <= j < n && history[j] == text,
            None => forall|k: int| 0 <= k < n ==> #[trigger] history[k] != text,
        },
    decreases n,
{
    if n > 0 && history[n - 1] != text {
        last_with_finds(history, n - 1, text);
    }
}

/// A line that was typed and entered is returned as it was typed, in the middle
/// of what was there before.
pub proof fn a_typed_line_is_returned(
    line: Line,
    ring: Ring,
    bindings: Seq<(Key, Bound)>,
    text: Seq<char>,
    history: Seq<Seq<char>>,
)
    requires
        types(line),
        plain_keys(bindings, text),
        bound_at(bindings, Key::Enter, 0) is None,
    ensures
        ({
            let (l, r, after) = typed_in(line, ring, bindings, text, history).stepped(
                ring,
                bindings,
                Event::Key(Key::Enter),
                history,
                Answer::Silent,
            );
            &&& ending(l, after) == Some(
                ReadEnd::Line(spliced(line.buffer, line.cursor, line.cursor, text)),
            )
            &&& r == ring
        }),
{
    typed_text_is_inserted(line, ring, bindings, text, history);
    reveal(Line::stepped);
    reveal(Line::done);
    reveal(Line::acted);
}

} // verus!
