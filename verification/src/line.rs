//! The state of one line being edited, and the mathematical value it stands
//! for.
//!
//! The buffer is a sequence of characters and the cursor an index into it;
//! byte offsets appear only where a host hook takes or gives one.
use vstd::prelude::*;

use crate::actions::BellStyle;
use crate::hooks::{choices, Candidate, Choice};
use crate::text::{as_index, push_decimal, push_str, splice, spliced};

verus! {

/// What the previous key did. Drives undo grouping (runs of plain inserts and
/// of single-character deletes undo as one unit), kill-ring appending
/// (consecutive kills grow one ring entry), yank-pop eligibility, and M-.
/// cycling.
#[derive(Debug, Clone, Copy, PartialEq, Eq, Structural)]
pub enum Action {
    /// A character was inserted.
    Insert,
    /// A character was deleted.
    Delete,
    /// Text was killed forward.
    KillFwd,
    /// Text was killed backward.
    KillBack,
    /// Text was yanked.
    Yank,
    /// A last argument was inserted.
    LastArg,
    /// An edit was undone.
    Undo,
    /// Anything else.
    Other,
}

/// What the next key is wanted for.
#[derive(Debug, Clone, Copy, PartialEq, Eq, Structural)]
pub enum Pending {
    /// Nothing in particular.
    Nothing,
    /// The second key of a C-x chord.
    Chord,
    /// A character to insert literally.
    Quoted,
    /// A character to move to: the next occurrence, or the previous one.
    FindChar(bool),
    /// A y or n on whether to list the candidates; whether the list then arms
    /// menu cycling.
    ListQuery(bool),
}

/// The readline variables, copied into each line's state.
#[derive(Debug, Clone, Copy, PartialEq, Eq, Structural)]
pub struct EditorConfig {
    /// Compare completion candidates ignoring case.
    pub completion_ignore_case: bool,
    /// List candidates as soon as a completion is ambiguous.
    pub show_all_if_ambiguous: bool,
    /// Tab cycles through the candidates directly.
    pub menu_complete: bool,
    /// History search ignores case.
    pub search_ignore_case: bool,
    /// Ask before listing this many candidates; 0 never asks.
    pub query_items: usize,
    /// What follows a unique, fully inserted completion.
    pub append_character: Option<char>,
    /// Prefix the prompt with a mode string.
    pub show_mode: bool,
    /// How many undo steps are kept.
    pub max_undo: usize,
    /// What ringing the bell does.
    pub bell: BellStyle,
}

/// readline's defaults.
pub open spec fn default_config() -> EditorConfig {
    EditorConfig {
        completion_ignore_case: false,
        show_all_if_ambiguous: false,
        menu_complete: false,
        search_ignore_case: false,
        query_items: 100,
        append_character: Some(' '),
        show_mode: false,
        max_undo: 200,
        bell: BellStyle::Audible,
    }
}

impl Default for EditorConfig {
    /// readline's defaults.
    fn default() -> (r: EditorConfig)
        ensures
            r == default_config(),
    {
        EditorConfig {
            completion_ignore_case: false,
            show_all_if_ambiguous: false,
            menu_complete: false,
            search_ignore_case: false,
            query_items: 100,
            append_character: Some(' '),
            show_mode: false,
            max_undo: 200,
            bell: BellStyle::Audible,
        }
    }
}

/// Incremental search, as a mathematical value.
pub ghost struct Search {
    pub query: Seq<char>,
    pub hit: Option<int>,
    pub forward: bool,
    pub failed: bool,
}

/// C-r / C-s incremental search.
#[derive(Debug)]
pub struct SearchState {
    /// What has been typed.
    pub query: Vec<char>,
    /// Index into history of the current match, if any.
    pub hit: Option<usize>,
    /// Search direction: C-r steps older, C-s newer.
    pub forward: bool,
    /// The query matches nothing further; the last match is kept.
    pub failed: bool,
}

impl View for SearchState {
    type V = Search;

    open spec fn view(&self) -> Search {
        Search {
            query: self.query@,
            hit: as_index(self.hit),
            forward: self.forward,
            failed: self.failed,
        }
    }
}

/// Candidate cycling, as a mathematical value.
pub ghost struct Menu {
    pub start: int,
    pub inserted: int,
    pub index: Option<int>,
    pub candidates: Seq<Choice>,
}

/// Repeated-Tab candidate cycling (zsh `AUTO_MENU`): the word span being
/// replaced and the candidates to replace it with.
#[derive(Debug)]
pub struct MenuState {
    /// Where the completed word starts.
    pub start: usize,
    /// Length of the text of it that is in the buffer.
    pub inserted: usize,
    /// Candidate currently inserted; `None` until the first cycle.
    pub index: Option<usize>,
    /// The candidates.
    pub candidates: Vec<Candidate>,
}

impl View for MenuState {
    type V = Menu;

    open spec fn view(&self) -> Menu {
        Menu {
            start: self.start as int,
            inserted: self.inserted as int,
            index: as_index(self.index),
            candidates: choices(self.candidates@),
        }
    }
}

/// A span and the entry it came from.
pub open spec fn as_span(s: Option<(usize, usize, usize)>) -> Option<(int, int, int)> {
    match s {
        Some((a, b, c)) => Some((a as int, b as int, c as int)),
        None => None,
    }
}

/// Optional incremental search.
pub open spec fn as_search(s: Option<SearchState>) -> Option<Search> {
    match s {
        Some(s) => Some(s@),
        None => None,
    }
}

/// Optional candidate cycling.
pub open spec fn as_menu(m: Option<MenuState>) -> Option<Menu> {
    match m {
        Some(m) => Some(m@),
        None => None,
    }
}

/// The undo stack: buffers with their cursors.
#[verifier::opaque]
pub open spec fn as_undo(v: Seq<(Vec<char>, usize)>) -> Seq<(Seq<char>, int)> {
    Seq::new(v.len(), |i: int| (v[i].0@, v[i].1 as int))
}

/// The edits to recalled entries: history indices with texts.
#[verifier::opaque]
pub open spec fn as_edits(v: Seq<(usize, Vec<char>)>) -> Seq<(int, Seq<char>)> {
    Seq::new(v.len(), |i: int| (v[i].0 as int, v[i].1@))
}

/// The state of one line, as a mathematical value.
pub ghost struct Line {
    pub buffer: Seq<char>,
    pub cursor: int,
    pub head: Seq<char>,
    pub prompt: Seq<char>,
    pub rprompt: Seq<char>,
    pub cols: int,
    pub fresh: bool,
    pub painted_rows: int,
    pub painted_cursor_row: int,
    pub hist_index: Option<int>,
    pub draft: Seq<char>,
    pub edits: Seq<(int, Seq<char>)>,
    pub prefix: Seq<char>,
    pub anchored: bool,
    pub vi: bool,
    pub vi_normal: bool,
    pub vi_count: int,
    pub vi_op: Option<char>,
    pub vi_find: Option<char>,
    pub vi_object: Option<char>,
    pub vi_replace: bool,
    pub last_find: Option<(char, char)>,
    pub search: Option<Search>,
    pub undo: Seq<(Seq<char>, int)>,
    pub run: int,
    pub prev_action: Action,
    pub this_action: Action,
    pub yank: Option<(int, int, int)>,
    pub lastarg: Option<(int, int, int)>,
    pub menu: Option<Menu>,
    pub listing: Option<Menu>,
    pub pending: Pending,
    pub next: Option<int>,
    pub cfg: EditorConfig,
    pub flash: bool,
    pub out: Seq<char>,
}

/// The state of one line being edited.
#[derive(Debug)]
pub struct LineState {
    /// The text.
    pub buffer: Vec<char>,
    /// Where the cursor is: an index into the buffer.
    pub cursor: usize,
    /// The prompt's lines before its last, painted once per edit region.
    pub head: Vec<char>,
    /// The prompt's last line, painted with the buffer.
    pub prompt: Vec<char>,
    /// The right-side prompt.
    pub rprompt: Vec<char>,
    /// The terminal's width.
    pub cols: usize,
    /// The edit region has not been painted yet.
    pub fresh: bool,
    /// Rows the previous paint occupied.
    pub painted_rows: usize,
    /// Which of them the cursor was left on.
    pub painted_cursor_row: usize,
    /// The history entry being shown; `None` for the live line.
    pub hist_index: Option<usize>,
    /// The live line, stashed when navigation left it.
    pub draft: Vec<char>,
    /// Edits to recalled entries, newest last.
    pub edits: Vec<(usize, Vec<char>)>,
    /// What prefix search looks for.
    pub prefix: Vec<char>,
    /// The prefix stays: the previous key was a prefix search.
    pub anchored: bool,
    /// vi keymap.
    pub vi: bool,
    /// vi normal mode.
    pub vi_normal: bool,
    /// The accumulated count.
    pub vi_count: usize,
    /// A pending `d`, `c` or `y`.
    pub vi_op: Option<char>,
    /// A pending `f`, `F`, `t` or `T`.
    pub vi_find: Option<char>,
    /// A pending `i` or `a` of a text object.
    pub vi_object: Option<char>,
    /// A pending `r`.
    pub vi_replace: bool,
    /// The find that `;` and `,` repeat.
    pub last_find: Option<(char, char)>,
    /// Incremental search, when active.
    pub search: Option<SearchState>,
    /// Snapshots taken before mutations.
    pub undo: Vec<(Vec<char>, usize)>,
    /// Characters in the newest undo group.
    pub run: usize,
    /// What the previous key did.
    pub prev_action: Action,
    /// What this key does.
    pub this_action: Action,
    /// The last yank's span and ring index.
    pub yank: Option<(usize, usize, usize)>,
    /// The last M-. insertion: history index and span.
    pub lastarg: Option<(usize, usize, usize)>,
    /// Candidate cycling, when armed.
    pub menu: Option<MenuState>,
    /// Candidates whose listing was asked about.
    pub listing: Option<MenuState>,
    /// What the next key is wanted for.
    pub pending: Pending,
    /// The history entry to pre-load the next line with.
    pub next: Option<usize>,
    /// The readline variables.
    pub cfg: EditorConfig,
    /// The screen is in reverse video, until the flash ends.
    pub flash: bool,
    /// What is to be written to the terminal.
    pub out: Vec<char>,
}

impl View for LineState {
    type V = Line;

    open spec fn view(&self) -> Line {
        Line {
            buffer: self.buffer@,
            cursor: self.cursor as int,
            head: self.head@,
            prompt: self.prompt@,
            rprompt: self.rprompt@,
            cols: self.cols as int,
            fresh: self.fresh,
            painted_rows: self.painted_rows as int,
            painted_cursor_row: self.painted_cursor_row as int,
            hist_index: as_index(self.hist_index),
            draft: self.draft@,
            edits: as_edits(self.edits@),
            prefix: self.prefix@,
            anchored: self.anchored,
            vi: self.vi,
            vi_normal: self.vi_normal,
            vi_count: self.vi_count as int,
            vi_op: self.vi_op,
            vi_find: self.vi_find,
            vi_object: self.vi_object,
            vi_replace: self.vi_replace,
            last_find: self.last_find,
            search: as_search(self.search),
            undo: as_undo(self.undo@),
            run: self.run as int,
            prev_action: self.prev_action,
            this_action: self.this_action,
            yank: as_span(self.yank),
            lastarg: as_span(self.lastarg),
            menu: as_menu(self.menu),
            listing: as_menu(self.listing),
            pending: self.pending,
            next: as_index(self.next),
            cfg: self.cfg,
            flash: self.flash,
            out: self.out@,
        }
    }
}

/// A line with some text and the cursor somewhere in it.
pub open spec fn fresh_line(buffer: Seq<char>, cursor: int) -> Line {
    Line {
        buffer,
        cursor,
        head: Seq::empty(),
        prompt: Seq::empty(),
        rprompt: Seq::empty(),
        cols: 80,
        fresh: true,
        painted_rows: 1,
        painted_cursor_row: 0,
        hist_index: None,
        draft: Seq::empty(),
        edits: Seq::empty(),
        prefix: Seq::empty(),
        anchored: false,
        vi: false,
        vi_normal: false,
        vi_count: 0,
        vi_op: None,
        vi_find: None,
        vi_object: None,
        vi_replace: false,
        last_find: None,
        search: None,
        undo: Seq::empty(),
        run: 0,
        prev_action: Action::Other,
        this_action: Action::Other,
        yank: None,
        lastarg: None,
        menu: None,
        listing: None,
        pending: Pending::Nothing,
        next: None,
        cfg: default_config(),
        flash: false,
        out: Seq::empty(),
    }
}

impl Line {
    /// The cursor is in the buffer (or at its end).
    pub open spec fn inside(self) -> bool {
        0 <= self.cursor <= self.buffer.len()
    }

    /// What holds of every line: the cursor is in the buffer, and the history
    /// entries it refers to exist.
    pub open spec fn wf(self, history: Seq<Seq<char>>) -> bool {
        &&& self.inside()
        &&& self.hist_index matches Some(i) ==> 0 <= i < history.len()
        &&& self.search matches Some(s) ==> (s.hit matches Some(i) ==> 0 <= i < history.len())
    }

    /// Still inside its buffer, at the same place in the history.
    pub open spec fn keeps(self, was: Line) -> bool {
        &&& self.hist_index == was.hist_index
        &&& self.search == was.search
        &&& was.inside() ==> self.inside()
    }

    /// With `a..b` replaced by `text`, and the cursor behind it.
    pub open spec fn put(self, a: int, b: int, text: Seq<char>) -> Line {
        Line { buffer: spliced(self.buffer, a, b, text), cursor: a + text.len(), ..self }
    }

    /// With text to write to the terminal.
    pub open spec fn say(self, text: Seq<char>) -> Line {
        Line { out: self.out + text, ..self }
    }

    /// On a fresh edit region.
    pub open spec fn region(self) -> Line {
        Line { fresh: true, painted_rows: 1, painted_cursor_row: 0, ..self }
    }

    /// With the bell rung.
    #[verifier::opaque]
    pub open spec fn rung(self) -> Line {
        match self.cfg.bell {
            BellStyle::Silent => self,
            BellStyle::Audible => self.say("\x07"@),
            BellStyle::Visible => Line { flash: true, ..self.say("\x1b[?5h"@) },
        }
    }

    /// With the cursor moved below the painted region, onto a new terminal
    /// line.
    #[verifier::opaque]
    pub open spec fn left(self) -> Line {
        let down = self.painted_rows - 1 - self.painted_cursor_row;
        if down > 0 {
            self.say("\x1b["@ + crate::text::decimal(down as nat) + "B\n"@)
        } else {
            self.say("\n"@)
        }
    }
}

impl LineState {
    /// The cursor is in the buffer (or at its end).
    pub open spec fn inside(self) -> bool {
        self.cursor <= self.buffer@.len()
    }

    /// A line with some text and the cursor somewhere in it.
    pub fn with_text(text: &str, cursor: usize) -> (r: LineState)
        requires
            cursor <= text@.len(),
        ensures
            r@ == fresh_line(text@, cursor as int),
            r.inside(),
    {
        reveal(as_undo);
        reveal(as_edits);
        let r = LineState {
            buffer: crate::text::chars_of(text),
            cursor,
            head: Vec::new(),
            prompt: Vec::new(),
            rprompt: Vec::new(),
            cols: 80,
            fresh: true,
            painted_rows: 1,
            painted_cursor_row: 0,
            hist_index: None,
            draft: Vec::new(),
            edits: Vec::new(),
            prefix: Vec::new(),
            anchored: false,
            vi: false,
            vi_normal: false,
            vi_count: 0,
            vi_op: None,
            vi_find: None,
            vi_object: None,
            vi_replace: false,
            last_find: None,
            search: None,
            undo: Vec::new(),
            run: 0,
            prev_action: Action::Other,
            this_action: Action::Other,
            yank: None,
            lastarg: None,
            menu: None,
            listing: None,
            pending: Pending::Nothing,
            next: None,
            cfg: EditorConfig::default(),
            flash: false,
            out: Vec::new(),
        };
        assert(r@.edits =~= Seq::<(int, Seq<char>)>::empty());
        assert(r@.undo =~= Seq::<(Seq<char>, int)>::empty());
        r
    }

    /// The buffer as a string.
    pub fn text(&self) -> (r: String)
        ensures
            r@ == self@.buffer,
    {
        crate::text::string_of(self.buffer.as_slice())
    }

    /// Replace `a..b` by `text`, and put the cursor behind it.
    pub fn put(&mut self, a: usize, b: usize, text: &[char])
        requires
            a <= b <= old(self).buffer@.len(),
        ensures
            final(self)@ == old(self)@.put(a as int, b as int, text@),
            final(self).inside(),
            final(self)@.keeps(old(self)@),
    {
        let behind = self.buffer.len() - b;
        self.buffer = splice(self.buffer.as_slice(), a, b, text);
        self.cursor = self.buffer.len() - behind;
    }

    /// Take what is to be written to the terminal.
    pub fn take_output(&mut self) -> (r: String)
        ensures
            r@ == old(self)@.out,
            final(self)@ == (Line { out: Seq::empty(), ..old(self)@ }),
    {
        let r = crate::text::string_of(self.out.as_slice());
        self.out = Vec::new();
        r
    }

    /// Write some text to the terminal.
    pub fn say(&mut self, text: &str)
        ensures
            final(self)@ == old(self)@.say(text@),
            final(self).inside() == old(self).inside(),
            final(self)@.keeps(old(self)@),
    {
        push_str(&mut self.out, text);
    }

    /// Start a fresh edit region.
    pub fn new_region(&mut self)
        ensures
            final(self)@ == old(self)@.region(),
            final(self).inside() == old(self).inside(),
            final(self)@.keeps(old(self)@),
    {
        self.fresh = true;
        self.painted_rows = 1;
        self.painted_cursor_row = 0;
    }

    /// Ring the terminal bell per the configured style.
    pub fn bell(&mut self)
        ensures
            final(self)@ == old(self)@.rung(),
            final(self).inside() == old(self).inside(),
            final(self)@.keeps(old(self)@),
    {
        reveal(Line::rung);
        match self.cfg.bell {
            BellStyle::Silent => {},
            BellStyle::Audible => {
                self.say("\x07");
            },
            BellStyle::Visible => {
                self.say("\x1b[?5h");
                self.flash = true;
            },
        }
    }

    /// End the reverse-video flash of a visible bell.
    pub fn end_flash(&mut self)
        ensures
            final(self)@ == (if old(self)@.flash {
                Line { flash: false, ..old(self)@.say("\x1b[?5l"@) }
            } else {
                old(self)@
            }),
            final(self).inside() == old(self).inside(),
            final(self)@.keeps(old(self)@),
    {
        if self.flash {
            self.say("\x1b[?5l");
            self.flash = false;
        }
    }

    /// Move to the end of the painted region and start a fresh terminal line,
    /// so whatever runs next begins below the edit region.
    pub fn finish_line(&mut self)
        ensures
            final(self)@ == old(self)@.left(),
            final(self).inside() == old(self).inside(),
            final(self)@.keeps(old(self)@),
    {
        reveal(Line::left);
        if self.painted_rows > 1 && self.painted_rows - 1 > self.painted_cursor_row {
            let down = self.painted_rows - 1 - self.painted_cursor_row;
            let ghost before = self.out@;
            push_str(&mut self.out, "\x1b[");
            push_decimal(&mut self.out, down as u64);
            push_str(&mut self.out, "B\n");
            assert(self.out@ =~= before + ("\x1b["@ + crate::text::decimal(down as nat)
                + "B\n"@));
        } else {
            self.say("\n");
        }
    }

    /// C-l: clear the screen; the next paint starts at the top.
    pub fn clear_screen(&mut self)
        ensures
            final(self)@ == old(self)@.say("\x1b[2J\x1b[H"@).region(),
            final(self).inside() == old(self).inside(),
            final(self)@.keeps(old(self)@),
    {
        self.say("\x1b[2J\x1b[H");
        self.new_region();
    }
}

} // verus!
