//! Incremental history search (bash's `(reverse-i-search)`): C-r steps to
//! older matches, C-s to newer ones.
use vstd::prelude::*;

use crate::keys::Key;
use crate::line::{as_search, Line, LineState, Search, SearchState};
use crate::recall::stash;
use crate::text::{
    chars_of, find_sub, first_occurrence, occurs, occurs_at, push_chars, same, texts,
};

verus! {

/// How a key left incremental search.
#[derive(Debug, Clone, Copy, PartialEq, Eq, Structural)]
pub enum SearchOutcome {
    /// Still searching.
    Continue,
    /// The line was accepted.
    Accept,
    /// Back to editing.
    Exit,
    /// The whole read was abandoned.
    Interrupted,
}

/// Most recent history entry (strictly before `below`) containing `query`.
#[verifier::opaque]
pub open spec fn match_before(
    history: Seq<Seq<char>>,
    query: Seq<char>,
    below: int,
    ignore_case: bool,
) -> Option<int>
    decreases below,
{
    if query.len() == 0 || below <= 0 || below > history.len() {
        None
    } else if occurs(history[below - 1], query, ignore_case) {
        Some(below - 1)
    } else {
        match_before(history, query, below - 1, ignore_case)
    }
}

/// Earliest history entry at or after `from` containing `query`.
pub open spec fn match_from(
    history: Seq<Seq<char>>,
    query: Seq<char>,
    from: int,
    ignore_case: bool,
) -> Option<int>
    decreases history.len() - from,
{
    if query.len() == 0 || from < 0 || from >= history.len() {
        None
    } else if occurs(history[from], query, ignore_case) {
        Some(from)
    } else {
        match_from(history, query, from + 1, ignore_case)
    }
}

/// Most recent history entry (strictly before `below`) containing `query`.
pub fn find_match(history: &[String], query: &[char], below: usize, ignore_case: bool) -> (r: Option<
    usize,
>)
    requires
        below <= history@.len(),
    ensures
        crate::text::as_index(r) == match_before(
            texts(history@),
            query@,
            below as int,
            ignore_case,
        ),
        r matches Some(i) ==> i < below,
{
    reveal(match_before);
    if query.len() == 0 {
        return None;
    }
    let ghost all = texts(history@);
    let mut i: usize = below;
    while i > 0
        invariant
            i <= below <= history@.len(),
            query@.len() > 0,
            all == texts(history@),
            match_before(all, query@, below as int, ignore_case) == match_before(
                all,
                query@,
                i as int,
                ignore_case,
            ),
        decreases i,
    {
        reveal(match_before);
        let entry = chars_of(history[i - 1].as_str());
        assert(entry@ == all[i - 1]);
        if find_sub(entry.as_slice(), query, ignore_case).is_some() {
            return Some(i - 1);
        }
        i -= 1;
    }
    None
}

/// Earliest history entry at or after `from` containing `query`.
pub fn find_match_fwd(history: &[String], query: &[char], from: usize, ignore_case: bool) -> (r:
    Option<usize>)
    ensures
        crate::text::as_index(r) == match_from(texts(history@), query@, from as int, ignore_case),
        r matches Some(i) ==> from <= i < history@.len(),
{
    if query.len() == 0 {
        return None;
    }
    let ghost all = texts(history@);
    let mut i: usize = from;
    while i < history.len()
        invariant
            from <= i,
            query@.len() > 0,
            all == texts(history@),
            match_from(all, query@, from as int, ignore_case) == match_from(
                all,
                query@,
                i as int,
                ignore_case,
            ),
        decreases history@.len() - i,
    {
        let entry = chars_of(history[i].as_str());
        assert(entry@ == all[i as int]);
        if find_sub(entry.as_slice(), query, ignore_case).is_some() {
            return Some(i);
        }
        i += 1;
    }
    None
}

/// Where the cursor goes in a found text: on the match, or to the end when
/// there is none.
pub open spec fn place_of(s: Seq<char>, query: Seq<char>, ignore_case: bool) -> int {
    if query.len() > 0 && occurs(s, query, ignore_case) {
        choose|i: int| first_occurrence(s, query, i, ignore_case)
    } else {
        s.len() as int
    }
}

/// The pasted text as a query takes it: on one line.
pub open spec fn flattened(text: Seq<char>) -> Seq<char> {
    Seq::new(
        text.len(),
        |i: int|
            if text[i] == '\n' {
                ' '
            } else {
                text[i]
            },
    )
}

impl Line {
    /// Searching, from the current history position after an unedited recall.
    #[verifier::opaque]
    pub open spec fn searching(self, forward: bool, history: Seq<Seq<char>>) -> Line {
        let seed = match self.hist_index {
            Some(i) => if self.buffer == history[i] {
                Some(i)
            } else {
                None
            },
            None => None,
        };
        Line {
            search: Some(Search { query: Seq::empty(), hit: seed, forward, failed: false }),
            ..self
        }
    }

    /// With the outcome of looking for a query; a miss keeps the last match
    /// and rings the bell.
    #[verifier::opaque]
    pub open spec fn sought(self, s: Search, found: Option<int>) -> Line {
        match found {
            Some(i) => Line { search: Some(Search { hit: Some(i), failed: false, ..s }), ..self },
            None => if s.query.len() == 0 {
                Line { search: Some(Search { failed: false, ..s }), ..self }
            } else {
                Line { search: Some(Search { failed: true, ..s }), ..self }.rung()
            },
        }
    }

    /// With the search over, and what it found in the buffer, the cursor on
    /// the match. The found entry is the history position from here on.
    #[verifier::opaque]
    pub open spec fn landed(self, history: Seq<Seq<char>>) -> Line {
        match self.search {
            Some(s) => match s.hit {
                Some(i) => Line {
                    search: None,
                    hist_index: Some(i),
                    buffer: history[i],
                    cursor: place_of(history[i], s.query, self.cfg.search_ignore_case),
                    ..self.stashed(history)
                },
                None => Line { search: None, ..self },
            },
            None => self,
        }
    }

    /// With more typed into the query: the match at or before the current one.
    #[verifier::opaque]
    pub open spec fn narrowed(self, more: Seq<char>, history: Seq<Seq<char>>) -> Line {
        match self.search {
            Some(s) => {
                let query = s.query + more;
                let below = match s.hit {
                    Some(i) => i + 1,
                    None => history.len() as int,
                };
                self.sought(
                    Search { query, ..s },
                    match_before(history, query, below, self.cfg.search_ignore_case),
                )
            },
            None => self,
        }
    }

    /// What a key does while searching.
    #[verifier::opaque]
    pub open spec fn search_key(self, key: Key, history: Seq<Seq<char>>) -> (Line, SearchOutcome) {
        match self.search {
            None => (self, SearchOutcome::Exit),
            Some(s) => {
                let ignore_case = self.cfg.search_ignore_case;
                if key == Key::Enter {
                    (self.landed(history), SearchOutcome::Accept)
                } else if key == Key::Ctrl('g') {
                    (Line { search: None, ..self }.rung(), SearchOutcome::Exit)
                } else if key == Key::Esc {
                    (Line { search: None, ..self }, SearchOutcome::Exit)
                } else if key == Key::Ctrl('c') {
                    (Line { search: None, ..self }, SearchOutcome::Interrupted)
                } else if key == Key::Ctrl('r') {
                    let below = match s.hit {
                        Some(i) => i,
                        None => history.len() as int,
                    };
                    (
                        self.sought(
                            Search { forward: false, ..s },
                            match_before(history, s.query, below, ignore_case),
                        ),
                        SearchOutcome::Continue,
                    )
                } else if key == Key::Ctrl('s') {
                    let from = match s.hit {
                        Some(i) => i + 1,
                        None => 0,
                    };
                    (
                        self.sought(
                            Search { forward: true, ..s },
                            match_from(history, s.query, from, ignore_case),
                        ),
                        SearchOutcome::Continue,
                    )
                } else if key == Key::Backspace {
                    let query = if s.query.len() > 0 {
                        s.query.drop_last()
                    } else {
                        s.query
                    };
                    let shorter = Search {
                        query,
                        hit: if query.len() == 0 {
                            None
                        } else {
                            s.hit
                        },
                        ..s
                    };
                    (
                        self.sought(
                            shorter,
                            match_before(history, query, history.len() as int, ignore_case),
                        ),
                        SearchOutcome::Continue,
                    )
                } else if let Key::Char(c) = key {
                    (self.narrowed(seq![c], history), SearchOutcome::Continue)
                } else {
                    (self.landed(history), SearchOutcome::Exit)
                }
            },
        }
    }
}

/// Enter C-r / C-s incremental search.
pub fn start_search(st: &mut LineState, forward: bool, history: &[String])
    requires
        old(st)@.wf(texts(history@)),
    ensures
        final(st)@ == old(st)@.searching(forward, texts(history@)),
        final(st)@.wf(texts(history@)),
{
    reveal(Line::searching);
    let seed = match st.hist_index {
        Some(i) => {
            let entry = chars_of(history[i].as_str());
            assert(entry@ == texts(history@)[i as int]);
            if same(entry.as_slice(), st.buffer.as_slice()) {
                Some(i)
            } else {
                None
            }
        },
        None => None,
    };
    st.search = Some(SearchState { query: Vec::new(), hit: seed, forward, failed: false });
}

fn take_search(st: &mut LineState) -> (r: Option<SearchState>)
    ensures
        as_search(r) == old(st)@.search,
        final(st)@ == (Line { search: None, ..old(st)@ }),
{
    let mut r: Option<SearchState> = None;
    std::mem::swap(&mut r, &mut st.search);
    r
}

/// What a search comes to does not depend on the search before.
proof fn sought_whatever_it_sought(line: Line)
    ensures
        forall|s: Search, found: Option<int>|
            (Line { search: None, ..line }).sought(s, found) == #[trigger] line.sought(s, found),
{
    reveal(Line::sought);
    reveal(Line::rung);
}

fn settle(st: &mut LineState, s: SearchState, found: Option<usize>)
    ensures
        final(st)@ == old(st)@.sought(s@, crate::text::as_index(found)),
        final(st)@.hist_index == old(st)@.hist_index,
        old(st)@.inside() ==> final(st)@.inside(),
        final(st)@.search matches Some(t) && t.hit == (if found is Some {
            crate::text::as_index(found)
        } else {
            s@.hit
        }),
{
    reveal(Line::sought);
    let mut s = s;
    match found {
        Some(i) => {
            s.hit = Some(i);
            s.failed = false;
            st.search = Some(s);
        },
        None => if s.query.len() == 0 {
            s.failed = false;
            st.search = Some(s);
        } else {
            s.failed = true;
            st.search = Some(s);
            st.bell();
        },
    }
}

fn seek_before(st: &mut LineState, s: SearchState, history: &[String], below: usize)
    requires
        old(st)@.wf(texts(history@)),
        below <= history@.len(),
        s@.hit matches Some(i) ==> i < history@.len(),
    ensures
        final(st)@ == old(st)@.sought(
            s@,
            match_before(
                texts(history@),
                s@.query,
                below as int,
                old(st)@.cfg.search_ignore_case,
            ),
        ),
        final(st)@.wf(texts(history@)),
{
    let found = find_match(history, s.query.as_slice(), below, st.cfg.search_ignore_case);
    settle(st, s, found);
}

fn place_in(entry: &[char], query: &[char], ignore_case: bool) -> (r: usize)
    ensures
        r == place_of(entry@, query@, ignore_case),
        r <= entry@.len(),
{
    if query.len() == 0 {
        return entry.len();
    }
    match find_sub(entry, query, ignore_case) {
        Some(k) => {
            proof {
                let other = choose|j: int| first_occurrence(entry@, query@, j, ignore_case);
                assert(first_occurrence(entry@, query@, k as int, ignore_case));
                assert(first_occurrence(entry@, query@, other, ignore_case));
            }
            k
        },
        None => entry.len(),
    }
}

/// Leave the search with what it found in the buffer.
pub fn land(st: &mut LineState, history: &[String])
    requires
        old(st)@.wf(texts(history@)),
    ensures
        final(st)@ == old(st)@.landed(texts(history@)),
        final(st)@.wf(texts(history@)),
{
    reveal(Line::landed);
    match st.search {
        Some(SearchState { hit: Some(i), .. }) => {
            stash(st, history);
            match take_search(st) {
                Some(s) => {
                    let entry = chars_of(history[i].as_str());
                    assert(entry@ == texts(history@)[i as int]);
                    st.hist_index = Some(i);
                    st.cursor = place_in(
                        entry.as_slice(),
                        s.query.as_slice(),
                        st.cfg.search_ignore_case,
                    );
                    st.buffer = entry;
                },
                None => {},
            }
        },
        _ => {
            st.search = None;
        },
    }
}

/// Type into the query.
pub fn narrow(st: &mut LineState, more: &[char], history: &[String])
    requires
        old(st)@.wf(texts(history@)),
    ensures
        final(st)@ == old(st)@.narrowed(more@, texts(history@)),
        final(st)@.wf(texts(history@)),
{
    reveal(Line::narrowed);
    let ghost line = st@;
    let n = history.len();
    match take_search(st) {
        Some(s) => {
            proof {
                sought_whatever_it_sought(line);
            }
            let below = match s.hit {
                Some(i) => i + 1,
                None => n,
            };
            let mut query = s.query;
            push_chars(&mut query, more);
            let longer = SearchState { query, hit: s.hit, forward: s.forward, failed: s.failed };
            seek_before(st, longer, history, below);
        },
        None => {},
    }
}

/// C-r while searching: the next older match.
pub fn step_older(st: &mut LineState, history: &[String])
    requires
        old(st)@.wf(texts(history@)),
    ensures
        final(st)@ == old(st)@.search_key(Key::Ctrl('r'), texts(history@)).0,
        final(st)@.wf(texts(history@)),
{
    reveal(Line::search_key);
    let ghost line = st@;
    match take_search(st) {
        Some(s) => {
            proof {
                sought_whatever_it_sought(line);
            }
            let mut s = s;
            s.forward = false;
            let below = match s.hit {
                Some(i) => i,
                None => history.len(),
            };
            seek_before(st, s, history, below);
        },
        None => {},
    }
}

/// C-s while searching: the next newer match.
pub fn step_newer(st: &mut LineState, history: &[String])
    requires
        old(st)@.wf(texts(history@)),
    ensures
        final(st)@ == old(st)@.search_key(Key::Ctrl('s'), texts(history@)).0,
        final(st)@.wf(texts(history@)),
{
    reveal(Line::search_key);
    let ghost line = st@;
    let n = history.len();
    match take_search(st) {
        Some(s) => {
            proof {
                sought_whatever_it_sought(line);
            }
            let mut s = s;
            s.forward = true;
            let from = match s.hit {
                Some(i) => if i < n {
                    i + 1
                } else {
                    n
                },
                None => 0,
            };
            let found = find_match_fwd(
                history,
                s.query.as_slice(),
                from,
                st.cfg.search_ignore_case,
            );
            settle(st, s, found);
        },
        None => {},
    }
}

/// Backspace while searching: take back the query's last character, and search
/// from the newest entry again.
pub fn shorten(st: &mut LineState, history: &[String])
    requires
        old(st)@.wf(texts(history@)),
    ensures
        final(st)@ == old(st)@.search_key(Key::Backspace, texts(history@)).0,
        final(st)@.wf(texts(history@)),
{
    reveal(Line::search_key);
    let ghost line = st@;
    match take_search(st) {
        Some(s) => {
            proof {
                sought_whatever_it_sought(line);
            }
            let mut s = s;
            let ghost before = s.query@;
            s.query.pop();
            assert(before.len() > 0 ==> s.query@ =~= before.drop_last());
            if s.query.len() == 0 {
                s.hit = None;
            }
            seek_before(st, s, history, history.len());
        },
        None => {},
    }
}

/// A paste while searching types into the query, newlines as spaces.
pub fn search_paste(st: &mut LineState, text: &[char], history: &[String])
    requires
        old(st)@.wf(texts(history@)),
    ensures
        final(st)@ == old(st)@.narrowed(flattened(text@), texts(history@)),
        final(st)@.wf(texts(history@)),
{
    let mut flat: Vec<char> = Vec::new();
    let mut i: usize = 0;
    while i < text.len()
        invariant
            i <= text@.len(),
            flat@ == flattened(text@.take(i as int)),
        decreases text@.len() - i,
    {
        let c = if text[i] == '\n' {
            ' '
        } else {
            text[i]
        };
        flat.push(c);
        i += 1;
        assert(flat@ =~= flattened(text@.take(i as int)));
    }
    assert(text@.take(i as int) =~= text@);
    narrow(st, flat.as_slice(), history);
}

/// A key while searching.
pub fn handle_search_key(st: &mut LineState, key: Key, history: &[String]) -> (r: SearchOutcome)
    requires
        old(st)@.wf(texts(history@)),
    ensures
        (final(st)@, r) == old(st)@.search_key(key, texts(history@)),
        final(st)@.wf(texts(history@)),
{
    reveal(Line::search_key);
    if st.search.is_none() {
        return SearchOutcome::Exit;
    }
    match key {
        Key::Enter => {
            land(st, history);
            SearchOutcome::Accept
        },
        Key::Ctrl('g') => {
            st.search = None;
            st.bell();
            SearchOutcome::Exit
        },
        Key::Esc => {
            st.search = None;
            SearchOutcome::Exit
        },
        Key::Ctrl('c') => {
            st.search = None;
            SearchOutcome::Interrupted
        },
        Key::Ctrl('r') => {
            step_older(st, history);
            SearchOutcome::Continue
        },
        Key::Ctrl('s') => {
            step_newer(st, history);
            SearchOutcome::Continue
        },
        Key::Backspace => {
            shorten(st, history);
            SearchOutcome::Continue
        },
        Key::Char(c) => {
            let mut more: Vec<char> = Vec::new();
            more.push(c);
            assert(more@ =~= seq![c]);
            narrow(st, more.as_slice(), history);
            SearchOutcome::Continue
        },
        _ => {
            land(st, history);
            SearchOutcome::Exit
        },
    }
}

/// A backward search finds the newest entry in range that holds the query, and
/// misses only when none does.
pub proof fn match_before_is_newest(
    history: Seq<Seq<char>>,
    query: Seq<char>,
    below: int,
    ignore_case: bool,
)
    requires
        query.len() > 0,
        0 <= below <= history.len(),
    ensures
        match match_before(history, query, below, ignore_case) {
            Some(i) => 0 <= i < below && occurs(history[i], query, ignore_case) && (forall|k: int|
                i < k < below ==> !occurs(#[trigger] history[k], query, ignore_case)),
            None => forall|k: int|
                0 <= k < below ==> !occurs(#[trigger] history[k], query, ignore_case),
        },
    decreases below,
{
    reveal(match_before);
    if below > 0 && !occurs(history[below - 1], query, ignore_case) {
        match_before_is_newest(history, query, below - 1, ignore_case);
    }
}

/// A forward search finds the oldest entry in range that holds the query, and
/// misses only when none does.
pub proof fn match_from_is_oldest(
    history: Seq<Seq<char>>,
    query: Seq<char>,
    from: int,
    ignore_case: bool,
)
    requires
        query.len() > 0,
        0 <= from <= history.len(),
    ensures
        match match_from(history, query, from, ignore_case) {
            Some(i) => from <= i < history.len() && occurs(history[i], query, ignore_case) && (
            forall|k: int| from <= k < i ==> !occurs(#[trigger] history[k], query, ignore_case)),
            None => forall|k: int|
                from <= k < history.len() ==> !occurs(#[trigger] history[k], query, ignore_case),
        },
    decreases history.len() - from,
{
    if from < history.len() && !occurs(history[from], query, ignore_case) {
        match_from_is_oldest(history, query, from + 1, ignore_case);
    }
}

/// Leaving a search that was entered after an unedited recall, without typing
/// anything, changes no text; entered from an edited line, neither.
pub proof fn empty_search_keeps_the_text(line: Line, forward: bool, history: Seq<Seq<char>>)
    requires
        line.wf(history),
    ensures
        line.searching(forward, history).landed(history).buffer == line.buffer,
{
    reveal(Line::searching);
    reveal(Line::landed);
}

/// What a search found is the line from then on: the found entry is the history
/// position, its text the buffer, and the cursor stands on the match.
pub proof fn the_found_entry_is_the_line(line: Line, history: Seq<Seq<char>>)
    requires
        line.search matches Some(s) && s.hit is Some && s.query.len() > 0 && occurs(
            history[s.hit->0],
            s.query,
            line.cfg.search_ignore_case,
        ),
    ensures
        ({
            let s = line.search->0;
            let l = line.landed(history);
            &&& l.search is None
            &&& l.hist_index == s.hit
            &&& l.buffer == history[s.hit->0]
            &&& first_occurrence(l.buffer, s.query, l.cursor, line.cfg.search_ignore_case)
        }),
{
    reveal(Line::landed);
    let s = line.search->0;
    first_occurrence_exists(history[s.hit->0], s.query, line.cfg.search_ignore_case);
}

proof fn first_occurrence_exists(t: Seq<char>, q: Seq<char>, ignore_case: bool)
    requires
        occurs(t, q, ignore_case),
    ensures
        exists|i: int| first_occurrence(t, q, i, ignore_case),
{
    reveal(occurs);
    let i = choose|i: int| occurs_at(t, q, i, ignore_case);
    first_occurrence_up_to(t, q, i, ignore_case);
}

proof fn first_occurrence_up_to(t: Seq<char>, q: Seq<char>, n: int, ignore_case: bool)
    requires
        occurs_at(t, q, n, ignore_case),
    ensures
        exists|i: int| first_occurrence(t, q, i, ignore_case),
    decreases n,
{
    if exists|k: int| 0 <= k < n && occurs_at(t, q, k, ignore_case) {
        let k = choose|k: int| 0 <= k < n && occurs_at(t, q, k, ignore_case);
        first_occurrence_up_to(t, q, k, ignore_case);
    } else {
        assert(first_occurrence(t, q, n, ignore_case));
    }
}

/// Abandoning a search leaves the line as it was when the search began.
pub proof fn an_abandoned_search_keeps_the_line(line: Line, key: Key, history: Seq<Seq<char>>)
    requires
        line.search is Some,
        key == Key::Esc || key == Key::Ctrl('g'),
    ensures
        ({
            let (l, outcome) = line.search_key(key, history);
            &&& outcome == SearchOutcome::Exit
            &&& l.search is None
            &&& l.buffer == line.buffer
            &&& l.cursor == line.cursor
            &&& l.hist_index == line.hist_index
        }),
{
    reveal(Line::search_key);
    reveal(Line::rung);
}

} // verus!
