//! Incremental search.
use vstd::prelude::*;

use crate::act::{AfterKey, Answer};
use crate::actions::EditorAction;
use crate::decoder::Event;
use crate::keys::Key;
use crate::laws::{
    holding_is_occurring, holding_more_holds_less, holds, is_quiet, rang, ringing_rings, starts,
    starts_is_occurring, stays,
};
use crate::line::{Line, Search};
use crate::ring::Ring;
use crate::search::{
    match_before, match_before_is_newest, match_from, match_from_is_oldest,
    the_found_entry_is_the_line, SearchOutcome,
};
use crate::step::Bound;

verus! {

/// `j` is the newest of the first `below` entries that hold the query.
pub open spec fn newest_holding(
    history: Seq<Seq<char>>,
    query: Seq<char>,
    below: int,
    caseless: bool,
    j: int,
) -> bool {
    &&& 0 <= j < below
    &&& holds(history[j], query, caseless)
    &&& forall|k: int| j < k < below ==> !holds(#[trigger] history[k], query, caseless)
}

/// One of the entries `from..to` holds the query.
pub open spec fn one_holds(
    history: Seq<Seq<char>>,
    query: Seq<char>,
    from: int,
    to: int,
    caseless: bool,
) -> bool {
    exists|k: int| from <= k < to && holds(#[trigger] history[k], query, caseless)
}

proof fn newest_is_found(history: Seq<Seq<char>>, query: Seq<char>, below: int, caseless: bool)
    requires
        query.len() > 0,
        0 <= below <= history.len(),
    ensures
        match match_before(history, query, below, caseless) {
            Some(j) => newest_holding(history, query, below, caseless, j) && one_holds(
                history,
                query,
                0,
                below,
                caseless,
            ),
            None => !one_holds(history, query, 0, below, caseless),
        },
{
    match_before_is_newest(history, query, below, caseless);
    assert forall|k: int| 0 <= k < below implies holds(#[trigger] history[k], query, caseless)
        == crate::text::occurs(history[k], query, caseless) by {
        holding_is_occurring(history[k], query, caseless);
    }
}

proof fn oldest_is_found(history: Seq<Seq<char>>, query: Seq<char>, from: int, caseless: bool)
    requires
        query.len() > 0,
        0 <= from <= history.len(),
    ensures
        match match_from(history, query, from, caseless) {
            Some(j) => from <= j < history.len() && holds(history[j], query, caseless) && (forall|
                k: int,
            |
                from <= k < j ==> !holds(#[trigger] history[k], query, caseless)) && one_holds(
                history,
                query,
                from,
                history.len() as int,
                caseless,
            ),
            None => !one_holds(history, query, from, history.len() as int, caseless),
        },
{
    match_from_is_oldest(history, query, from, caseless);
    assert forall|k: int| from <= k < history.len() implies holds(
        #[trigger] history[k],
        query,
        caseless,
    ) == crate::text::occurs(history[k], query, caseless) by {
        holding_is_occurring(history[k], query, caseless);
    }
}

proof fn seeking(line: Line, s: Search, found: Option<int>)
    ensures
        ({
            let l = line.sought(s, found);
            let failed = found is None && s.query.len() > 0;
            &&& stays(line, l)
            &&& l.search == Some(
                Search {
                    hit: if found is Some {
                        found
                    } else {
                        s.hit
                    },
                    failed,
                    ..s
                },
            )
            &&& if failed {
                rang(line, l)
            } else {
                is_quiet(line, l)
            }
            &&& l.cfg == line.cfg
        }),
{
    reveal(Line::sought);
    ringing_rings(Line { search: Some(Search { failed: true, ..s }), ..line });
}

/// C-r and C-s begin a search without touching the line. It starts from the
/// entry that is shown, as long as that is not edited.
pub proof fn a_search_begins_where_the_line_is(
    line: Line,
    ring: Ring,
    key: Key,
    history: Seq<Seq<char>>,
    answer: Answer,
)
    requires
        line.wf(history),
    ensures
        ({
            let back = line.acted(
                ring,
                EditorAction::ReverseSearchHistory,
                key,
                history,
                answer,
            ).0;
            let forth = line.acted(
                ring,
                EditorAction::ForwardSearchHistory,
                key,
                history,
                answer,
            ).0;
            let hit = if line.hist_index is Some && line.buffer == history[line.hist_index->0] {
                line.hist_index
            } else {
                None
            };
            &&& stays(line, back) && is_quiet(line, back)
            &&& stays(line, forth) && is_quiet(line, forth)
            &&& back.search == Some(
                Search { query: Seq::empty(), hit, forward: false, failed: false },
            )
            &&& forth.search == Some(
                Search { query: Seq::empty(), hit, forward: true, failed: false },
            )
        }),
{
    reveal(Line::acted);
    reveal(Line::changed);
    reveal(Line::searching);
}

/// A character typed while searching goes behind the query, and the match is
/// the newest entry, no newer than the match before, that holds it. Without one
/// the match stays, and the bell rings.
pub proof fn typing_narrows_the_search(line: Line, c: char, history: Seq<Seq<char>>)
    requires
        line.wf(history),
        line.search is Some,
    ensures
        ({
            let s = line.search->0;
            let (l, outcome) = line.search_key(Key::Char(c), history);
            let q = s.query.push(c);
            let caseless = line.cfg.search_ignore_case;
            let below = match s.hit {
                Some(i) => i + 1,
                None => history.len() as int,
            };
            &&& outcome == SearchOutcome::Continue
            &&& stays(line, l)
            &&& l.cfg == line.cfg
            &&& l.search matches Some(t) && t.query == q && t.forward == s.forward
            &&& if one_holds(history, q, 0, below, caseless) {
                &&& (l.search->0).hit matches Some(j) && newest_holding(
                    history,
                    q,
                    below,
                    caseless,
                    j,
                )
                &&& !(l.search->0).failed
                &&& is_quiet(line, l)
            } else {
                &&& (l.search->0).hit == s.hit
                &&& (l.search->0).failed
                &&& rang(line, l)
            }
        }),
{
    reveal(Line::search_key);
    reveal(Line::narrowed);
    let s = line.search->0;
    let q = s.query.push(c);
    assert(s.query + seq![c] =~= q);
    let below = match s.hit {
        Some(i) => i + 1,
        None => history.len() as int,
    };
    let caseless = line.cfg.search_ignore_case;
    newest_is_found(history, q, below, caseless);
    seeking(line, Search { query: q, ..s }, match_before(history, q, below, caseless));
}

/// Backspace takes back the last character of the query and nothing else. What
/// is left is looked for from the newest entry on; an empty query has no match.
pub proof fn backspace_takes_back_one_character(line: Line, history: Seq<Seq<char>>)
    requires
        line.wf(history),
        line.search is Some,
    ensures
        ({
            let s = line.search->0;
            let (l, outcome) = line.search_key(Key::Backspace, history);
            let caseless = line.cfg.search_ignore_case;
            let n = history.len() as int;
            &&& outcome == SearchOutcome::Continue
            &&& stays(line, l)
            &&& l.search matches Some(t) && t.forward == s.forward
            &&& s.query.len() == 0 ==> (l.search->0).query == s.query
            &&& s.query.len() > 0 ==> (l.search->0).query.len() == s.query.len() - 1
            &&& forall|k: int|
                0 <= k < s.query.len() - 1 ==> #[trigger] (l.search->0).query[k] == s.query[k]
            &&& (l.search->0).query.len() == 0 ==> (l.search->0).hit is None && !(
            l.search->0).failed && is_quiet(line, l)
            &&& (l.search->0).query.len() > 0 && one_holds(
                history,
                (l.search->0).query,
                0,
                n,
                caseless,
            ) ==> ((l.search->0).hit matches Some(j) && newest_holding(
                history,
                (l.search->0).query,
                n,
                caseless,
                j,
            )) && !(l.search->0).failed && is_quiet(line, l)
            &&& (l.search->0).query.len() > 0 && !one_holds(
                history,
                (l.search->0).query,
                0,
                n,
                caseless,
            ) ==> (l.search->0).hit == s.hit && (l.search->0).failed && rang(line, l)
        }),
{
    reveal(Line::search_key);
    reveal(match_before);
    let s = line.search->0;
    let caseless = line.cfg.search_ignore_case;
    let query = if s.query.len() > 0 {
        s.query.drop_last()
    } else {
        s.query
    };
    let n = history.len() as int;
    if query.len() > 0 {
        newest_is_found(history, query, n, caseless);
    }
    let shorter = Search {
        query,
        hit: if query.len() == 0 {
            None
        } else {
            s.hit
        },
        ..s
    };
    seeking(line, shorter, match_before(history, query, n, caseless));
}

/// A typed character and Backspace give the query back.
pub proof fn backspace_undoes_typing(line: Line, c: char, history: Seq<Seq<char>>)
    requires
        line.wf(history),
        line.search is Some,
    ensures
        ({
            let typed = line.search_key(Key::Char(c), history).0;
            let back = typed.search_key(Key::Backspace, history).0;
            &&& back.search is Some
            &&& (back.search->0).query == (line.search->0).query
            &&& stays(line, back)
        }),
{
    typing_narrows_the_search(line, c, history);
    let typed = line.search_key(Key::Char(c), history).0;
    backspace_takes_back_one_character(typed, history);
    let back = typed.search_key(Key::Backspace, history).0;
    assert((back.search->0).query =~= (line.search->0).query);
}

/// C-r steps to the next older entry that holds the query. Without one the
/// match stays, and the bell rings.
pub proof fn stepping_back_finds_the_next_older(line: Line, history: Seq<Seq<char>>)
    requires
        line.wf(history),
        line.search is Some,
    ensures
        ({
            let s = line.search->0;
            let (l, outcome) = line.search_key(Key::Ctrl('r'), history);
            let caseless = line.cfg.search_ignore_case;
            let below = match s.hit {
                Some(i) => i,
                None => history.len() as int,
            };
            &&& outcome == SearchOutcome::Continue
            &&& stays(line, l)
            &&& l.search matches Some(t) && t.query == s.query && !t.forward
            &&& s.query.len() == 0 ==> (l.search->0).hit == s.hit && is_quiet(line, l)
            &&& s.query.len() > 0 && one_holds(history, s.query, 0, below, caseless) ==> ((
            l.search->0).hit matches Some(j) && newest_holding(
                history,
                s.query,
                below,
                caseless,
                j,
            )) && !(l.search->0).failed && is_quiet(line, l)
            &&& s.query.len() > 0 && !one_holds(history, s.query, 0, below, caseless) ==> (
            l.search->0).hit == s.hit && (l.search->0).failed && rang(line, l)
        }),
{
    reveal(Line::search_key);
    reveal(match_before);
    let s = line.search->0;
    let caseless = line.cfg.search_ignore_case;
    let below = match s.hit {
        Some(i) => i,
        None => history.len() as int,
    };
    if s.query.len() > 0 {
        newest_is_found(history, s.query, below, caseless);
    }
    seeking(line, Search { forward: false, ..s }, match_before(history, s.query, below, caseless));
}

/// C-s steps to the next newer entry that holds the query, and from no match to
/// the oldest. Without one the match stays, and the bell rings.
pub proof fn stepping_forth_finds_the_next_newer(line: Line, history: Seq<Seq<char>>)
    requires
        line.wf(history),
        line.search is Some,
    ensures
        ({
            let s = line.search->0;
            let (l, outcome) = line.search_key(Key::Ctrl('s'), history);
            let caseless = line.cfg.search_ignore_case;
            let n = history.len() as int;
            let from = match s.hit {
                Some(i) => i + 1,
                None => 0,
            };
            &&& outcome == SearchOutcome::Continue
            &&& stays(line, l)
            &&& l.search matches Some(t) && t.query == s.query && t.forward
            &&& s.query.len() == 0 ==> (l.search->0).hit == s.hit && is_quiet(line, l)
            &&& s.query.len() > 0 && one_holds(history, s.query, from, n, caseless) ==> ((
            l.search->0).hit matches Some(j) && from <= j < n && holds(
                history[j],
                s.query,
                caseless,
            ) && (forall|k: int|
                from <= k < j ==> !holds(#[trigger] history[k], s.query, caseless)))
                && !(l.search->0).failed && is_quiet(line, l)
            &&& s.query.len() > 0 && !one_holds(history, s.query, from, n, caseless) ==> (
            l.search->0).hit == s.hit && (l.search->0).failed && rang(line, l)
        }),
{
    reveal(Line::search_key);
    let s = line.search->0;
    let caseless = line.cfg.search_ignore_case;
    let from = match s.hit {
        Some(i) => i + 1,
        None => 0,
    };
    if s.query.len() > 0 {
        oldest_is_found(history, s.query, from, caseless);
    }
    seeking(line, Search { forward: true, ..s }, match_from(history, s.query, from, caseless));
}

/// The line is what the search found: the entry, at its place in the history,
/// with the cursor where the query first stands in it. A search without a match
/// leaves the line as it was.
pub open spec fn lands(line: Line, l: Line, history: Seq<Seq<char>>) -> bool {
    let s = line.search->0;
    let caseless = line.cfg.search_ignore_case;
    &&& l.search is None
    &&& s.hit is None ==> stays(line, l)
    &&& s.hit matches Some(i) ==> l.hist_index == Some(i) && l.buffer == history[i]
    &&& s.hit matches Some(i) ==> (line.hist_index is None ==> l.draft == line.buffer) && (
    line.hist_index is Some ==> l.draft == line.draft)
    &&& s.hit is Some && s.query.len() > 0 && holds(history[s.hit->0], s.query, caseless) ==> {
        &&& 0 <= l.cursor <= l.buffer.len()
        &&& starts(l.buffer.skip(l.cursor), s.query, caseless)
        &&& forall|k: int|
            0 <= k < l.cursor ==> !starts(#[trigger] l.buffer.skip(k), s.query, caseless)
    }
    &&& s.hit is Some && s.query.len() == 0 ==> l.cursor == l.buffer.len()
}

proof fn landing_lands(line: Line, history: Seq<Seq<char>>)
    requires
        line.wf(history),
        line.search is Some,
    ensures
        lands(line, line.landed(history), history),
{
    reveal(Line::landed);
    let s = line.search->0;
    let caseless = line.cfg.search_ignore_case;
    let l = line.landed(history);
    if s.hit is Some && s.query.len() > 0 && holds(history[s.hit->0], s.query, caseless) {
        holding_is_occurring(history[s.hit->0], s.query, caseless);
        the_found_entry_is_the_line(line, history);
        starts_is_occurring(l.buffer, s.query, l.cursor, caseless);
        assert forall|k: int| 0 <= k < l.cursor implies !starts(
            #[trigger] l.buffer.skip(k),
            s.query,
            caseless,
        ) by {
            starts_is_occurring(l.buffer, s.query, k, caseless);
        }
    }
}

/// Enter accepts what was found, and any key without a meaning of its own in a
/// search goes back to editing it. Escape and C-g go back to the line as it was;
/// C-c abandons it.
pub proof fn leaving_a_search(line: Line, key: Key, history: Seq<Seq<char>>)
    requires
        line.wf(history),
        line.search is Some,
        !(key is Char),
        key != Key::Backspace && key != Key::Ctrl('r') && key != Key::Ctrl('s'),
    ensures
        ({
            let (l, outcome) = line.search_key(key, history);
            &&& l.search is None
            &&& if key == Key::Esc {
                outcome == SearchOutcome::Exit && stays(line, l) && is_quiet(line, l)
            } else if key == Key::Ctrl('g') {
                outcome == SearchOutcome::Exit && stays(line, l) && rang(line, l)
            } else if key == Key::Ctrl('c') {
                outcome == SearchOutcome::Interrupted && stays(line, l) && is_quiet(line, l)
            } else if key == Key::Enter {
                outcome == SearchOutcome::Accept && lands(line, l, history)
            } else {
                outcome == SearchOutcome::Exit && lands(line, l, history)
            }
        }),
{
    reveal(Line::search_key);
    landing_lands(line, history);
    ringing_rings(Line { search: None, ..line });
}

/// A query typed one character after another.
pub open spec fn queried(line: Line, query: Seq<char>, history: Seq<Seq<char>>) -> Line
    decreases query.len(),
{
    if query.len() == 0 {
        line
    } else {
        queried(line, query.drop_last(), history).search_key(
            Key::Char(query.last()),
            history,
        ).0
    }
}

/// Whatever is typed into a search begun on the live line, the match is the
/// newest entry of all that holds it, if one does; and Enter then returns that
/// entry.
pub proof fn a_search_finds_the_newest_that_holds_the_query(
    line: Line,
    query: Seq<char>,
    history: Seq<Seq<char>>,
)
    requires
        line.wf(history),
        line.search matches Some(s) && s.query.len() == 0 && s.hit is None,
    ensures
        ({
            let l = queried(line, query, history);
            let n = history.len() as int;
            let caseless = line.cfg.search_ignore_case;
            &&& l.search matches Some(s) && s.query == query
            &&& stays(line, l)
            &&& query.len() > 0 && one_holds(history, query, 0, n, caseless) ==> {
                &&& (l.search->0).hit matches Some(j) && newest_holding(
                    history,
                    query,
                    n,
                    caseless,
                    j,
                )
                &&& l.search_key(Key::Enter, history).1 == SearchOutcome::Accept
                &&& l.search_key(Key::Enter, history).0.buffer == history[(l.search->0).hit->0]
            }
        }),
    decreases query.len(),
{
    query_is_found(line, query, history);
    let l = queried(line, query, history);
    leaving_a_search(l, Key::Enter, history);
}

proof fn query_is_found(line: Line, query: Seq<char>, history: Seq<Seq<char>>)
    requires
        line.wf(history),
        line.search matches Some(s) && s.query.len() == 0 && s.hit is None,
    ensures
        ({
            let l = queried(line, query, history);
            let n = history.len() as int;
            let caseless = line.cfg.search_ignore_case;
            &&& l.search matches Some(s) && s.query == query
            &&& l.wf(history)
            &&& l.cfg == line.cfg
            &&& stays(line, l)
            &&& query.len() > 0 && one_holds(history, query, 0, n, caseless) ==> ((
            l.search->0).hit matches Some(j) && newest_holding(history, query, n, caseless, j))
            &&& query.len() == 0 ==> (l.search->0).hit is None
        }),
    decreases query.len(),
{
    let n = history.len() as int;
    let caseless = line.cfg.search_ignore_case;
    if query.len() == 0 {
        assert((line.search->0).query =~= query);
    } else {
        let front = query.drop_last();
        let c = query.last();
        assert(front.push(c) =~= query);
        query_is_found(line, front, history);
        let before = queried(line, front, history);
        typing_narrows_the_search(before, c, history);
        let below = match (before.search->0).hit {
            Some(i) => i + 1,
            None => n,
        };
        if one_holds(history, query, 0, n, caseless) {
            let k = choose|k: int| 0 <= k < n && holds(#[trigger] history[k], query, caseless);
            holding_more_holds_less(history[k], front, c, caseless);
            assert(front.len() > 0 ==> one_holds(history, front, 0, n, caseless));
            assert(one_holds(history, query, 0, below, caseless));
            let j = (queried(line, query, history).search->0).hit->0;
            assert forall|m: int| j < m < n implies !holds(
                #[trigger] history[m],
                query,
                caseless,
            ) by {
                if holds(history[m], query, caseless) {
                    holding_more_holds_less(history[m], front, c, caseless);
                }
            }
        }
    }
}

/// A paste into a search goes behind the query, on one line, and is looked for
/// as typed text is: the match is the newest entry, no newer than the match
/// before, that holds it. The line stays, and the search goes on.
pub proof fn pasting_narrows_the_search(
    line: Line,
    ring: Ring,
    bindings: Seq<(Key, Bound)>,
    text: Seq<char>,
    history: Seq<Seq<char>>,
    answer: Answer,
)
    requires
        line.wf(history),
        line.search is Some,
        text.len() > 0,
        !text.contains('\r'),
    ensures
        ({
            let s = line.search->0;
            let (l, r, after) = line.stepped(ring, bindings, Event::Paste(text), history, answer);
            let q = s.query + Seq::new(
                text.len(),
                |k: int|
                    if text[k] == '\n' {
                        ' '
                    } else {
                        text[k]
                    },
            );
            let caseless = line.cfg.search_ignore_case;
            let below = match s.hit {
                Some(i) => i + 1,
                None => history.len() as int,
            };
            &&& r == ring
            &&& after == AfterKey::Done
            &&& stays(line, l)
            &&& l.search matches Some(t) && t.query == q && t.forward == s.forward
            &&& if one_holds(history, q, 0, below, caseless) {
                &&& (l.search->0).hit matches Some(j) && newest_holding(
                    history,
                    q,
                    below,
                    caseless,
                    j,
                )
                &&& !(l.search->0).failed
                &&& is_quiet(line, l)
            } else {
                &&& (l.search->0).hit == s.hit
                &&& (l.search->0).failed
                &&& rang(line, l)
            }
        }),
{
    reveal(Line::stepped);
    reveal(Line::searched);
    reveal(Line::narrowed);
    let s = line.search->0;
    crate::laws::stepping::line_endings_become_newlines(text, Seq::empty());
    let flat = crate::search::flattened(text);
    let q = s.query + flat;
    assert(flat =~= Seq::new(
        text.len(),
        |k: int|
            if text[k] == '\n' {
                ' '
            } else {
                text[k]
            },
    ));
    let below = match s.hit {
        Some(i) => i + 1,
        None => history.len() as int,
    };
    let caseless = line.cfg.search_ignore_case;
    newest_is_found(history, q, below, caseless);
    seeking(line, Search { query: q, ..s }, match_before(history, q, below, caseless));
}

/// While searching, a key goes to the search: the line is returned on Enter,
/// abandoned on C-c, and goes on otherwise.
pub proof fn searching_takes_the_keys(
    line: Line,
    ring: Ring,
    bindings: Seq<(Key, Bound)>,
    key: Key,
    history: Seq<Seq<char>>,
    answer: Answer,
)
    requires
        line.search is Some,
    ensures
        ({
            let (l, r, after) = line.stepped(ring, bindings, Event::Key(key), history, answer);
            &&& l == line.search_key(key, history).0
            &&& r == ring
            &&& after == AfterKey::Accept <==> key == Key::Enter
            &&& after == AfterKey::Interrupted <==> key == Key::Ctrl('c')
            &&& after == AfterKey::Done <==> key != Key::Enter && key != Key::Ctrl('c')
        }),
{
    reveal(Line::stepped);
    reveal(Line::searched);
    reveal(Line::search_key);
}

} // verus!
