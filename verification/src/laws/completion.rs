//! Completion of the word at the cursor.
use vstd::prelude::*;
use vstd::utf8::encode_utf8;

use crate::act::Answer;
use crate::actions::EditorAction;
use crate::complete::{
    begins_alike, clamped, joined, lcp, lcp_is_common_and_longest, listed_text, replacements,
};
use crate::decoder::Event;
use crate::hooks::Choice;
use crate::keys::Key;
use crate::laws::{is_quiet, rang, ringing_rings, stays};
use crate::line::{Line, Menu, Pending};
use crate::ring::Ring;
use crate::text::{byte_len, byte_len_is_encoded_len, char_index, decimal, utf8_len};
use crate::unicode::lower_mapping;

verus! {

/// The word before the cursor starts at `start`: as many whole characters stand
/// before it as fit in the byte offset that the host gave, and no more than
/// stand before the cursor.
pub open spec fn word_starts(line: Line, bytes: int, start: int) -> bool {
    &&& 0 <= start <= line.cursor
    &&& encode_utf8(line.buffer.take(start)).len() <= bytes
    &&& start < line.cursor ==> encode_utf8(line.buffer.take(start + 1)).len() > bytes
}

/// Only what stands between `start` and the cursor has changed, to `text`; the
/// cursor is behind it.
pub open spec fn only_the_word_changed(
    before: Line,
    after: Line,
    start: int,
    text: Seq<char>,
) -> bool {
    &&& after.buffer == before.buffer.take(start) + text + before.buffer.skip(before.cursor)
    &&& after.cursor == start + text.len()
    &&& after.hist_index == before.hist_index
}

/// The first characters of two texts agree.
pub open spec fn agree(a: Seq<char>, b: Seq<char>, n: int, caseless: bool) -> bool {
    &&& n <= a.len()
    &&& n <= b.len()
    &&& forall|k: int|
        0 <= k < n ==> #[trigger] a[k] == b[k] || caseless && lower_mapping(a[k]) == lower_mapping(
            b[k],
        )
}

/// `p` is the longest text that all candidates begin with, in the spelling of
/// the first.
pub open spec fn longest_in_common(c: Seq<Choice>, p: Seq<char>, caseless: bool) -> bool {
    let first = c[0].replacement;
    &&& p.len() <= first.len()
    &&& p == first.take(p.len() as int)
    &&& forall|i: int|
        0 <= i < c.len() ==> agree(first, (#[trigger] c[i]).replacement, p.len() as int, caseless)
    &&& p.len() < first.len() ==> exists|i: int|
        0 <= i < c.len() && !agree(
            first,
            (#[trigger] c[i]).replacement,
            (p.len() + 1) as int,
            caseless,
        )
}

proof fn common_prefix_is_longest(c: Seq<Choice>, caseless: bool)
    requires
        c.len() > 0,
    ensures
        longest_in_common(c, lcp(replacements(c), caseless), caseless),
{
    let names = replacements(c);
    let p = lcp(names, caseless);
    let first = c[0].replacement;
    lcp_is_common_and_longest(names, caseless);
    assert forall|i: int| 0 <= i < c.len() implies agree(
        first,
        (#[trigger] c[i]).replacement,
        p.len() as int,
        caseless,
    ) by {
        if i > 0 {
            assert(begins_alike(names[i], p, caseless));
            assert forall|k: int| 0 <= k < p.len() implies #[trigger] first[k]
                == c[i].replacement[k] || caseless && lower_mapping(first[k]) == lower_mapping(
                c[i].replacement[k],
            ) by {
                assert(p[k] == first[k]);
            }
        }
    }
    if p.len() < first.len() {
        let longer = first.take((p.len() + 1) as int);
        assert(crate::text::begins_with(names[0], longer));
        let i = choose|i: int|
            0 <= i < names.len() && !#[trigger] begins_alike(names[i], longer, caseless);
        assert(!agree(first, c[i].replacement, (p.len() + 1) as int, caseless)) by {
            if agree(first, c[i].replacement, (p.len() + 1) as int, caseless) {
                assert forall|k: int| 0 <= k < longer.len() implies crate::text::alike(
                    #[trigger] longer[k],
                    names[i][k],
                    caseless,
                ) by {
                    assert(longer[k] == first[k]);
                }
                assert(begins_alike(names[i], longer, caseless));
            }
        }
    }
}

pub(crate) proof fn clamping_finds_the_word(s: Seq<char>, bytes: int)
    requires
        bytes >= 0,
    ensures
        ({
            let k = char_index(s, bytes);
            &&& 0 <= k <= s.len()
            &&& encode_utf8(s.take(k)).len() <= bytes
            &&& k < s.len() ==> encode_utf8(s.take(k + 1)).len() > bytes
        }),
    decreases s.len(),
{
    let k = char_index(s, bytes);
    byte_len_is_encoded_len(s.take(0));
    assert(s.take(0) =~= Seq::<char>::empty());
    if s.len() > 0 {
        let w = utf8_len(s[0]);
        if w > bytes {
            byte_len_is_encoded_len(s.take(1));
            assert(s.take(1).drop_first() =~= Seq::<char>::empty());
            assert(byte_len(s.take(1)) == w + byte_len(s.take(1).drop_first()));
        } else {
            let rest = s.drop_first();
            clamping_finds_the_word(rest, bytes - w);
            byte_len_is_encoded_len(s.take(k));
            byte_len_is_encoded_len(rest.take(k - 1));
            assert(s.take(k).drop_first() =~= rest.take(k - 1));
            if k < s.len() {
                byte_len_is_encoded_len(s.take(k + 1));
                byte_len_is_encoded_len(rest.take(k));
                assert(s.take(k + 1).drop_first() =~= rest.take(k));
            }
        }
    }
}

pub(crate) proof fn the_word_starts(line: Line, bytes: int)
    requires
        line.inside(),
        bytes >= 0,
    ensures
        word_starts(line, bytes, clamped(line.buffer, line.cursor, bytes)),
{
    let head = line.buffer.take(line.cursor);
    let k = clamped(line.buffer, line.cursor, bytes);
    clamping_finds_the_word(head, bytes);
    assert(head.take(k) =~= line.buffer.take(k));
    if k < line.cursor {
        assert(head.take(k + 1) =~= line.buffer.take(k + 1));
    }
}

/// What completion leaves between the start of the word and the cursor: the
/// longest common prefix where that takes more bytes than the word, else the
/// word; and behind a unique match that stands there whole, the append
/// character.
pub open spec fn completes_to(
    line: Line,
    c: Seq<Choice>,
    start: int,
    p: Seq<char>,
    text: Seq<char>,
) -> bool {
    let word = line.buffer.subrange(start, line.cursor);
    let core = if encode_utf8(p).len() > encode_utf8(word).len() {
        p
    } else {
        word
    };
    if c.len() == 1 && core == c[0].replacement && line.cfg.append_character is Some {
        text == core.push(line.cfg.append_character->0)
    } else {
        text == core
    }
}

/// Completion changes the word before the cursor and nothing else: what stands
/// before the word, and what stands from the cursor on, is as it was. The word
/// grows to the longest common prefix of the candidates; one that stands there
/// whole, and alone, is followed by the append character. Without candidates
/// the bell rings.
#[verifier::rlimit(40)]
pub proof fn completion_changes_only_the_word(
    line: Line,
    ring: Ring,
    key: Key,
    history: Seq<Seq<char>>,
    bytes: int,
    c: Seq<Choice>,
)
    requires
        line.inside(),
        line.menu is None,
        !line.cfg.menu_complete,
        bytes >= 0,
    ensures
        ({
            let (l, r, after) = line.acted(
                ring,
                EditorAction::Complete,
                key,
                history,
                Answer::Completion(bytes, c),
            );
            &&& r == ring
            &&& c.len() == 0 ==> stays(line, l) && rang(line, l)
            &&& c.len() > 0 ==> exists|start: int, p: Seq<char>, text: Seq<char>| #[trigger]
                completes_to(line, c, start, p, text) && word_starts(line, bytes, start)
                    && longest_in_common(c, p, line.cfg.completion_ignore_case)
                    && only_the_word_changed(line, l, start, text)
        }),
{
    reveal(Line::acted);
    reveal(Line::changed);
    reveal(Line::tabbed);
    reveal(Line::completed);
    reveal(Line::typed);
    let answer = Answer::Completion(bytes, c);
    let l = line.acted(ring, EditorAction::Complete, key, history, answer).0;
    let start = clamped(line.buffer, line.cursor, bytes);
    the_word_starts(line, bytes);
    ringing_rings(line);
    if c.len() > 0 {
        let p = lcp(replacements(c), line.cfg.completion_ignore_case);
        common_prefix_is_longest(c, line.cfg.completion_ignore_case);
        let word = line.buffer.subrange(start, line.cursor);
        byte_len_is_encoded_len(p);
        byte_len_is_encoded_len(word);
        let grown = byte_len(p) > byte_len(word);
        let core = if grown {
            p
        } else {
            word
        };
        let mid = if grown {
            line.put(start, line.cursor, p)
        } else {
            line
        };
        assert(mid.buffer =~= line.buffer.take(start) + core + line.buffer.skip(line.cursor));
        assert(mid.cursor == start + core.len());
        assert(mid.buffer.subrange(start, mid.cursor) =~= core);
        if c.len() == 1 && core == c[0].replacement && line.cfg.append_character is Some {
            let a = line.cfg.append_character->0;
            assert(mid.typed(a).buffer =~= line.buffer.take(start) + core.push(a)
                + line.buffer.skip(line.cursor));
            assert(l == mid.typed(a));
            assert(completes_to(line, c, start, p, core.push(a)));
        } else {
            let menu = Menu {
                start,
                inserted: mid.cursor - start,
                index: None,
                candidates: c,
            };
            listing_stays(mid, menu, true);
            assert(completes_to(line, c, start, p, core));
            assert(only_the_word_changed(line, l, start, core));
        }
    }
}

/// The list is printed, or the user is asked whether to; `armed` and it is
/// printed, so that the next Tab cycles.
pub open spec fn lists(before: Line, after: Line, c: Seq<Choice>, start: int, armed: bool) -> bool {
    let menu = Menu { start, inserted: before.cursor - start, index: None, candidates: c };
    if before.cfg.query_items > 0 && c.len() >= before.cfg.query_items {
        &&& after.pending == Pending::ListQuery(armed)
        &&& after.listing == Some(menu)
        &&& after.menu == before.menu
        &&& after.out == before.left().out + ("Display all "@ + decimal(c.len())
            + " possibilities? (y or n)"@)
    } else {
        &&& after.pending == before.pending
        &&& after.menu == (if armed {
            Some(menu)
        } else {
            before.menu
        })
        &&& after.out == before.left().out + listed_text(c, before.cols)
        &&& after.fresh
        &&& after.painted_rows == 1
        &&& after.painted_cursor_row == 0
    }
}

proof fn listing_stays(line: Line, menu: Menu, arm: bool)
    ensures
        stays(line, line.listed(menu, arm)),
{
    reveal(Line::listed);
    reveal(Line::printed);
    reveal(Line::left);
}

proof fn listing_keeps_the_text(line: Line, menu: Menu, arm: bool)
    requires
        menu.inserted == line.cursor - menu.start,
        menu.index is None,
    ensures
        stays(line, line.listed(menu, arm)),
        lists(line, line.listed(menu, arm), menu.candidates, menu.start, arm),
{
    reveal(Line::listed);
    reveal(Line::printed);
    reveal(Line::left);
}

/// Candidates that completion cannot choose between are listed: at once when the
/// word cannot grow, and, where it can, only with `show-all-if-ambiguous`.
pub proof fn ambiguous_candidates_are_listed(
    line: Line,
    ring: Ring,
    key: Key,
    history: Seq<Seq<char>>,
    bytes: int,
    c: Seq<Choice>,
    start: int,
    p: Seq<char>,
)
    requires
        line.inside(),
        line.menu is None,
        !line.cfg.menu_complete,
        bytes >= 0,
        c.len() > 1,
        word_starts(line, bytes, start),
        longest_in_common(c, p, line.cfg.completion_ignore_case),
    ensures
        ({
            let l = line.acted(
                ring,
                EditorAction::Complete,
                key,
                history,
                Answer::Completion(bytes, c),
            ).0;
            let word = line.buffer.subrange(start, line.cursor);
            let grows = encode_utf8(p).len() > encode_utf8(word).len();
            let grown = Line { buffer: l.buffer, cursor: l.cursor, ..line };
            if grows && !line.cfg.show_all_if_ambiguous {
                &&& is_quiet(line, l)
                &&& l.menu is None
                &&& l.pending == line.pending
            } else {
                lists(grown, l, c, start, true)
            }
        }),
{
    reveal(Line::acted);
    reveal(Line::changed);
    reveal(Line::tabbed);
    reveal(Line::completed);
    let at = clamped(line.buffer, line.cursor, bytes);
    the_word_starts(line, bytes);
    word_start_is_one(line, bytes, at, start);
    let q = lcp(replacements(c), line.cfg.completion_ignore_case);
    common_prefix_is_longest(c, line.cfg.completion_ignore_case);
    longest_is_one(c, p, q, line.cfg.completion_ignore_case);
    let word = line.buffer.subrange(start, line.cursor);
    byte_len_is_encoded_len(p);
    byte_len_is_encoded_len(word);
    let grown = byte_len(p) > byte_len(word);
    let mid = if grown {
        line.put(start, line.cursor, p)
    } else {
        line
    };
    let menu = Menu { start, inserted: mid.cursor - start, index: None, candidates: c };
    listing_keeps_the_text(mid, menu, true);
}

pub(crate) proof fn word_start_is_one(line: Line, bytes: int, a: int, b: int)
    requires
        line.inside(),
        word_starts(line, bytes, a),
        word_starts(line, bytes, b),
    ensures
        a == b,
{
    if a < b {
        longer_takes_more(line.buffer, a + 1, b);
    }
    if b < a {
        longer_takes_more(line.buffer, b + 1, a);
    }
}

proof fn longer_takes_more(s: Seq<char>, a: int, b: int)
    requires
        0 <= a <= b <= s.len(),
    ensures
        encode_utf8(s.take(a)).len() <= encode_utf8(s.take(b)).len(),
{
    crate::text::byte_len_add(s.take(a), s.subrange(a, b));
    assert(s.take(a) + s.subrange(a, b) =~= s.take(b));
    byte_len_is_encoded_len(s.take(a));
    byte_len_is_encoded_len(s.take(b));
}

proof fn longest_is_one(c: Seq<Choice>, p: Seq<char>, q: Seq<char>, caseless: bool)
    requires
        c.len() > 0,
        longest_in_common(c, p, caseless),
        longest_in_common(c, q, caseless),
    ensures
        p == q,
{
    let first = c[0].replacement;
    if p.len() < q.len() {
        let i = choose|i: int|
            0 <= i < c.len() && !agree(
                first,
                (#[trigger] c[i]).replacement,
                (p.len() + 1) as int,
                caseless,
            );
        assert(agree(first, c[i].replacement, q.len() as int, caseless));
    }
    if q.len() < p.len() {
        let i = choose|i: int|
            0 <= i < c.len() && !agree(
                first,
                (#[trigger] c[i]).replacement,
                (q.len() + 1) as int,
                caseless,
            );
        assert(agree(first, c[i].replacement, p.len() as int, caseless));
    }
    assert(p =~= q);
}

/// M-? lists the candidates and leaves the line alone.
pub proof fn listing_leaves_the_line_alone(
    line: Line,
    ring: Ring,
    key: Key,
    history: Seq<Seq<char>>,
    bytes: int,
    c: Seq<Choice>,
    start: int,
)
    requires
        line.inside(),
        bytes >= 0,
        word_starts(line, bytes, start),
    ensures
        ({
            let l = line.acted(
                ring,
                EditorAction::PossibleCompletions,
                key,
                history,
                Answer::Completion(bytes, c),
            ).0;
            &&& stays(line, l)
            &&& c.len() == 0 ==> rang(line, l)
            &&& c.len() > 0 ==> lists(line, l, c, start, false)
        }),
{
    reveal(Line::acted);
    reveal(Line::changed);
    reveal(Line::possible);
    ringing_rings(line);
    the_word_starts(line, bytes);
    word_start_is_one(line, bytes, clamped(line.buffer, line.cursor, bytes), start);
    listing_keeps_the_text(
        line,
        Menu { start, inserted: line.cursor - start, index: None, candidates: c },
        false,
    );
}

/// Where the `i`-th candidate starts when all stand in a row, a space between
/// each two.
pub open spec fn offset(c: Seq<Choice>, i: int) -> int
    decreases i,
{
    if i <= 0 {
        0
    } else {
        offset(c, i - 1) + c[i - 1].replacement.len() + 1
    }
}

/// All candidates in a row, a space between each two.
pub open spec fn all_in_a_row(c: Seq<Choice>, text: Seq<char>) -> bool {
    &&& text.len() == offset(c, c.len() as int) - 1
    &&& forall|i: int|
        0 <= i < c.len() ==> 0 <= #[trigger] offset(c, i) && offset(c, i) + c[i].replacement.len()
            <= text.len() && text.subrange(offset(c, i), offset(c, i) + c[i].replacement.len())
            == c[i].replacement
    &&& forall|i: int| 0 < i < c.len() ==> text[#[trigger] offset(c, i) - 1] == ' '
}

proof fn offset_of_front(c: Seq<Choice>, i: int)
    requires
        c.len() > 0,
        i <= c.len() - 1,
    ensures
        offset(c.drop_last(), i) == offset(c, i),
    decreases i,
{
    if i > 0 {
        offset_of_front(c, i - 1);
    }
}

proof fn joined_is_a_row(c: Seq<Choice>)
    requires
        c.len() > 0,
    ensures
        all_in_a_row(c, joined(c)),
    decreases c.len(),
{
    let n = c.len() as int;
    let text = joined(c);
    reveal_strlit(" ");
    if n == 1 {
        reveal_with_fuel(offset, 2);
        assert(text.subrange(0, text.len() as int) =~= text);
        assert forall|i: int| 0 <= i < n implies 0 <= #[trigger] offset(c, i) && offset(c, i)
            + c[i].replacement.len() <= text.len() && text.subrange(
            offset(c, i),
            offset(c, i) + c[i].replacement.len(),
        ) == c[i].replacement by {
            assert(i == 0);
        }
    } else {
        let front = c.drop_last();
        let before = joined(front);
        joined_is_a_row(front);
        offset_of_front(c, n - 1);
        let last = c.last().replacement;
        assert(offset(c, n) == offset(c, n - 1) + c[n - 1].replacement.len() + 1);
        assert(before.len() == offset(c, n - 1) - 1);
        assert forall|i: int| 0 <= i < n implies 0 <= #[trigger] offset(c, i) && offset(c, i)
            + c[i].replacement.len() <= text.len() && text.subrange(
            offset(c, i),
            offset(c, i) + c[i].replacement.len(),
        ) == c[i].replacement by {
            if i < n - 1 {
                offset_of_front(c, i);
                assert(0 <= offset(front, i));
                assert(front[i] == c[i]);
                assert(before.subrange(offset(c, i), offset(c, i) + c[i].replacement.len())
                    == c[i].replacement);
                assert(text.subrange(offset(c, i), offset(c, i) + c[i].replacement.len())
                    =~= before.subrange(offset(c, i), offset(c, i) + c[i].replacement.len()));
            } else {
                assert(text.subrange(offset(c, i), offset(c, i) + last.len()) =~= last);
            }
        }
        assert forall|i: int| 0 < i < n implies text[#[trigger] offset(c, i) - 1] == ' ' by {
            if i < n - 1 {
                offset_of_front(c, i);
                assert(before[offset(front, i) - 1] == ' ');
                assert(0 <= offset(front, i) && offset(front, i) + front[i].replacement.len()
                    <= before.len());
                offset_grows(c, i);
            } else {
                assert(text[before.len() as int] == ' ');
            }
        }
    }
}

proof fn offset_grows(c: Seq<Choice>, i: int)
    requires
        0 <= i,
    ensures
        offset(c, i) >= i,
    decreases i,
{
    if i > 0 {
        offset_grows(c, i - 1);
    }
}

/// M-* puts all candidates in place of the word, and changes nothing else.
pub proof fn inserting_all_changes_only_the_word(
    line: Line,
    ring: Ring,
    key: Key,
    history: Seq<Seq<char>>,
    bytes: int,
    c: Seq<Choice>,
    start: int,
)
    requires
        line.inside(),
        bytes >= 0,
        word_starts(line, bytes, start),
    ensures
        ({
            let l = line.acted(
                ring,
                EditorAction::InsertCompletions,
                key,
                history,
                Answer::Completion(bytes, c),
            ).0;
            &&& c.len() == 0 ==> stays(line, l) && rang(line, l)
            &&& c.len() > 0 ==> exists|text: Seq<char>| #[trigger]
                all_in_a_row(c, text) && only_the_word_changed(line, l, start, text)
        }),
{
    reveal(Line::acted);
    reveal(Line::changed);
    reveal(Line::all_inserted);
    ringing_rings(line);
    the_word_starts(line, bytes);
    word_start_is_one(line, bytes, clamped(line.buffer, line.cursor, bytes), start);
    if c.len() > 0 {
        joined_is_a_row(c);
        let l = line.acted(
            ring,
            EditorAction::InsertCompletions,
            key,
            history,
            Answer::Completion(bytes, c),
        ).0;
        assert(only_the_word_changed(line, l, start, joined(c)));
    }
}

/// Menu completion puts a candidate in place of the word, and changes nothing
/// else: forward begins with the first, backward with the last. So does Tab
/// under `menu-complete`.
pub proof fn menu_completion_begins(
    line: Line,
    ring: Ring,
    action: EditorAction,
    key: Key,
    history: Seq<Seq<char>>,
    bytes: int,
    c: Seq<Choice>,
    start: int,
)
    requires
        line.inside(),
        line.menu is None,
        bytes >= 0,
        word_starts(line, bytes, start),
        action == EditorAction::MenuComplete || action == EditorAction::MenuCompleteBackward
            || action == EditorAction::Complete && line.cfg.menu_complete,
    ensures
        ({
            let l = line.acted(ring, action, key, history, Answer::Completion(bytes, c)).0;
            let i = if action == EditorAction::MenuCompleteBackward {
                c.len() - 1
            } else {
                0
            };
            &&& c.len() == 0 ==> stays(line, l) && rang(line, l)
            &&& c.len() > 0 ==> only_the_word_changed(line, l, start, c[i].replacement)
                && l.menu == Some(
                Menu {
                    start,
                    inserted: c[i].replacement.len() as int,
                    index: Some(i),
                    candidates: c,
                },
            )
        }),
{
    reveal(Line::acted);
    reveal(Line::changed);
    reveal(Line::tabbed);
    reveal(Line::menu_tabbed);
    reveal(Line::menu_begun);
    reveal(Line::cycled);
    ringing_rings(line);
    the_word_starts(line, bytes);
    word_start_is_one(line, bytes, clamped(line.buffer, line.cursor, bytes), start);
}

/// Each further Tab puts the next candidate in place of the one shown, and
/// S-Tab the one before, round and round; the rest of the line stays.
pub proof fn menu_completion_goes_on(
    line: Line,
    ring: Ring,
    action: EditorAction,
    key: Key,
    history: Seq<Seq<char>>,
    answer: Answer,
)
    requires
        line.menu matches Some(m) && m.candidates.len() > 0 && 0 <= m.start && 0 <= m.inserted
            && m.start + m.inserted <= line.buffer.len() && (m.index matches Some(i) ==> 0 <= i
            < m.candidates.len()),
        action == EditorAction::MenuComplete || action == EditorAction::MenuCompleteBackward
            || action == EditorAction::Complete,
    ensures
        ({
            let l = line.acted(ring, action, key, history, answer).0;
            let m = line.menu->0;
            let n = m.candidates.len() as int;
            let back = action == EditorAction::MenuCompleteBackward;
            &&& l.menu matches Some(t) && t.candidates == m.candidates && t.start == m.start
            &&& (l.menu->0).index matches Some(j) && 0 <= j < n
            &&& m.index is None ==> (l.menu->0).index->0 == (if back {
                n - 1
            } else {
                0
            })
            &&& m.index matches Some(i) ==> if back {
                (l.menu->0).index->0 == i - 1 || i == 0 && (l.menu->0).index->0 == n - 1
            } else {
                (l.menu->0).index->0 == i + 1 || i == n - 1 && (l.menu->0).index->0 == 0
            }
            &&& ({
                let text = m.candidates[(l.menu->0).index->0].replacement;
                &&& l.buffer == line.buffer.take(m.start) + text + line.buffer.skip(
                    m.start + m.inserted,
                )
                &&& l.cursor == m.start + text.len()
                &&& (l.menu->0).inserted == text.len()
            })
        }),
{
    reveal(Line::acted);
    reveal(Line::changed);
    reveal(Line::tabbed);
    reveal(Line::menu_tabbed);
    reveal(Line::cycled);
}

/// The answer to the question whether to list: `y`, `Y` and the space list, and
/// arm cycling if Tab asked; anything else does not. The line stays.
pub proof fn the_question_is_answered(line: Line, event: Event, arm: bool)
    requires
        line.pending == Pending::ListQuery(arm),
        line.listing is Some,
    ensures
        ({
            let l = line.resumed(event).0;
            let yes = event == Event::Key(Key::Char('y')) || event == Event::Key(Key::Char('Y'))
                || event == Event::Key(Key::Char(' '));
            &&& stays(line, l)
            &&& l.pending == Pending::Nothing
            &&& l.listing is None
            &&& l.fresh
            &&& l.menu == (if yes && arm {
                line.listing
            } else {
                line.menu
            })
            &&& !yes ==> l.out == line.out + seq!['\n']
            &&& yes ==> l.out == line.out + seq!['\n'] + listed_text(
                line.listing->0.candidates,
                line.cols,
            )
        }),
{
    reveal(Line::resumed);
    reveal(Line::list_answered);
    reveal(Line::printed);
    reveal_strlit("\n");
    assert("\n"@ =~= seq!['\n']);
}

} // verus!
