//! The history list and its file: what is added, what is dropped, what is
//! written and what is read.
use vstd::prelude::*;

use crate::act::AfterKey;
use crate::editor::{begun, ending, last_with, located, plain_end, unended, Editor, ReadEnd};
use crate::histfile::{formatted, gap, is_digit, lines, number, parsed, parsed_file, stamp_of};
use crate::laws::screen::value_of;
use crate::line::{EditorConfig, Line};
use crate::log::{one_line, without, Item, Log};
use crate::paint::last_line_start;
use crate::text::{decimal, first_index, lossy_utf8};

verus! {

/// `kept` are the last entries of `all`, as many as `max` allows.
pub open spec fn are_the_last(kept: Seq<Item>, all: Seq<Item>, max: int) -> bool {
    &&& kept.len() <= all.len()
    &&& kept.len() == max || kept.len() == all.len() < max
    &&& forall|i: int|
        0 <= i < kept.len() ==> #[trigger] kept[i] == all[all.len() - kept.len() + i]
}

/// The entries of another text.
pub open spec fn others(items: Seq<Item>, e: Seq<char>) -> Seq<Item> {
    items.filter(|item: Item| item.0 != e)
}

proof fn others_are_without(items: Seq<Item>, e: Seq<char>)
    ensures
        others(items, e) == without(items, e),
    decreases items.len(),
{
    reveal(Seq::filter);
    if items.len() > 0 {
        others_are_without(items.drop_last(), e);
    }
}

proof fn others_are_others(items: Seq<Item>, e: Seq<char>)
    ensures
        forall|i: int| 0 <= i < others(items, e).len() ==> (#[trigger] others(items, e)[i]).0 != e,
    decreases items.len(),
{
    reveal(Seq::filter);
    if items.len() > 0 {
        others_are_others(items.drop_last(), e);
    }
}

/// An added entry is the newest; the oldest make room for it where the cap is
/// reached. An entry that repeats the newest is not added. With deduplication
/// every earlier entry of the same text goes, and the others stay in order. The
/// entries that were in the history file stay counted as far as they stay.
pub proof fn adding_an_entry(log: Log, e: Seq<char>, stamp: Option<i64>)
    requires
        log.wf(),
    ensures
        ({
            let l = log.added(e, stamp);
            let n = log.items.len() as int;
            let before = if log.dedup {
                others(log.items, e)
            } else {
                log.items
            };
            let filed = if log.dedup {
                others(log.items.take(log.persisted), e).len() as int
            } else {
                log.persisted
            };
            let repeats = !log.dedup && n > 0 && log.items[n - 1].0 == e;
            let dropped = before.len() + 1 - l.items.len();
            &&& l.max == log.max
            &&& l.dedup == log.dedup
            &&& repeats ==> l == log
            &&& !repeats ==> are_the_last(l.items, before.push((e, stamp)), log.max)
            &&& !repeats ==> l.persisted == (if filed > dropped {
                filed - dropped
            } else {
                0
            })
        }),
{
    others_are_without(log.items, e);
    others_are_without(log.items.take(log.persisted), e);
    others_are_others(log.items, e);
    crate::log::without_len(log.items, e);
    let before = if log.dedup {
        others(log.items, e)
    } else {
        log.items
    };
    let all = before.push((e, stamp));
    assert(before.len() > 0 ==> before.last() == before[before.len() - 1]);
    let l = log.added(e, stamp);
    if log.dedup {
        assert(before.len() > 0 ==> before.last().0 != e);
    }
}

/// Text with each newline made `; `.
pub open spec fn put_on_one_line(s: Seq<char>) -> Seq<char>
    decreases s.len(),
{
    if s.len() == 0 {
        Seq::empty()
    } else {
        (if s[0] == '\n' {
            seq![';', ' ']
        } else {
            seq![s[0]]
        }) + put_on_one_line(s.skip(1))
    }
}

proof fn one_line_goes_on(s: Seq<char>, c: char)
    ensures
        put_on_one_line(s.push(c)) == put_on_one_line(s) + (if c == '\n' {
            seq![';', ' ']
        } else {
            seq![c]
        }),
    decreases s.len(),
{
    let all = s.push(c);
    let end = if c == '\n' {
        seq![';', ' ']
    } else {
        seq![c]
    };
    if s.len() == 0 {
        assert(all.skip(1) =~= s);
        assert(put_on_one_line(all) =~= put_on_one_line(s) + end);
    } else {
        assert(all.skip(1) =~= s.skip(1).push(c));
        one_line_goes_on(s.skip(1), c);
        assert(put_on_one_line(all) =~= put_on_one_line(s) + end);
    }
}

/// What enters the history is on one line: each newline becomes `; `, and
/// nothing else changes.
pub proof fn entries_are_on_one_line(s: Seq<char>)
    ensures
        one_line(s) == put_on_one_line(s),
    decreases s.len(),
{
    if s.len() > 0 {
        let front = s.drop_last();
        entries_are_on_one_line(front);
        assert(front.push(s.last()) =~= s);
        one_line_goes_on(front, s.last());
        reveal_strlit("; ");
        assert("; "@ =~= seq![';', ' ']);
        assert(one_line(s) =~= put_on_one_line(s));
    }
}

/// Replacing the history leaves the newest of the given entries, all of them
/// counted as filed and none with a timestamp.
pub proof fn replacing_the_history(log: Log, entries: Seq<Seq<char>>)
    requires
        log.wf(),
    ensures
        ({
            let l = log.replaced(entries);
            let n = l.items.len() as int;
            &&& n == (if entries.len() > log.max {
                log.max
            } else {
                entries.len() as int
            })
            &&& l.persisted == n
            &&& l.max == log.max && l.dedup == log.dedup
            &&& forall|i: int|
                0 <= i < n ==> (#[trigger] l.items[i]) == (
                    put_on_one_line(entries[entries.len() - n + i]),
                    None::<i64>,
                )
        }),
{
    let l = log.replaced(entries);
    let n = l.items.len() as int;
    assert forall|i: int| 0 <= i < n implies (#[trigger] l.items[i]) == (
        put_on_one_line(entries[entries.len() - n + i]),
        None::<i64>,
    ) by {
        entries_are_on_one_line(entries[entries.len() - n + i]);
    }
}

/// Setting the cap drops the oldest entries past it, and those alone.
pub proof fn setting_the_cap(log: Log, max: int)
    requires
        log.wf(),
        max >= 0,
    ensures
        ({
            let l = (Log { max, ..log }).capped();
            let dropped = log.items.len() - l.items.len();
            &&& are_the_last(l.items, log.items, max)
            &&& l.max == max
            &&& l.persisted == (if log.persisted > dropped {
                log.persisted - dropped
            } else {
                0
            })
        }),
{
}

/// The file holds the entries in order, each on a line of its own, below its
/// timestamp where timestamps are written and it has one.
pub proof fn writing_the_file(item: Item, rest: Seq<Item>, stamped: bool)
    ensures
        formatted(Seq::empty(), stamped).len() == 0,
        formatted(seq![item] + rest, stamped) == (match item.1 {
            Some(t) => if !stamped {
                Seq::empty()
            } else if t >= 0 {
                seq!['#'] + decimal(t as nat) + seq!['\n']
            } else {
                seq!['#', '-'] + decimal((-t) as nat) + seq!['\n']
            },
            None => Seq::empty(),
        }) + item.0 + seq!['\n'] + formatted(rest, stamped),
{
    crate::histfile::formatted_add(seq![item], rest, stamped);
    reveal_strlit("#");
    reveal_strlit("-");
    reveal_strlit("\n");
    assert("#"@ =~= seq!['#']);
    assert("-"@ =~= seq!['-']);
    assert("\n"@ =~= seq!['\n']);
    let one = seq![item];
    assert(one.drop_last() =~= Seq::<Item>::empty());
    reveal_with_fuel(formatted, 2);
    let text = formatted(one, stamped);
    match item.1 {
        Some(t) => {
            if !stamped {
                assert(text =~= Seq::<char>::empty() + item.0 + seq!['\n']);
            } else if t >= 0 {
                assert(text =~= seq!['#'] + decimal(t as nat) + seq!['\n'] + item.0 + seq!['\n']);
            } else {
                assert(text =~= seq!['#', '-'] + decimal((-t) as nat) + seq!['\n'] + item.0
                    + seq!['\n']);
            }
        },
        None => {
            assert(text =~= Seq::<char>::empty() + item.0 + seq!['\n']);
        },
    }
}

/// A line of a history file that is an entry as it stands: not empty, without a
/// line ending, and not the look of a timestamp.
pub open spec fn is_an_entry(l: Seq<char>) -> bool {
    &&& l.len() > 0
    &&& !l.contains('\n')
    &&& l.last() != '\r'
    &&& l[0] != '#' || l.len() < 10 || exists|k: int|
        0 < k < l.len() && !('0' <= #[trigger] l[k] <= '9')
}

/// A timestamp's line: `#` and nine or more digits, of a number that fits.
pub open spec fn is_a_timestamp(l: Seq<char>) -> bool {
    &&& l.len() >= 10
    &&& l[0] == '#'
    &&& forall|k: int| 0 < k < l.len() ==> '0' <= #[trigger] l[k] <= '9'
    &&& value_of(l.skip(1)) <= i64::MAX
}

/// The header that a file may begin with.
pub open spec fn begins_with_a_header(s: Seq<char>) -> bool {
    s.len() >= 3 && s[0] == '#' && s[1] == 'V' && s[2] == '2'
}

proof fn first_index_is(s: Seq<char>, from: int, k: int, c: char)
    requires
        0 <= from <= k < s.len(),
        s[k] == c,
        forall|i: int| from <= i < k ==> #[trigger] s[i] != c,
    ensures
        first_index(s, from, c) == Some(k),
    decreases k - from,
{
    if from < k {
        assert(s[from] != c);
        first_index_is(s, from + 1, k, c);
    }
}

proof fn no_first_index(s: Seq<char>, from: int, c: char)
    requires
        0 <= from <= s.len(),
        !s.contains(c),
    ensures
        first_index(s, from, c) is None,
    decreases s.len() - from,
{
    if from < s.len() {
        assert(s[from] != c);
        no_first_index(s, from + 1, c);
    }
}

/// The first line of a text.
proof fn the_first_line(l: Seq<char>, rest: Seq<char>)
    requires
        !l.contains('\n'),
        l.len() > 0 ==> l.last() != '\r',
    ensures
        lines(l + seq!['\n'] + rest) == seq![l] + lines(rest),
        lines(l.push('\r') + seq!['\n'] + rest) == seq![l] + lines(rest),
        l.len() > 0 ==> lines(l) == seq![l],
{
    let s = l + seq!['\n'] + rest;
    let k = l.len() as int;
    assert forall|i: int| 0 <= i < k implies #[trigger] s[i] != '\n' by {
        assert(s[i] == l[i]);
        assert(l.contains(l[i]));
    }
    first_index_is(s, 0, k, '\n');
    assert(s.take(k) =~= l);
    assert(s.skip(k + 1) =~= rest);
    let t = l.push('\r') + seq!['\n'] + rest;
    assert forall|i: int| 0 <= i < k + 1 implies #[trigger] t[i] != '\n' by {
        if i < k {
            assert(t[i] == l[i]);
            assert(l.contains(l[i]));
        } else {
            assert(t[i] == '\r');
        }
    }
    assert(t[k + 1] == '\n');
    first_index_is(t, 0, k + 1, '\n');
    assert(t.take(k + 1) =~= l.push('\r'));
    assert(l.push('\r').drop_last() =~= l);
    assert(t.skip(k + 2) =~= rest);
    no_first_index(l, 0, '\n');
}

proof fn digits_make_a_number(s: Seq<char>)
    requires
        forall|k: int| 0 <= k < s.len() ==> '0' <= #[trigger] s[k] <= '9',
    ensures
        number(s) == value_of(s),
    decreases s.len(),
{
    if s.len() > 0 {
        let front = s.drop_last();
        assert forall|k: int| 0 <= k < front.len() implies '0' <= #[trigger] front[k] <= '9' by {
            assert(front[k] == s[k]);
        }
        digits_make_a_number(front);
        assert(s.last() == s[s.len() - 1]);
    }
}

proof fn stamps_are_timestamps(l: Seq<char>)
    ensures
        is_a_timestamp(l) ==> stamp_of(l) == Some(value_of(l.skip(1)) as i64),
        is_an_entry(l) ==> stamp_of(l) is None,
{
    let digits = l.skip(1);
    if is_a_timestamp(l) {
        assert forall|k: int| 0 <= k < digits.len() implies '0' <= #[trigger] digits[k] <= '9' by {
            assert(digits[k] == l[k + 1]);
        }
        assert forall|k: int| 0 <= k < digits.len() implies is_digit(#[trigger] digits[k]) by {
            assert('0' <= digits[k] <= '9');
        }
        digits_make_a_number(digits);
    }
    if is_an_entry(l) && l[0] == '#' && l.len() >= 10 {
        let k = choose|k: int| 0 < k < l.len() && !('0' <= #[trigger] l[k] <= '9');
        assert(digits[k - 1] == l[k]);
        assert(!is_digit(digits[k - 1]));
    }
}

proof fn a_header_is_a_line(s: Seq<char>)
    ensures
        lines(s).len() > 0 && lines(s)[0] == "#V2"@ ==> begins_with_a_header(s),
{
    reveal_strlit("#V2");
    if s.len() > 0 {
        match first_index(s, 0, '\n') {
            Some(k) => {
                if 0 <= k < s.len() {
                    let l = crate::histfile::unreturned(s.take(k));
                    assert(lines(s)[0] == l);
                    if l == "#V2"@ {
                        assert(l[0] == s[0] && l[1] == s[1] && l[2] == s[2]);
                    }
                }
            },
            None => {
                assert(lines(s)[0] == s);
            },
        }
    }
}

proof fn header_line(l: Seq<char>)
    ensures
        l == "#V2"@ <==> l == seq!['#', 'V', '2'],
{
    reveal_strlit("#V2");
    assert("#V2"@ =~= seq!['#', 'V', '2']);
}

/// Reading takes a file line by line: a plain line is an entry without a
/// timestamp, whether its line ends in `\n`, `\r\n` or with the file; an empty
/// one is nothing.
pub proof fn reading_a_line(l: Seq<char>, rest: Seq<char>)
    requires
        is_an_entry(l),
        l != seq!['#', 'V', '2'],
        !begins_with_a_header(rest),
    ensures
        parsed_file(l + seq!['\n'] + rest) == seq![(l, None::<i64>)] + parsed_file(rest),
        parsed_file(l + seq!['\r', '\n'] + rest) == seq![(l, None::<i64>)] + parsed_file(rest),
        parsed_file(l) == seq![(l, None::<i64>)],
        parsed_file(seq!['\n'] + rest) == parsed_file(rest),
        parsed_file(Seq::empty()).len() == 0,
{
    header_line(l);
    header_line(Seq::empty());
    a_header_is_a_line(rest);
    stamps_are_timestamps(l);
    the_first_line(l, rest);
    the_first_line(Seq::empty(), rest);
    let ls = lines(rest);
    let all = seq![l] + ls;
    assert(all.skip(1) =~= ls);
    assert(all[0] == l);
    assert(l.push('\r') + seq!['\n'] + rest =~= l + seq!['\r', '\n'] + rest);
    assert(Seq::<char>::empty() + seq!['\n'] + rest =~= seq!['\n'] + rest);
    let blank = seq![Seq::<char>::empty()] + ls;
    assert(blank.skip(1) =~= ls);
    assert(blank[0].len() == 0);
    assert(seq![l].skip(1) =~= Seq::<Seq<char>>::empty());
    reveal_with_fuel(parsed, 2);
    assert(seq![(l, None::<i64>)] + Seq::<Item>::empty() =~= seq![(l, None::<i64>)]);
}

/// A timestamp goes with the line below it, whatever that looks like; at the end
/// of the file it is an entry itself. A header is passed over.
pub proof fn reading_a_timestamp(t: Seq<char>, l: Seq<char>, rest: Seq<char>)
    requires
        is_a_timestamp(t),
        l.len() > 0,
        !l.contains('\n'),
        l.last() != '\r',
        !begins_with_a_header(rest),
    ensures
        parsed_file(t + seq!['\n'] + (l + seq!['\n'] + rest)) == seq![
            (l, Some(value_of(t.skip(1)) as i64)),
        ] + parsed_file(rest),
        parsed_file(t) == seq![(t, None::<i64>)],
        parsed_file(seq!['#', 'V', '2', '\n'] + rest) == parsed_file(rest),
{
    header_line(t);
    assert(!t.contains('\n')) by {
        assert forall|k: int| 0 <= k < t.len() implies #[trigger] t[k] != '\n' by {
            if k > 0 {
                assert('0' <= t[k] <= '9');
            }
        }
    }
    assert(t.last() == t[t.len() - 1]);
    a_header_is_a_line(rest);
    stamps_are_timestamps(t);
    the_first_line(l, rest);
    the_first_line(t, l + seq!['\n'] + rest);
    let ls = lines(rest);
    let all = seq![t] + (seq![l] + ls);
    assert(all[0] == t);
    assert(all[1] == l);
    assert(all.skip(1)[0] == l);
    assert(gap(all.skip(1)) == 0);
    assert(all.skip(2) =~= ls);
    assert(seq![t].skip(1) =~= Seq::<Seq<char>>::empty());
    assert(gap(seq![t].skip(1)) == 0);
    let header = seq!['#', 'V', '2'];
    the_first_line(header, rest);
    assert(header + seq!['\n'] + rest =~= seq!['#', 'V', '2', '\n'] + rest);
    header_line(header);
    let headed = seq![header] + ls;
    assert(headed[0] == header);
    assert(headed.skip(1) =~= ls);
}

/// A line begins with what it is seeded with, the cursor between the two parts;
/// its prompt is what was given, split before its last line.
pub proof fn a_line_begins(
    prompt: Seq<char>,
    rprompt: Seq<char>,
    cols: int,
    vi: bool,
    cfg: EditorConfig,
    left: Seq<char>,
    right: Seq<char>,
    next: Option<(int, Seq<char>)>,
    history: Seq<Seq<char>>,
)
    ensures
        ({
            let l = begun(prompt, rprompt, cols, vi, cfg, Some((left, right)), next, history);
            let empty = begun(prompt, rprompt, cols, vi, cfg, None, None, history);
            &&& l.buffer == left + right
            &&& l.cursor == left.len()
            &&& empty.buffer.len() == 0 && empty.cursor == 0
            &&& l.hist_index is None && empty.hist_index is None
            &&& forall|b: Line|
                b == l || b == empty ==> {
                    &&& #[trigger] b.head + b.prompt == prompt
                    &&& !b.prompt.contains('\n')
                    &&& b.head.len() > 0 ==> b.head.last() == '\n'
                    &&& b.rprompt == rprompt
                    &&& b.fresh
                    &&& b.undo.len() == 0
                    &&& b.search is None && b.menu is None
                    &&& !b.vi_normal
                }
        }),
{
    the_last_line_starts(prompt);
    let k = last_line_start(prompt);
    assert(prompt.take(k) + prompt.skip(k) =~= prompt);
    assert forall|i: int| 0 <= i < prompt.skip(k).len() implies #[trigger] prompt.skip(k)[i]
        != '\n' by {
        assert(prompt.skip(k)[i] == prompt[k + i]);
    }
}

proof fn the_last_with_a_text(history: Seq<Seq<char>>, n: int, text: Seq<char>)
    requires
        0 <= n <= history.len(),
    ensures
        match last_with(history, n, text) {
            Some(j) => 0 <= j < n && history[j] == text && (forall|k: int|
                j < k < n ==> #[trigger] history[k] != text),
            None => forall|k: int| 0 <= k < n ==> #[trigger] history[k] != text,
        },
    decreases n,
{
    if n > 0 && history[n - 1] != text {
        the_last_with_a_text(history, n - 1, text);
    }
}

/// A line that follows operate-and-get-next begins with the entry that was asked
/// for, the cursor at its end: where it was, or, if the history has shifted, the
/// newest entry of the same text. If that is gone, it begins empty.
pub proof fn a_line_begins_with_the_entry_asked_for(
    prompt: Seq<char>,
    rprompt: Seq<char>,
    cols: int,
    vi: bool,
    cfg: EditorConfig,
    i: int,
    text: Seq<char>,
    history: Seq<Seq<char>>,
)
    requires
        i >= 0,
    ensures
        ({
            let l = begun(prompt, rprompt, cols, vi, cfg, None, Some((i, text)), history);
            let there = i < history.len() && history[i] == text;
            if exists|k: int| 0 <= k < history.len() && #[trigger] history[k] == text {
                &&& l.buffer == text
                &&& l.cursor == text.len()
                &&& l.hist_index matches Some(j) && 0 <= j < history.len() && history[j] == text
                    && (there ==> j == i) && (!there ==> forall|k: int|
                    j < k < history.len() ==> #[trigger] history[k] != text)
            } else {
                &&& l.buffer.len() == 0
                &&& l.cursor == 0
                &&& l.hist_index is None
            }
        }),
{
    the_last_with_a_text(history, history.len() as int, text);
    if exists|k: int| 0 <= k < history.len() && #[trigger] history[k] == text {
        let k = choose|k: int| 0 <= k < history.len() && #[trigger] history[k] == text;
        assert(last_with(history, history.len() as int, text) is Some);
    }
    let at = located(history, i, text);
    assert(at matches Some(j) ==> history[j] == text);
}

/// A line is kept out of the history where spaces are to keep it out and it
/// begins with one, and only there.
pub proof fn a_space_keeps_a_line_out(ed: Editor, rest: Seq<char>, c: char)
    ensures
        ed.ignores(seq![c] + rest) <==> ed.ignore_space && c == ' ',
        !ed.ignores(Seq::empty()),
{
    assert((seq![c] + rest)[0] == c);
}

proof fn the_last_line_starts(p: Seq<char>)
    ensures
        0 <= last_line_start(p) <= p.len(),
        last_line_start(p) > 0 ==> p[last_line_start(p) - 1] == '\n',
        forall|i: int| last_line_start(p) <= i < p.len() ==> #[trigger] p[i] != '\n',
    decreases p.len(),
{
    if p.len() > 0 && p.last() != '\n' {
        let front = p.drop_last();
        the_last_line_starts(front);
        assert forall|i: int| last_line_start(p) <= i < p.len() implies #[trigger] p[i] != '\n' by {
            if i < front.len() {
                assert(front[i] == p[i]);
            }
        }
    }
}

/// A line ends with its text when it is accepted, and not before it is
/// accepted, interrupted or at its end of file.
pub proof fn a_line_ends(line: Line, after: AfterKey)
    ensures
        ({
            let end = ending(line, after);
            &&& after == AfterKey::Accept <==> end == Some(ReadEnd::Line(line.buffer))
            &&& after == AfterKey::Interrupted <==> end == Some(ReadEnd::Interrupted)
            &&& after == AfterKey::Eof <==> end == Some(ReadEnd::Eof)
            &&& after != AfterKey::Accept && after != AfterKey::Interrupted && after
                != AfterKey::Eof ==> end is None
        }),
{
}

/// A plain read gives the bytes before the line's end, without the `\r` of a
/// CRLF; only the end of the input with nothing before it is end of file. A
/// buffered read gives the line without any of its ending.
pub proof fn reading_plainly(bytes: Seq<u8>, ended: bool, line: Seq<char>, ending: Seq<char>)
    requires
        line.len() > 0 ==> line.last() != '\n' && line.last() != '\r',
        forall|k: int| 0 <= k < ending.len() ==> #[trigger] ending[k] == '\n' || ending[k] == '\r',
    ensures
        plain_end(bytes, ended) == ReadEnd::Eof <==> ended && bytes.len() == 0,
        plain_end(bytes.push(0x0d), ended) == ReadEnd::Line(lossy_utf8(bytes)),
        !(ended && bytes.len() == 0) && (bytes.len() > 0 ==> bytes[bytes.len() - 1] != 0x0d)
            ==> plain_end(bytes, ended) == ReadEnd::Line(lossy_utf8(bytes)),
        unended(line + ending) == line,
    decreases ending.len(),
{
    assert(bytes.push(0x0d).drop_last() =~= bytes);
    let all = line + ending;
    if ending.len() == 0 {
        assert(all =~= line);
    } else {
        let front = ending.drop_last();
        assert forall|k: int| 0 <= k < front.len() implies #[trigger] front[k] == '\n' || front[k]
            == '\r' by {
            assert(front[k] == ending[k]);
        }
        reading_plainly(bytes, ended, line, front);
        assert(all.last() == ending[ending.len() - 1]);
        assert(all.drop_last() =~= line + front);
    }
}

} // verus!
