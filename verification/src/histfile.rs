//! The history file format: one entry per line, optionally preceded by a
//! `#<epoch>` timestamp line (bash's `HISTTIMEFORMAT` format).
use vstd::prelude::*;

use crate::log::{all_distinct, no_repeats, on_one_line, one_line, without, History, Item, Log};
use crate::text::{
    chars_of, decimal, digit, first_index, index_from, push_decimal, push_str, rows, same, slice,
    string_of,
};

verus! {

/// A timestamp in decimal.
pub open spec fn signed(t: i64) -> Seq<char> {
    if t < 0 {
        "-"@ + decimal((-t) as nat)
    } else {
        decimal(t as nat)
    }
}

/// One entry in the file: its timestamp line, if timestamps are written and it
/// has one, and its text.
pub open spec fn entry_text(item: Item, stamped: bool) -> Seq<char> {
    match item.1 {
        Some(t) => if stamped {
            "#"@ + signed(t) + "\n"@ + item.0 + "\n"@
        } else {
            item.0 + "\n"@
        },
        None => item.0 + "\n"@,
    }
}

/// Entries in the file.
pub open spec fn formatted(items: Seq<Item>, stamped: bool) -> Seq<char>
    decreases items.len(),
{
    if items.len() == 0 {
        Seq::empty()
    } else {
        formatted(items.drop_last(), stamped) + entry_text(items.last(), stamped)
    }
}

/// The lines of a text: a line ends in `\n` or `\r\n`; the last one need not.
pub open spec fn lines(s: Seq<char>) -> Seq<Seq<char>>
    decreases s.len(),
{
    if s.len() == 0 {
        Seq::empty()
    } else {
        match first_index(s, 0, '\n') {
            Some(k) => if 0 <= k < s.len() {
                seq![unreturned(s.take(k))] + lines(s.skip(k + 1))
            } else {
                Seq::empty()
            },
            None => seq![s],
        }
    }
}

/// A line without the `\r` of its ending.
pub open spec fn unreturned(s: Seq<char>) -> Seq<char> {
    if s.len() > 0 && s.last() == '\r' {
        s.drop_last()
    } else {
        s
    }
}

/// A decimal digit.
pub open spec fn is_digit(c: char) -> bool {
    '0' <= c <= '9'
}

/// The number that some digits are.
pub open spec fn number(s: Seq<char>) -> nat
    decreases s.len(),
{
    if s.len() == 0 {
        0
    } else {
        number(s.drop_last()) * 10 + (s.last() as u32 - '0' as u32) as nat
    }
}

/// The timestamp that a line is: `#` and nine or more digits. (A shorter one is
/// a comment somebody typed.)
pub open spec fn stamp_of(s: Seq<char>) -> Option<i64> {
    let digits = s.skip(1);
    if s.len() >= 10 && s[0] == '#' && (forall|i: int|
        0 <= i < digits.len() ==> is_digit(#[trigger] digits[i])) && number(digits) <= i64::MAX {
        Some(number(digits) as i64)
    } else {
        None
    }
}

/// How many empty lines come first.
pub open spec fn gap(ls: Seq<Seq<char>>) -> int
    decreases ls.len(),
{
    if ls.len() > 0 && ls[0].len() == 0 {
        1 + gap(ls.skip(1))
    } else {
        0
    }
}

/// The entries of some lines. A timestamp goes with the next line that is not
/// empty, whatever that looks like; with no such line it is itself an entry.
pub open spec fn parsed(ls: Seq<Seq<char>>) -> Seq<Item>
    decreases ls.len(),
{
    if ls.len() == 0 {
        Seq::empty()
    } else if ls[0].len() == 0 {
        parsed(ls.skip(1))
    } else {
        match stamp_of(ls[0]) {
            None => seq![(ls[0], None::<i64>)] + parsed(ls.skip(1)),
            Some(t) => {
                let k = 1 + gap(ls.skip(1));
                if 0 < k < ls.len() {
                    seq![(ls[k], Some(t))] + parsed(ls.skip(k + 1))
                } else {
                    seq![(ls[0], None::<i64>)]
                }
            },
        }
    }
}

/// The entries of a history file; a leading `#V2` header is skipped.
pub open spec fn parsed_file(s: Seq<char>) -> Seq<Item> {
    let ls = lines(s);
    if ls.len() > 0 && ls[0] == "#V2"@ {
        parsed(ls.skip(1))
    } else {
        parsed(ls)
    }
}

/// An entry that was read.
pub open spec fn as_item(e: (Vec<char>, Option<i64>)) -> Item {
    (e.0@, e.1)
}

/// Entries that were read.
pub open spec fn read_items(v: Seq<(Vec<char>, Option<i64>)>) -> Seq<Item> {
    Seq::new(v.len(), |i: int| as_item(v[i]))
}

fn push_signed(out: &mut Vec<char>, t: i64)
    ensures
        final(out)@ == old(out)@ + signed(t),
{
    if t < 0 {
        let ghost before = out@;
        push_str(out, "-");
        let m: i128 = 0 - (t as i128);
        push_decimal(out, m as u64);
        assert(out@ =~= before + ("-"@ + decimal((-t) as nat)));
    } else {
        push_decimal(out, t as u64);
    }
}

fn split_lines(s: &[char]) -> (r: Vec<Vec<char>>)
    ensures
        rows(r@) == lines(s@),
{
    let mut out: Vec<Vec<char>> = Vec::new();
    let mut i: usize = 0;
    let ghost all = lines(s@);
    assert(s@.skip(0) =~= s@);
    assert(rows(out@) + all =~= all);
    while i < s.len()
        invariant
            i <= s@.len(),
            all == lines(s@),
            all == rows(out@) + lines(s@.skip(i as int)),
        decreases s@.len() - i,
    {
        let ghost before = rows(out@);
        let rest = slice(s, i, s.len());
        assert(rest@ =~= s@.skip(i as int));
        match index_from(rest.as_slice(), 0, '\n') {
            Some(k) => {
                let end = if k > 0 && rest[k - 1] == '\r' {
                    k - 1
                } else {
                    k
                };
                let line = slice(rest.as_slice(), 0, end);
                assert(rest@.take(k as int).len() == k);
                assert(k > 0 ==> rest@.take(k as int).last() == rest@[k - 1]);
                assert(line@ =~= unreturned(rest@.take(k as int)));
                out.push(line);
                assert(rows(out@) =~= before.push(line@));
                assert(rest@.skip(k + 1) =~= s@.skip(i + k + 1));
                i += k + 1;
                assert(before + (seq![line@] + lines(s@.skip(i as int))) =~= rows(out@) + lines(
                    s@.skip(i as int),
                ));
            },
            None => {
                out.push(rest);
                assert(rows(out@) =~= before + seq![rest@]);
                return out;
            },
        }
    }
    assert(rows(out@) + Seq::<Seq<char>>::empty() =~= rows(out@));
    out
}

/// More digits make no smaller number.
proof fn number_grows(s: Seq<char>, i: int)
    requires
        0 <= i <= s.len(),
    ensures
        number(s.take(i)) <= number(s),
    decreases s.len() - i,
{
    if i < s.len() {
        number_grows(s, i + 1);
        assert(s.take(i + 1).drop_last() =~= s.take(i));
    } else {
        assert(s.take(i) =~= s);
    }
}

fn read_stamp(s: &[char]) -> (r: Option<i64>)
    ensures
        r == stamp_of(s@),
{
    if s.len() < 10 || s[0] != '#' {
        return None;
    }
    let ghost digits = s@.skip(1);
    let mut v: u64 = 0;
    let mut i: usize = 1;
    let max: u64 = i64::MAX as u64;
    assert(digits.take(0) =~= Seq::<char>::empty());
    while i < s.len()
        invariant
            1 <= i <= s@.len(),
            s@.len() >= 10,
            digits == s@.skip(1),
            max == i64::MAX,
            v <= max,
            v == number(digits.take(i - 1)),
            forall|k: int| 0 <= k < i - 1 ==> is_digit(#[trigger] digits[k]),
        decreases s@.len() - i,
    {
        let c = s[i];
        assert(digits[i - 1] == c);
        if !('0' <= c && c <= '9') {
            assert(!is_digit(digits[i - 1]));
            return None;
        }
        let d = (c as u32 - 48) as u64;
        assert(digits.take(i as int).drop_last() =~= digits.take(i - 1));
        if v > (max - d) / 10 {
            proof {
                number_grows(digits, i as int);
            }
            return None;
        }
        v = v * 10 + d;
        i += 1;
    }
    assert(digits.take(i - 1) =~= digits);
    Some(v as i64)
}

fn parse_lines(ls: &Vec<Vec<char>>, from: usize) -> (r: Vec<(Vec<char>, Option<i64>)>)
    requires
        from <= ls@.len(),
    ensures
        read_items(r@) == parsed(rows(ls@).skip(from as int)),
{
    let ghost all = rows(ls@);
    let ghost goal = parsed(all.skip(from as int));
    let mut out: Vec<(Vec<char>, Option<i64>)> = Vec::new();
    let mut i: usize = from;
    assert(read_items(out@) + goal =~= goal);
    while i < ls.len()
        invariant
            i <= ls@.len(),
            all == rows(ls@),
            goal == parsed(all.skip(from as int)),
            goal == read_items(out@) + parsed(all.skip(i as int)),
        decreases ls@.len() - i,
    {
        let ghost rest = all.skip(i as int);
        let ghost before = read_items(out@);
        assert(rest[0] == ls@[i as int]@);
        assert(rest.skip(1) =~= all.skip(i + 1));
        if ls[i].len() == 0 {
            i += 1;
        } else {
            match read_stamp(ls[i].as_slice()) {
                None => {
                    let line = crate::text::copy(ls[i].as_slice());
                    out.push((line, None));
                    assert(read_items(out@) =~= before.push((rest[0], None::<i64>)));
                    i += 1;
                    assert(before + (seq![(rest[0], None::<i64>)] + parsed(all.skip(i as int)))
                        =~= read_items(out@) + parsed(all.skip(i as int)));
                },
                Some(t) => {
                    let mut k: usize = i + 1;
                    assert(all.skip(i + 1) =~= rest.skip(1));
                    while k < ls.len() && ls[k].len() == 0
                        invariant
                            i < k <= ls@.len(),
                            all == rows(ls@),
                            gap(all.skip(i + 1)) == k - i - 1 + gap(all.skip(k as int)),
                        decreases ls@.len() - k,
                    {
                        assert(all.skip(k as int)[0] == ls@[k as int]@);
                        assert(all.skip(k as int).skip(1) =~= all.skip(k + 1));
                        k += 1;
                    }
                    assert(k < ls@.len() ==> all.skip(k as int)[0] == ls@[k as int]@);
                    assert(gap(all.skip(k as int)) == 0);
                    if k < ls.len() {
                        let line = crate::text::copy(ls[k].as_slice());
                        assert(rest[k - i] == all[k as int]);
                        assert(rest.skip(k - i + 1) =~= all.skip(k + 1));
                        out.push((line, Some(t)));
                        assert(read_items(out@) =~= before.push((all[k as int], Some(t))));
                        i = k + 1;
                        assert(before + (seq![(all[k as int], Some(t))] + parsed(
                            all.skip(i as int),
                        )) =~= read_items(out@) + parsed(all.skip(i as int)));
                    } else {
                        let line = crate::text::copy(ls[i].as_slice());
                        out.push((line, None));
                        assert(read_items(out@) =~= before + seq![(rest[0], None::<i64>)]);
                        return out;
                    }
                },
            }
        }
    }
    assert(read_items(out@) + Seq::<Item>::empty() =~= read_items(out@));
    out
}

/// The entries of a history file's text.
pub fn parse_history(text: &str) -> (r: Vec<(Vec<char>, Option<i64>)>)
    ensures
        read_items(r@) == parsed_file(text@),
{
    let v = chars_of(text);
    let ls = split_lines(v.as_slice());
    let header = chars_of("#V2");
    if ls.len() > 0 && same(ls[0].as_slice(), header.as_slice()) {
        assert(rows(ls@)[0] == ls@[0]@);
        parse_lines(&ls, 1)
    } else {
        assert(ls@.len() > 0 ==> rows(ls@)[0] == ls@[0]@);
        assert(rows(ls@).skip(0) =~= rows(ls@));
        parse_lines(&ls, 0)
    }
}

impl History {
    /// The entries from `from` on in the file format; `#<epoch>` comment lines
    /// only when `stamped`.
    pub fn format_entries(&self, from: usize, stamped: bool) -> (r: String)
        requires
            self.wf(),
            from <= self@.items.len(),
        ensures
            r@ == formatted(self@.items.skip(from as int), stamped),
    {
        let ghost all = self@.items.skip(from as int);
        let mut out: Vec<char> = Vec::new();
        let mut i: usize = from;
        while i < self.entries.len()
            invariant
                self.wf(),
                from <= i <= self.entries@.len(),
                all == self@.items.skip(from as int),
                out@ == formatted(all.take(i - from), stamped),
            decreases self.entries@.len() - i,
        {
            let ghost before = out@;
            match self.stamps[i] {
                Some(t) => if stamped {
                    push_str(&mut out, "#");
                    push_signed(&mut out, t);
                    push_str(&mut out, "\n");
                },
                None => {},
            }
            push_str(&mut out, self.entries[i].as_str());
            push_str(&mut out, "\n");
            i += 1;
            assert(all.take(i - from).drop_last() =~= all.take(i - 1 - from));
            assert(all.take(i - from).last() == all[i - 1 - from]);
            assert(out@ =~= before + entry_text(all[i - 1 - from], stamped));
        }
        assert(all.take(i - from) =~= all);
        string_of(out.as_slice())
    }

    /// Load the text of a history file: plain lines; a `#<epoch>` comment line
    /// stamps the entry that follows it; a leading `#V2` header is skipped. A
    /// lone comment of nine or more digits that is followed by another entry is
    /// read as that entry's timestamp: the format cannot tell them apart.
    pub fn load_text(&mut self, text: &str)
        requires
            old(self).wf(),
        ensures
            final(self)@ == old(self)@.all_added(parsed_file(text@)).all_persisted(),
            final(self).wf(),
    {
        let items = parse_history(text);
        let ghost all = read_items(items@);
        let mut i: usize = 0;
        while i < items.len()
            invariant
                i <= items@.len(),
                all == read_items(items@),
                self.wf(),
                self@ == old(self)@.all_added(all.take(i as int)),
            decreases items@.len() - i,
        {
            let line = string_of(items[i].0.as_slice());
            self.add_entry(line.as_str(), items[i].1);
            i += 1;
            assert(all.take(i as int).drop_last() =~= all.take(i - 1));
            assert(all.take(i as int).last() == all[i - 1]);
        }
        assert(all.take(i as int) =~= all);
        self.mark_persisted();
    }

    /// The text of a full save, and the entries it makes persisted.
    pub fn save_text(&mut self, stamped: bool) -> (r: String)
        requires
            old(self).wf(),
        ensures
            r@ == formatted(old(self)@.items, stamped),
            final(self)@ == old(self)@.all_persisted(),
            final(self).wf(),
    {
        let r = self.format_entries(0, stamped);
        assert(self@.items.skip(0) =~= self@.items);
        self.mark_persisted();
        r
    }

    /// The text to append to the file: only the entries added since the last
    /// load, save or append.
    pub fn append_text(&mut self, stamped: bool) -> (r: String)
        requires
            old(self).wf(),
        ensures
            r@ == formatted(old(self)@.items.skip(old(self)@.persisted), stamped),
            final(self)@ == old(self)@.all_persisted(),
            final(self).wf(),
    {
        let r = self.format_entries(self.persisted, stamped);
        self.mark_persisted();
        r
    }
}

/// The file of two runs of entries is the file of the first with that of the
/// second appended.
pub proof fn formatted_add(a: Seq<Item>, b: Seq<Item>, stamped: bool)
    ensures
        formatted(a + b, stamped) == formatted(a, stamped) + formatted(b, stamped),
    decreases b.len(),
{
    if b.len() == 0 {
        assert(a + b =~= a);
        assert(formatted(a, stamped) + Seq::<char>::empty() =~= formatted(a, stamped));
    } else {
        assert((a + b).drop_last() =~= a + b.drop_last());
        assert((a + b).last() == b.last());
        formatted_add(a, b.drop_last(), stamped);
        assert(formatted(a, stamped) + formatted(b.drop_last(), stamped) + entry_text(
            b.last(),
            stamped,
        ) =~= formatted(a, stamped) + formatted(b, stamped));
    }
}

/// Appending what is new to the file of what is persisted gives the file of the
/// whole history.
pub proof fn append_completes_the_file(log: Log, stamped: bool)
    requires
        log.wf(),
    ensures
        formatted(log.items.take(log.persisted), stamped) + formatted(
            log.items.skip(log.persisted),
            stamped,
        ) == formatted(log.items, stamped),
{
    formatted_add(log.items.take(log.persisted), log.items.skip(log.persisted), stamped);
    assert(log.items.take(log.persisted) + log.items.skip(log.persisted) =~= log.items);
}

/// An entry that the format tells apart: not empty, without a `\r` at its end,
/// and either written with an epoch-scale timestamp or not looking like one
/// itself (which only the last entry may).
pub open spec fn writable(item: Item, stamped: bool, last: bool) -> bool {
    &&& item.0.len() > 0
    &&& item.0.last() != '\r'
    &&& if stamped && item.1 is Some {
        item.1->0 >= 100_000_000
    } else {
        last || stamp_of(item.0) is None
    }
}

/// Entries that the format tells apart.
pub open spec fn all_writable(items: Seq<Item>, stamped: bool) -> bool {
    forall|i: int|
        0 <= i < items.len() ==> writable(#[trigger] items[i], stamped, i == items.len() - 1)
}

/// An entry as it comes back: without its timestamp, where none is written.
pub open spec fn restored(item: Item, stamped: bool) -> Item {
    (
        item.0,
        if stamped {
            item.1
        } else {
            None
        },
    )
}

/// Entries as they come back.
pub open spec fn all_restored(items: Seq<Item>, stamped: bool) -> Seq<Item> {
    Seq::new(items.len(), |i: int| restored(items[i], stamped))
}

/// A line without newlines comes first among the lines.
proof fn first_line(s: Seq<char>, rest: Seq<char>)
    requires
        forall|i: int| 0 <= i < s.len() ==> #[trigger] s[i] != '\n',
    ensures
        lines(s + "\n"@ + rest) == seq![unreturned(s)] + lines(rest),
{
    reveal_strlit("\n");
    let all = s + "\n"@ + rest;
    newline_found(s, rest, 0);
    assert(all.take(s.len() as int) =~= s);
    assert(all.skip(s.len() as int + 1) =~= rest);
}

proof fn newline_found(s: Seq<char>, rest: Seq<char>, from: int)
    requires
        0 <= from <= s.len(),
        forall|i: int| 0 <= i < s.len() ==> #[trigger] s[i] != '\n',
    ensures
        first_index(s + "\n"@ + rest, from, '\n') == Some(s.len() as int),
    decreases s.len() - from,
{
    reveal_strlit("\n");
    let all = s + "\n"@ + rest;
    if from < s.len() {
        assert(all[from] == s[from]);
        newline_found(s, rest, from + 1);
    } else {
        assert(all[from] == '\n');
    }
}

/// A number's digits are digits, and are that number again.
proof fn decimal_digits(n: nat)
    ensures
        number(decimal(n)) == n,
        decimal(n).len() > 0,
        forall|i: int| 0 <= i < decimal(n).len() ==> is_digit(#[trigger] decimal(n)[i]),
    decreases n,
{
    if n < 10 {
        let s = decimal(n);
        assert(s.drop_last() =~= Seq::<char>::empty());
        assert(number(s.drop_last()) == 0);
        assert(digit(n) as u32 == '0' as u32 + n);
    } else {
        decimal_digits(n / 10);
        let s = decimal(n);
        assert(s.drop_last() =~= decimal(n / 10));
        assert(digit(n % 10) as u32 == '0' as u32 + n % 10);
    }
}

proof fn decimal_len(n: nat)
    requires
        n >= 100_000_000,
    ensures
        decimal(n).len() >= 9,
{
    reveal_with_fuel(decimal, 9);
}

/// A timestamp line is read as that timestamp.
proof fn stamp_reads_back(t: i64)
    requires
        t >= 100_000_000,
    ensures
        stamp_of("#"@ + signed(t)) == Some(t),
        ("#"@ + signed(t)).last() != '\r',
        forall|i: int|
            0 <= i < ("#"@ + signed(t)).len() ==> #[trigger] ("#"@ + signed(t))[i] != '\n',
{
    reveal_strlit("#");
    decimal_digits(t as nat);
    decimal_len(t as nat);
    let d = decimal(t as nat);
    let s = "#"@ + signed(t);
    assert(s.skip(1) =~= d);
    assert(s.last() == d.last());
    assert(is_digit(d[d.len() - 1]));
    assert forall|i: int| 0 <= i < s.len() implies #[trigger] s[i] != '\n' by {
        if i > 0 {
            assert(s[i] == d[i - 1]);
            assert(is_digit(d[i - 1]));
        }
    }
}

/// What one entry adds in front of the rest.
proof fn entry_reads_back(item: Item, rest: Seq<char>, stamped: bool)
    requires
        writable(item, stamped, rest.len() == 0),
        !item.0.contains('\n'),
    ensures
        parsed(lines(entry_text(item, stamped) + rest)) == seq![restored(item, stamped)] + parsed(
            lines(rest),
        ),
        lines(entry_text(item, stamped) + rest).len() > 0,
        lines(entry_text(item, stamped) + rest)[0] == "#V2"@ ==> item.0 == "#V2"@ && !(stamped
            && item.1 is Some),
{
    let text = item.0;
    first_line(text, rest);
    assert(unreturned(text) == text);
    let tail = lines(text + "\n"@ + rest);
    assert(tail =~= seq![text] + lines(rest));
    assert(tail.skip(1) =~= lines(rest));
    if stamped && item.1 is Some {
        let t = item.1->0;
        let head = "#"@ + signed(t);
        stamp_reads_back(t);
        first_line(head, text + "\n"@ + rest);
        assert(unreturned(head) == head);
        let all = entry_text(item, stamped) + rest;
        assert(all =~= head + "\n"@ + (text + "\n"@ + rest));
        let ls = lines(all);
        assert(ls =~= seq![head] + tail);
        assert(ls.skip(1) =~= tail);
        assert(gap(tail) == 0);
        assert(ls[1] == text);
        assert(ls.skip(2) =~= lines(rest));
        reveal_strlit("#V2");
        assert(head.len() >= 10) by {
            reveal_strlit("#");
            decimal_len(t as nat);
        }
        assert("#V2"@.len() == 3);
    } else {
        assert(entry_text(item, stamped) + rest =~= text + "\n"@ + rest);
    }
}

proof fn entries_read_back(items: Seq<Item>, stamped: bool)
    requires
        all_writable(items, stamped),
        on_one_line(items),
    ensures
        parsed(lines(formatted(items, stamped))) == all_restored(items, stamped),
    decreases items.len(),
{
    if items.len() == 0 {
        assert(all_restored(items, stamped) =~= Seq::<Item>::empty());
    } else {
        let first = items.take(1);
        let rest = items.skip(1);
        assert(items =~= first + rest);
        formatted_add(first, rest, stamped);
        assert(first.drop_last() =~= Seq::<Item>::empty());
        assert(formatted(first.drop_last(), stamped) =~= Seq::<char>::empty());
        assert(formatted(first, stamped) =~= entry_text(items[0], stamped));
        assert forall|i: int| 0 <= i < rest.len() implies writable(
            #[trigger] rest[i],
            stamped,
            i == rest.len() - 1,
        ) by {
            assert(rest[i] == items[i + 1]);
        }
        assert forall|i: int| 0 <= i < rest.len() implies !(#[trigger] rest[i]).0.contains(
            '\n',
        ) by {
            assert(rest[i] == items[i + 1]);
        }
        assert(writable(items[0], stamped, items.len() == 1));
        entries_read_back(rest, stamped);
        entry_reads_back(items[0], formatted(rest, stamped), stamped);
        assert(all_restored(items, stamped) =~= seq![restored(items[0], stamped)]
            + all_restored(rest, stamped));
    }
}

/// What is saved is read back: the texts in their order, and the timestamps
/// where they are written. (An entry that the format cannot tell from a
/// timestamp or a header, and one that does not fit on a line, are left out.)
pub proof fn saved_reads_back(items: Seq<Item>, stamped: bool)
    requires
        all_writable(items, stamped),
        on_one_line(items),
        items.len() > 0 && items[0].0 == "#V2"@ ==> stamped && items[0].1 is Some,
    ensures
        parsed_file(formatted(items, stamped)) == all_restored(items, stamped),
{
    entries_read_back(items, stamped);
    if items.len() > 0 {
        let first = items.take(1);
        let rest = items.skip(1);
        assert(items =~= first + rest);
        formatted_add(first, rest, stamped);
        assert(first.drop_last() =~= Seq::<Item>::empty());
        assert(formatted(first.drop_last(), stamped) =~= Seq::<char>::empty());
        assert(formatted(first, stamped) =~= entry_text(items[0], stamped));
        assert(writable(items[0], stamped, items.len() == 1));
        entry_reads_back(items[0], formatted(rest, stamped), stamped);
    }
}

proof fn clean_is_one_line(s: Seq<char>)
    requires
        !s.contains('\n'),
    ensures
        one_line(s) == s,
    decreases s.len(),
{
    if s.len() > 0 {
        assert(s.last() == s[s.len() - 1]);
        clean_is_one_line(s.drop_last());
        assert(s.drop_last().push(s.last()) =~= s);
    } else {
        assert(one_line(s) =~= s);
    }
}

proof fn adding_all(log: Log, items: Seq<Item>)
    requires
        log.items.len() == 0,
        log.persisted == 0,
        items.len() <= log.max,
        if log.dedup {
            all_distinct(items)
        } else {
            no_repeats(items)
        },
        on_one_line(items),
    ensures
        log.all_added(items) == (Log { items, ..log }),
    decreases items.len(),
{
    if items.len() == 0 {
        assert(log.items =~= items);
    } else {
        let front = items.drop_last();
        let last = items.last();
        assert(last == items[items.len() - 1]);
        adding_all(log, front);
        clean_is_one_line(last.0);
        let before = Log { items: front, ..log };
        assert(log.all_added(front) == before);
        if log.dedup {
            nothing_to_erase(front, last.0);
            assert(without(front.take(0), last.0) =~= Seq::<Item>::empty());
            assert(front.len() > 0 ==> front.last() == items[front.len() - 1]);
        } else if front.len() > 0 {
            assert(items[front.len() as int].0 != items[front.len() - 1].0);
            assert(front.last() == items[front.len() - 1]);
        }
        assert(front.push(last) =~= items);
    }
}

proof fn nothing_to_erase(items: Seq<Item>, e: Seq<char>)
    requires
        forall|i: int| 0 <= i < items.len() ==> (#[trigger] items[i]).0 != e,
    ensures
        without(items, e) == items,
    decreases items.len(),
{
    if items.len() > 0 {
        assert(items.last() == items[items.len() - 1]);
        nothing_to_erase(items.drop_last(), e);
        assert(items.drop_last().push(items.last()) =~= items);
    } else {
        assert(without(items, e) =~= items);
    }
}

/// A history that is saved and loaded into an empty one comes back whole:
/// every entry, and every timestamp that was written. All of it counts as
/// persisted, so that appending right after writes nothing.
pub proof fn load_undoes_save(log: Log, fresh: Log, stamped: bool)
    requires
        log.wf(),
        fresh.items.len() == 0,
        fresh.persisted == 0,
        log.items.len() <= fresh.max,
        if fresh.dedup {
            all_distinct(log.items)
        } else {
            no_repeats(log.items)
        },
        all_writable(log.items, stamped),
        log.items.len() > 0 && log.items[0].0 == "#V2"@ ==> stamped && log.items[0].1 is Some,
    ensures
        ({
            let back = fresh.all_added(parsed_file(formatted(log.items, stamped))).all_persisted();
            &&& back.items == all_restored(log.items, stamped)
            &&& back.persisted == back.items.len()
            &&& forall|s: bool|
                #[trigger] formatted(back.items.skip(back.persisted), s) == Seq::<char>::empty()
        }),
{
    let back = all_restored(log.items, stamped);
    saved_reads_back(log.items, stamped);
    if fresh.dedup {
        assert forall|i: int, j: int| 0 <= i < j < back.len() implies (#[trigger] back[i]).0 != (
        #[trigger] back[j]).0 by {
            assert(log.items[i].0 != log.items[j].0);
        }
    } else {
        assert forall|i: int| 0 < i < back.len() implies (#[trigger] back[i]).0 != back[i
            - 1].0 by {
            assert(log.items[i].0 != log.items[i - 1].0);
        }
    }
    assert forall|i: int| 0 <= i < back.len() implies !(#[trigger] back[i]).0.contains('\n') by {
        assert(!log.items[i].0.contains('\n'));
    }
    adding_all(fresh, back);
    assert(back.skip(back.len() as int) =~= Seq::<Item>::empty());
}

} // verus!
