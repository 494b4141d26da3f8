//! The history list: deduplication, the cap, and the file format.
use vstd::prelude::*;

use crate::ring::newest;
use crate::text::{chars_of, index_from, push_str, string_of, texts};

verus! {

/// One history entry: its text, and when it was added.
pub type Item = (Seq<char>, Option<i64>);

/// The history, as a mathematical value.
pub ghost struct Log {
    /// The entries, oldest first.
    pub items: Seq<Item>,
    /// How many of them are already in the history file.
    pub persisted: int,
    /// How many entries are kept.
    pub max: int,
    /// A new entry erases earlier duplicates everywhere.
    pub dedup: bool,
}

/// The history list: entries, with epoch timestamps parallel to them.
#[derive(Debug)]
pub struct History {
    /// The entries, oldest first.
    pub entries: Vec<String>,
    /// When each was added; `None` for entries loaded from a file without
    /// timestamps.
    pub stamps: Vec<Option<i64>>,
    /// How many entries are already in the history file.
    pub persisted: usize,
    /// How many entries are kept.
    pub max: usize,
    /// A new entry erases earlier duplicates everywhere.
    pub dedup: bool,
}

/// Entries with their timestamps.
pub open spec fn as_items(entries: Seq<String>, stamps: Seq<Option<i64>>) -> Seq<Item> {
    Seq::new(entries.len(), |i: int| (entries[i]@, stamps[i]))
}

impl View for History {
    type V = Log;

    open spec fn view(&self) -> Log {
        Log {
            items: as_items(self.entries@, self.stamps@),
            persisted: self.persisted as int,
            max: self.max as int,
            dedup: self.dedup,
        }
    }
}

/// Text on one line: newlines become `; ` (bash's `cmdhist`).
pub open spec fn one_line(s: Seq<char>) -> Seq<char>
    decreases s.len(),
{
    if s.len() == 0 {
        Seq::empty()
    } else if s.last() == '\n' {
        one_line(s.drop_last()) + "; "@
    } else {
        one_line(s.drop_last()).push(s.last())
    }
}

/// The entries whose text differs from `e`.
pub open spec fn without(items: Seq<Item>, e: Seq<char>) -> Seq<Item>
    decreases items.len(),
{
    if items.len() == 0 {
        items
    } else if items.last().0 == e {
        without(items.drop_last(), e)
    } else {
        without(items.drop_last(), e).push(items.last())
    }
}

/// No entry holds a newline.
pub open spec fn on_one_line(items: Seq<Item>) -> bool {
    forall|i: int| 0 <= i < items.len() ==> !(#[trigger] items[i]).0.contains('\n')
}

/// Text on one line holds no newline.
pub proof fn one_line_has_no_newline(s: Seq<char>)
    ensures
        !one_line(s).contains('\n'),
    decreases s.len(),
{
    if s.len() > 0 {
        let front = one_line(s.drop_last());
        one_line_has_no_newline(s.drop_last());
        reveal_strlit("; ");
        assert forall|i: int| 0 <= i < one_line(s).len() implies #[trigger] one_line(s)[i]
            != '\n' by {
            if i < front.len() {
                assert(one_line(s)[i] == front[i]);
            }
        }
    }
}

/// Erasing leaves the rest on one line each.
proof fn without_on_one_line(items: Seq<Item>, e: Seq<char>)
    requires
        on_one_line(items),
    ensures
        on_one_line(without(items, e)),
{
    without_holds_none(items, e);
    let w = without(items, e);
    assert forall|i: int| 0 <= i < w.len() implies !(#[trigger] w[i]).0.contains('\n') by {
        assert(items.contains(w[i]));
    }
}

impl Log {
    /// What holds of every history: the persisted entries are among those that
    /// are there, there are no more than are kept, and each is on one line.
    pub open spec fn wf(self) -> bool {
        &&& 0 <= self.persisted <= self.items.len() <= self.max
        &&& on_one_line(self.items)
    }

    /// With the oldest entries dropped past the cap.
    pub open spec fn capped(self) -> Log {
        let excess = self.items.len() - self.max;
        if excess > 0 {
            Log {
                items: newest(self.items, self.max),
                persisted: if self.persisted > excess {
                    self.persisted - excess
                } else {
                    0
                },
                ..self
            }
        } else {
            self
        }
    }

    /// With every entry of that text erased.
    pub open spec fn erased(self, e: Seq<char>) -> Log {
        Log {
            items: without(self.items, e),
            persisted: without(self.items.take(self.persisted), e).len() as int,
            ..self
        }
    }

    /// With an entry added, unless it repeats the newest one.
    pub open spec fn added(self, e: Seq<char>, stamp: Option<i64>) -> Log {
        let l = if self.dedup {
            self.erased(e)
        } else {
            self
        };
        if l.items.len() > 0 && l.items.last().0 == e {
            l
        } else {
            Log { items: l.items.push((e, stamp)), ..l }.capped()
        }
    }

    /// With entries added one after another.
    pub open spec fn all_added(self, items: Seq<Item>) -> Log
        decreases items.len(),
    {
        if items.len() == 0 {
            self
        } else {
            let l = self.all_added(items.drop_last());
            l.added(one_line(items.last().0), items.last().1)
        }
    }

    /// With every entry counted as persisted.
    pub open spec fn all_persisted(self) -> Log {
        Log { persisted: self.items.len() as int, ..self }
    }

    /// With other entries altogether, all of them persisted.
    pub open spec fn replaced(self, entries: Seq<Seq<char>>) -> Log {
        Log {
            items: Seq::new(entries.len(), |i: int| (one_line(entries[i]), None::<i64>)),
            persisted: entries.len() as int,
            ..self
        }.capped()
    }

    /// The texts.
    pub open spec fn texts(self) -> Seq<Seq<char>> {
        Seq::new(self.items.len(), |i: int| self.items[i].0)
    }
}

/// Erasing leaves no more entries than there were.
pub proof fn without_len(items: Seq<Item>, e: Seq<char>)
    ensures
        without(items, e).len() <= items.len(),
    decreases items.len(),
{
    if items.len() > 0 {
        without_len(items.drop_last(), e);
    }
}

/// Erasing from a part leaves no more than erasing from the whole.
proof fn without_part(items: Seq<Item>, n: int, e: Seq<char>)
    requires
        0 <= n <= items.len(),
    ensures
        without(items.take(n), e).len() <= without(items, e).len(),
    decreases items.len(),
{
    if n < items.len() {
        assert(items.drop_last().take(n) =~= items.take(n));
        without_part(items.drop_last(), n, e);
    } else {
        assert(items.take(n) =~= items);
    }
}

/// Text on one line.
pub fn join_lines(s: &str) -> (r: String)
    ensures
        r@ == one_line(s@),
{
    let v = chars_of(s);
    let mut out: Vec<char> = Vec::new();
    let mut i: usize = 0;
    while i < v.len()
        invariant
            i <= v@.len(),
            out@ == one_line(v@.take(i as int)),
        decreases v@.len() - i,
    {
        if v[i] == '\n' {
            push_str(&mut out, "; ");
        } else {
            out.push(v[i]);
        }
        i += 1;
        assert(v@.take(i as int).drop_last() =~= v@.take(i - 1));
    }
    assert(v@.take(i as int) =~= v@);
    string_of(out.as_slice())
}

impl History {
    /// Entries and timestamps are parallel, and the history is well-formed.
    pub open spec fn wf(self) -> bool {
        &&& self.stamps@.len() == self.entries@.len()
        &&& self@.wf()
    }

    /// An empty, unbounded history.
    pub fn new() -> (r: History)
        ensures
            r.wf(),
            r@ == (Log {
                items: Seq::empty(),
                persisted: 0,
                max: usize::MAX as int,
                dedup: false,
            }),
    {
        let r = History {
            entries: Vec::new(),
            stamps: Vec::new(),
            persisted: 0,
            max: usize::MAX,
            dedup: false,
        };
        assert(r@.items =~= Seq::<Item>::empty());
        r
    }

    /// Drop the oldest entries past the cap.
    fn cap(&mut self)
        requires
            old(self).stamps@.len() == old(self).entries@.len(),
            old(self)@.persisted <= old(self)@.items.len(),
            on_one_line(old(self)@.items),
        ensures
            final(self)@ == old(self)@.capped(),
            final(self).wf(),
    {
        let ghost all = self@.items;
        let n = self.entries.len();
        if n > self.max {
            let excess = n - self.max;
            let mut dropped: usize = 0;
            assert(all.skip(0) =~= all);
            while dropped < excess
                invariant
                    dropped <= excess <= n,
                    n == all.len(),
                    self.max == old(self).max,
                    self.dedup == old(self).dedup,
                    self.persisted == old(self).persisted,
                    self.entries@.len() == n - dropped,
                    self.stamps@.len() == n - dropped,
                    self@.items == all.skip(dropped as int),
                decreases excess - dropped,
            {
                let ghost before = self@.items;
                self.entries.remove(0);
                self.stamps.remove(0);
                dropped += 1;
                assert(self@.items =~= before.skip(1));
                assert(self@.items =~= all.skip(dropped as int));
            }
            self.persisted = if self.persisted > excess {
                self.persisted - excess
            } else {
                0
            };
        }
    }

    /// Cap the history at `n` entries: the oldest are dropped.
    pub fn set_max(&mut self, n: usize)
        requires
            old(self).wf(),
        ensures
            final(self)@ == (Log { max: n as int, ..old(self)@ }).capped(),
            final(self).wf(),
    {
        self.max = n;
        self.cap();
    }

    /// Erase every entry of that text.
    fn erase(&mut self, e: &String)
        requires
            old(self).wf(),
        ensures
            final(self)@ == old(self)@.erased(e@),
            final(self).wf(),
    {
        let ghost all = self@.items;
        let mut entries: Vec<String> = Vec::new();
        let mut stamps: Vec<Option<i64>> = Vec::new();
        let mut persisted: usize = 0;
        let mut i: usize = 0;
        assert(as_items(entries@, stamps@) =~= without(all.take(0), e@));
        assert(all.take(0).take(0) =~= all.take(0));
        while i < self.entries.len()
            invariant
                *self == *old(self),
                self.wf(),
                all == self@.items,
                i <= self.entries@.len(),
                entries@.len() == stamps@.len(),
                as_items(entries@, stamps@) == without(all.take(i as int), e@),
                persisted <= entries@.len() <= i,
                persisted == without(
                    all.take(
                        if i <= self.persisted {
                            i as int
                        } else {
                            self.persisted as int
                        },
                    ),
                    e@,
                ).len(),
            decreases self.entries@.len() - i,
        {
            assert(all.take(i + 1).drop_last() =~= all.take(i as int));
            assert(all.take(i + 1).last() == all[i as int]);
            if self.entries[i] != *e {
                let ghost before = as_items(entries@, stamps@);
                entries.push(self.entries[i].clone());
                stamps.push(self.stamps[i]);
                if i < self.persisted {
                    persisted += 1;
                }
                assert(as_items(entries@, stamps@) =~= before.push(all[i as int]));
            }
            i += 1;
        }
        assert(all.take(i as int) =~= all);
        proof {
            without_part(all, self.persisted as int, e@);
            without_len(all, e@);
            without_on_one_line(all, e@);
        }
        self.entries = entries;
        self.stamps = stamps;
        self.persisted = persisted;
    }

    /// Append an entry, skipping a consecutive duplicate. A multi-line entry is
    /// joined with `; `.
    pub fn add_entry(&mut self, line: &str, stamp: Option<i64>)
        requires
            old(self).wf(),
        ensures
            final(self)@ == old(self)@.added(one_line(line@), stamp),
            final(self).wf(),
    {
        let entry = join_lines(line);
        if self.dedup {
            self.erase(&entry);
        }
        let n = self.entries.len();
        let repeats = n > 0 && self.entries[n - 1] == entry;
        if !repeats {
            let ghost before = self@;
            assert(n > 0 ==> before.items.last().0 == self.entries@[n - 1]@);
            self.entries.push(entry);
            self.stamps.push(stamp);
            assert(self@.items =~= before.items.push((entry@, stamp)));
            proof {
                one_line_has_no_newline(line@);
            }
            self.cap();
        }
    }

    /// Replace the whole history; the entries count as persisted.
    pub fn replace(&mut self, entries: Vec<String>)
        requires
            old(self).wf(),
        ensures
            final(self)@ == old(self)@.replaced(texts(entries@)),
            final(self).wf(),
    {
        let ghost all = texts(entries@);
        let mut fresh: Vec<String> = Vec::new();
        let mut stamps: Vec<Option<i64>> = Vec::new();
        let mut i: usize = 0;
        while i < entries.len()
            invariant
                i <= entries@.len(),
                all == texts(entries@),
                fresh@.len() == i,
                stamps@.len() == i,
                forall|k: int| 0 <= k < i ==> (#[trigger] fresh@[k])@ == one_line(all[k]),
                forall|k: int| 0 <= k < i ==> (#[trigger] stamps@[k]) is None,
            decreases entries@.len() - i,
        {
            fresh.push(join_lines(entries[i].as_str()));
            stamps.push(None);
            i += 1;
        }
        self.persisted = fresh.len();
        self.entries = fresh;
        self.stamps = stamps;
        assert(self@.items =~= Seq::new(all.len(), |i: int| (one_line(all[i]), None::<i64>)));
        assert forall|i: int| 0 <= i < self@.items.len() implies !(
        #[trigger] self@.items[i]).0.contains('\n') by {
            one_line_has_no_newline(all[i]);
        }
        self.cap();
    }

    /// Whether no entry holds a newline.
    pub fn is_on_one_line(&self) -> (r: bool)
        requires
            self.stamps@.len() == self.entries@.len(),
        ensures
            r == on_one_line(self@.items),
    {
        let mut i: usize = 0;
        while i < self.entries.len()
            invariant
                i <= self.entries@.len(),
                forall|k: int| 0 <= k < i ==> !(#[trigger] self@.items[k]).0.contains('\n'),
            decreases self.entries@.len() - i,
        {
            let v = chars_of(self.entries[i].as_str());
            assert(self@.items[i as int].0 == v@);
            if index_from(v.as_slice(), 0, '\n').is_some() {
                return false;
            }
            i += 1;
        }
        true
    }

    /// Count every entry as persisted.
    pub fn mark_persisted(&mut self)
        requires
            old(self).wf(),
        ensures
            final(self)@ == old(self)@.all_persisted(),
            final(self).wf(),
    {
        self.persisted = self.entries.len();
    }
}

/// No entry repeats the one before it.
pub open spec fn no_repeats(items: Seq<Item>) -> bool {
    forall|i: int| 0 < i < items.len() ==> (#[trigger] items[i]).0 != items[i - 1].0
}

/// No text occurs twice.
pub open spec fn all_distinct(items: Seq<Item>) -> bool {
    forall|i: int, j: int|
        0 <= i < j < items.len() ==> (#[trigger] items[i]).0 != (#[trigger] items[j]).0
}

/// What is left after erasing a text does not hold it, and is still distinct if
/// it was before.
pub proof fn without_holds_none(items: Seq<Item>, e: Seq<char>)
    ensures
        forall|i: int| 0 <= i < without(items, e).len() ==> (#[trigger] without(items, e)[i]).0
            != e,
        forall|i: int|
            0 <= i < without(items, e).len() ==> items.contains(#[trigger] without(items, e)[i]),
        all_distinct(items) ==> all_distinct(without(items, e)),
    decreases items.len(),
{
    if items.len() > 0 {
        let front = items.drop_last();
        without_holds_none(front, e);
        let w = without(front, e);
        assert forall|i: int| 0 <= i < w.len() implies items.contains(#[trigger] w[i]) by {
            let k = choose|k: int| 0 <= k < front.len() && front[k] == w[i];
            assert(items[k] == w[i]);
        }
        if items.last().0 != e {
            let all = w.push(items.last());
            assert(without(items, e) == all);
            assert(items[items.len() - 1] == items.last());
            if all_distinct(items) {
                assert(all_distinct(front));
                assert forall|i: int, j: int| 0 <= i < j < all.len() implies (#[trigger] all[i]).0
                    != (#[trigger] all[j]).0 by {
                    if j == w.len() {
                        assert(front.contains(w[i]));
                        let k = choose|k: int| 0 <= k < front.len() && front[k] == w[i];
                        assert(items[k].0 != items[items.len() - 1].0);
                    }
                }
            }
        } else {
            if all_distinct(items) {
                assert(all_distinct(front));
            }
        }
    }
}

/// Adding keeps the history free of consecutive duplicates (without
/// deduplication, which can bring two equal neighbours of an erased entry
/// together).
pub proof fn adding_repeats_nothing(log: Log, e: Seq<char>, stamp: Option<i64>)
    requires
        log.wf(),
        no_repeats(log.items),
        !log.dedup,
    ensures
        no_repeats(log.added(e, stamp).items),
{
    let all = log.items.push((e, stamp));
    if !(log.items.len() > 0 && log.items.last().0 == e) {
        assert(no_repeats(all));
        let kept = log.added(e, stamp).items;
        let skipped = all.len() - kept.len();
        assert forall|i: int| 0 < i < kept.len() implies (#[trigger] kept[i]).0 != kept[i
            - 1].0 by {
            assert(kept[i] == all[i + skipped]);
            assert(kept[i - 1] == all[i - 1 + skipped]);
        }
    }
}

/// With deduplication, no text occurs twice in the history, and the entry just
/// added is the newest.
pub proof fn dedup_keeps_one(log: Log, e: Seq<char>, stamp: Option<i64>)
    requires
        log.wf(),
        log.dedup,
        all_distinct(log.items),
        log.max > 0,
    ensures
        all_distinct(log.added(e, stamp).items),
        log.added(e, stamp).items.len() > 0,
        log.added(e, stamp).items.last() == (e, stamp),
{
    without_holds_none(log.items, e);
    without_len(log.items, e);
    let w = without(log.items, e);
    let all = w.push((e, stamp));
    assert(all_distinct(all));
    let kept = log.added(e, stamp).items;
    assert(w.len() > 0 ==> w.last().0 != e) by {
        if w.len() > 0 {
            assert(w[w.len() - 1].0 != e);
        }
    }
    let skipped = all.len() - kept.len();
    assert forall|i: int, j: int| 0 <= i < j < kept.len() implies (#[trigger] kept[i]).0 != (
    #[trigger] kept[j]).0 by {
        assert(kept[i] == all[i + skipped]);
        assert(kept[j] == all[j + skipped]);
    }
}

/// The cap holds after every addition, and every entry is on one line.
pub proof fn adding_respects_the_cap(log: Log, line: Seq<char>, stamp: Option<i64>)
    requires
        log.wf(),
    ensures
        log.added(one_line(line), stamp).wf(),
        log.added(one_line(line), stamp).items.len() <= log.max,
{
    let e = one_line(line);
    without_len(log.items, e);
    without_part(log.items, log.persisted, e);
    without_on_one_line(log.items, e);
    one_line_has_no_newline(line);
}

} // verus!
