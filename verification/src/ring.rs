//! The kill ring (readline's): killed text, newest last, at most so many
//! entries.
use vstd::prelude::*;

use crate::text::{copy, push_chars, rows};

verus! {

/// The kill ring, as a mathematical value.
#[verifier::ext_equal]
pub ghost struct Ring {
    pub entries: Seq<Seq<char>>,
    pub max: int,
}

/// The kill ring. It survives across lines within a session.
#[derive(Debug)]
pub struct KillRing {
    /// The killed texts, newest last.
    pub entries: Vec<Vec<char>>,
    /// How many are kept.
    pub max: usize,
}

impl View for KillRing {
    type V = Ring;

    open spec fn view(&self) -> Ring {
        Ring { entries: rows(self.entries@), max: self.max as int }
    }
}

/// The newest `max` of the items.
pub open spec fn newest<A>(items: Seq<A>, max: int) -> Seq<A> {
    if items.len() > max {
        items.skip(items.len() - max)
    } else {
        items
    }
}

impl Ring {
    /// The newest entry.
    pub open spec fn top(self) -> Option<Seq<char>> {
        if self.entries.len() > 0 {
            Some(self.entries.last())
        } else {
            None
        }
    }

    /// With a new entry; the oldest leaves past the limit.
    pub open spec fn pushed(self, text: Seq<char>) -> Ring {
        Ring { entries: newest(self.entries.push(text), self.max), ..self }
    }

    /// With text added to the newest entry: after it for a forward kill,
    /// before it for a backward one.
    pub open spec fn grown(self, text: Seq<char>, forward: bool) -> Ring {
        let last = self.entries.last();
        Ring {
            entries: self.entries.drop_last().push(
                if forward {
                    last + text
                } else {
                    text + last
                },
            ),
            ..self
        }
    }

    /// With a new limit.
    pub open spec fn limited(self, max: int) -> Ring {
        Ring { entries: newest(self.entries, max), max }
    }
}

impl KillRing {
    /// An empty ring of the default depth.
    pub fn new() -> (r: KillRing)
        ensures
            r@ == (Ring { entries: Seq::empty(), max: 32 }),
    {
        let r = KillRing { entries: Vec::new(), max: 32 };
        assert(r@.entries =~= Seq::<Seq<char>>::empty());
        r
    }

    fn trim(&mut self)
        ensures
            final(self)@ == old(self)@.limited(old(self)@.max),
    {
        let ghost all = self@.entries;
        assert(all.skip(0) =~= all);
        let n = self.entries.len();
        let mut dropped: usize = 0;
        while self.entries.len() > self.max
            invariant
                self.max == old(self).max,
                all == old(self)@.entries,
                n == all.len(),
                dropped + self.entries@.len() == n,
                self@.entries == all.skip(dropped as int),
                dropped > 0 ==> n - dropped >= self.max,
            decreases self.entries@.len(),
        {
            let ghost before = self.entries@;
            self.entries.remove(0);
            dropped += 1;
            assert(self@.entries =~= rows(before).skip(1));
            assert(self@.entries =~= all.skip(dropped as int));
        }
    }

    /// Cap the ring at `max` entries.
    pub fn set_max(&mut self, max: usize)
        ensures
            final(self)@ == old(self)@.limited(max as int),
    {
        self.max = max;
        self.trim();
    }

    /// Add an entry.
    pub fn push(&mut self, text: Vec<char>)
        ensures
            final(self)@ == old(self)@.pushed(text@),
    {
        self.entries.push(text);
        assert(self@.entries =~= old(self)@.entries.push(text@));
        self.trim();
    }

    /// Add text to the newest entry.
    pub fn grow(&mut self, text: &[char], forward: bool)
        requires
            old(self)@.entries.len() > 0,
        ensures
            final(self)@ == old(self)@.grown(text@, forward),
    {
        let last = self.entries.pop();
        match last {
            Some(last) => {
                let mut joined: Vec<char> = Vec::new();
                if forward {
                    push_chars(&mut joined, last.as_slice());
                    push_chars(&mut joined, text);
                    assert(joined@ =~= last@ + text@);
                } else {
                    push_chars(&mut joined, text);
                    push_chars(&mut joined, last.as_slice());
                    assert(joined@ =~= text@ + last@);
                }
                self.entries.push(joined);
                assert(self@.entries =~= old(self)@.entries.drop_last().push(joined@));
            },
            None => {},
        }
    }

    /// A copy of the newest entry.
    pub fn top(&self) -> (r: Option<Vec<char>>)
        ensures
            match r {
                Some(text) => self@.top() == Some(text@),
                None => self@.top() is None,
            },
    {
        if self.entries.len() == 0 {
            None
        } else {
            Some(copy(self.entries[self.entries.len() - 1].as_slice()))
        }
    }
}

} // verus!
