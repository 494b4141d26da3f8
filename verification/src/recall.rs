//! Walking the history: recall with draft and edit preservation, and prefix
//! search.
use vstd::prelude::*;

use crate::line::{as_edits, Line, LineState};
use crate::text::{chars_of, copy, occurs_at, same, slice, stands_at, texts};

verus! {

/// The text that an entry was edited to, if it was.
pub open spec fn edited(edits: Seq<(int, Seq<char>)>, i: int) -> Option<Seq<char>>
    decreases edits.len(),
{
    if edits.len() == 0 {
        None
    } else if edits.last().0 == i {
        Some(edits.last().1)
    } else {
        edited(edits.drop_last(), i)
    }
}

/// The newest entry before `below` that begins with the prefix and is not what
/// the buffer holds.
pub open spec fn prefixed_before(
    history: Seq<Seq<char>>,
    below: int,
    prefix: Seq<char>,
    buffer: Seq<char>,
    ignore_case: bool,
) -> Option<int>
    decreases below,
{
    if below <= 0 || below > history.len() {
        None
    } else if occurs_at(history[below - 1], prefix, 0, ignore_case) && history[below - 1]
        != buffer {
        Some(below - 1)
    } else {
        prefixed_before(history, below - 1, prefix, buffer, ignore_case)
    }
}

/// The oldest entry from `from` on that begins with the prefix.
pub open spec fn prefixed_from(
    history: Seq<Seq<char>>,
    from: int,
    prefix: Seq<char>,
    ignore_case: bool,
) -> Option<int>
    decreases history.len() - from,
{
    if from < 0 || from >= history.len() {
        None
    } else if occurs_at(history[from], prefix, 0, ignore_case) {
        Some(from)
    } else {
        prefixed_from(history, from + 1, prefix, ignore_case)
    }
}

impl Line {
    /// The text shown for an entry: as edited in this session, else as it is.
    pub open spec fn recalled(self, history: Seq<Seq<char>>, i: int) -> Seq<char> {
        match edited(self.edits, i) {
            Some(text) => text,
            None => history[i],
        }
    }

    /// With the buffer put by: the live line as the draft, an edited entry as
    /// its edit.
    pub open spec fn stashed(self, history: Seq<Seq<char>>) -> Line {
        match self.hist_index {
            None => Line { draft: self.buffer, ..self },
            Some(i) => if self.buffer == self.recalled(history, i) {
                self
            } else {
                Line { edits: self.edits.push((i, self.buffer)), ..self }
            },
        }
    }

    /// Showing an entry, with what was shown put by.
    #[verifier::opaque]
    pub open spec fn showing(self, history: Seq<Seq<char>>, i: int) -> Line {
        let s = self.stashed(history);
        let text = s.recalled(history, i);
        Line { hist_index: Some(i), buffer: text, cursor: text.len() as int, ..s }
    }

    /// Back on the live line.
    #[verifier::opaque]
    pub open spec fn live(self, history: Seq<Seq<char>>) -> Line {
        if self.hist_index is Some {
            let s = self.stashed(history);
            Line { hist_index: None, buffer: s.draft, cursor: s.draft.len() as int, ..s }
        } else {
            self
        }
    }

    /// One entry older.
    #[verifier::opaque]
    pub open spec fn older(self, history: Seq<Seq<char>>) -> Line {
        match self.hist_index {
            None => if history.len() == 0 {
                self.rung()
            } else {
                self.showing(history, history.len() - 1)
            },
            Some(i) => if i <= 0 {
                self.rung()
            } else {
                self.showing(history, i - 1)
            },
        }
    }

    /// One entry newer, or back on the live line.
    #[verifier::opaque]
    pub open spec fn newer(self, history: Seq<Seq<char>>) -> Line {
        match self.hist_index {
            None => self.rung(),
            Some(i) => if i + 1 < history.len() {
                self.showing(history, i + 1)
            } else {
                self.live(history)
            },
        }
    }

    /// The oldest entry.
    #[verifier::opaque]
    pub open spec fn oldest(self, history: Seq<Seq<char>>) -> Line {
        if history.len() == 0 {
            self
        } else {
            self.showing(history, 0)
        }
    }

    /// With the prefix taken from the buffer up to the cursor, unless the
    /// previous key was a prefix search.
    pub open spec fn anchor(self) -> Line {
        if self.anchored {
            self
        } else {
            Line { prefix: self.buffer.take(self.cursor), anchored: true, ..self }
        }
    }

    /// The previous entry with the prefix.
    #[verifier::opaque]
    pub open spec fn prefix_older(self, history: Seq<Seq<char>>) -> Line {
        let a = self.anchor();
        let below = match a.hist_index {
            Some(i) => i,
            None => history.len() as int,
        };
        match prefixed_before(history, below, a.prefix, a.buffer, a.cfg.search_ignore_case) {
            Some(i) => a.showing(history, i),
            None => a.rung(),
        }
    }

    /// The next entry with the prefix, or back on the live line.
    #[verifier::opaque]
    pub open spec fn prefix_newer(self, history: Seq<Seq<char>>) -> Line {
        let a = self.anchor();
        match a.hist_index {
            None => a.rung(),
            Some(i) => match prefixed_from(history, i + 1, a.prefix, a.cfg.search_ignore_case) {
                Some(j) => a.showing(history, j),
                None => a.live(history),
            },
        }
    }
}

/// The text that an entry was edited to, if it was.
fn find_edit(edits: &Vec<(usize, Vec<char>)>, i: usize) -> (r: Option<Vec<char>>)
    ensures
        match r {
            Some(text) => edited(as_edits(edits@), i as int) == Some(text@),
            None => edited(as_edits(edits@), i as int) is None,
        },
{
    reveal(as_edits);
    let ghost all = as_edits(edits@);
    let mut n: usize = edits.len();
    assert(all.take(n as int) =~= all);
    while n > 0
        invariant
            n <= edits@.len(),
            all == as_edits(edits@),
            edited(all, i as int) == edited(all.take(n as int), i as int),
        decreases n,
    {
        reveal(as_edits);
        assert(all.take(n as int).last() == all[n - 1]);
        assert(all.take(n as int).drop_last() =~= all.take(n - 1));
        if edits[n - 1].0 == i {
            return Some(copy(edits[n - 1].1.as_slice()));
        }
        n -= 1;
    }
    None
}

/// The text shown for an entry.
pub fn recall(st: &LineState, history: &[String], i: usize) -> (r: Vec<char>)
    requires
        i < history@.len(),
    ensures
        r@ == st@.recalled(texts(history@), i as int),
{
    match find_edit(&st.edits, i) {
        Some(text) => text,
        None => chars_of(history[i].as_str()),
    }
}

/// Put the buffer by, before another entry is shown.
pub fn stash(st: &mut LineState, history: &[String])
    requires
        old(st)@.wf(texts(history@)),
    ensures
        final(st)@ == old(st)@.stashed(texts(history@)),
        final(st)@.wf(texts(history@)),
{
    match st.hist_index {
        None => {
            st.draft = copy(st.buffer.as_slice());
        },
        Some(i) => {
            reveal(as_edits);
            let text = recall(st, history, i);
            if !same(text.as_slice(), st.buffer.as_slice()) {
                let edit = copy(st.buffer.as_slice());
                st.edits.push((i, edit));
                assert(st@.edits =~= old(st)@.edits.push((i as int, edit@)));
            }
        },
    }
}

/// Show an entry.
pub fn show(st: &mut LineState, history: &[String], i: usize)
    requires
        old(st)@.wf(texts(history@)),
        i < history@.len(),
    ensures
        final(st)@ == old(st)@.showing(texts(history@), i as int),
        final(st)@.wf(texts(history@)),
{
    reveal(Line::showing);
    stash(st, history);
    let text = recall(st, history, i);
    st.hist_index = Some(i);
    st.cursor = text.len();
    st.buffer = text;
}

/// M->: back to the live (draft) line.
pub fn history_last(st: &mut LineState, history: &[String])
    requires
        old(st)@.wf(texts(history@)),
    ensures
        final(st)@ == old(st)@.live(texts(history@)),
        final(st)@.wf(texts(history@)),
{
    reveal(Line::live);
    if st.hist_index.is_some() {
        stash(st, history);
        st.hist_index = None;
        st.buffer = copy(st.draft.as_slice());
        st.cursor = st.buffer.len();
    }
}

/// Up / C-p: the previous entry.
pub fn history_prev(st: &mut LineState, history: &[String])
    requires
        old(st)@.wf(texts(history@)),
    ensures
        final(st)@ == old(st)@.older(texts(history@)),
        final(st)@.wf(texts(history@)),
{
    reveal(Line::older);
    match st.hist_index {
        None => if history.len() == 0 {
            st.bell();
        } else {
            show(st, history, history.len() - 1);
        },
        Some(i) => if i == 0 {
            st.bell();
        } else {
            show(st, history, i - 1);
        },
    }
}

/// Down / C-n: the next entry, or the stashed draft.
pub fn history_next(st: &mut LineState, history: &[String])
    requires
        old(st)@.wf(texts(history@)),
    ensures
        final(st)@ == old(st)@.newer(texts(history@)),
        final(st)@.wf(texts(history@)),
{
    reveal(Line::newer);
    let n = history.len();
    match st.hist_index {
        None => {
            st.bell();
        },
        Some(i) => if i + 1 < n {
            show(st, history, i + 1);
        } else {
            history_last(st, history);
        },
    }
}

/// M-<: jump to the oldest history entry.
pub fn history_first(st: &mut LineState, history: &[String])
    requires
        old(st)@.wf(texts(history@)),
    ensures
        final(st)@ == old(st)@.oldest(texts(history@)),
        final(st)@.wf(texts(history@)),
{
    reveal(Line::oldest);
    if history.len() > 0 {
        show(st, history, 0);
    }
}

fn anchor_prefix(st: &mut LineState)
    requires
        old(st).inside(),
    ensures
        final(st)@ == old(st)@.anchor(),
        final(st).inside(),
{
    if !st.anchored {
        st.prefix = slice(st.buffer.as_slice(), 0, st.cursor);
        assert(st.prefix@ =~= st.buffer@.take(st.cursor as int));
        st.anchored = true;
    }
}

/// PageUp / M-p: previous history entry starting with the text before the
/// cursor (zsh's `history-beginning-search-backward`, fish's Up).
pub fn history_prefix_prev(st: &mut LineState, history: &[String])
    requires
        old(st)@.wf(texts(history@)),
    ensures
        final(st)@ == old(st)@.prefix_older(texts(history@)),
        final(st)@.wf(texts(history@)),
{
    reveal(Line::prefix_older);
    anchor_prefix(st);
    let ghost all = texts(history@);
    let below = match st.hist_index {
        Some(i) => i,
        None => history.len(),
    };
    let ignore_case = st.cfg.search_ignore_case;
    let mut i: usize = below;
    while i > 0
        invariant
            i <= below <= history@.len(),
            all == texts(history@),
            ignore_case == st.cfg.search_ignore_case,
            st@ == old(st)@.anchor(),
            st@.wf(all),
            as_below(st@, all) == below,
            prefixed_before(all, below as int, st@.prefix, st@.buffer, ignore_case)
                == prefixed_before(all, i as int, st@.prefix, st@.buffer, ignore_case),
        decreases i,
    {
        reveal(Line::prefix_older);
        let entry = chars_of(history[i - 1].as_str());
        assert(entry@ == all[i - 1]);
        if stands_at(entry.as_slice(), st.prefix.as_slice(), 0, ignore_case) && !same(
            entry.as_slice(),
            st.buffer.as_slice(),
        ) {
            show(st, history, i - 1);
            return;
        }
        i -= 1;
    }
    st.bell();
}

/// Where prefix search starts from.
spec fn as_below(line: Line, history: Seq<Seq<char>>) -> int {
    match line.hist_index {
        Some(i) => i,
        None => history.len() as int,
    }
}

/// PageDown / M-n: next prefix match, or back to the draft.
pub fn history_prefix_next(st: &mut LineState, history: &[String])
    requires
        old(st)@.wf(texts(history@)),
    ensures
        final(st)@ == old(st)@.prefix_newer(texts(history@)),
        final(st)@.wf(texts(history@)),
{
    reveal(Line::prefix_newer);
    anchor_prefix(st);
    let ghost all = texts(history@);
    let n = history.len();
    match st.hist_index {
        None => {
            st.bell();
        },
        Some(at) => {
            let ignore_case = st.cfg.search_ignore_case;
            let mut i: usize = at + 1;
            while i < n
                invariant
                    at < i <= n == history@.len(),
                    all == texts(history@),
                    ignore_case == st.cfg.search_ignore_case,
                    st@ == old(st)@.anchor(),
                    st@.wf(all),
                    st@.hist_index == Some(at as int),
                    prefixed_from(all, at + 1, st@.prefix, ignore_case) == prefixed_from(
                        all,
                        i as int,
                        st@.prefix,
                        ignore_case,
                    ),
                decreases history@.len() - i,
            {
                reveal(Line::prefix_newer);
                let entry = chars_of(history[i].as_str());
                assert(entry@ == all[i as int]);
                if stands_at(entry.as_slice(), st.prefix.as_slice(), 0, ignore_case) {
                    show(st, history, i);
                    return;
                }
                i += 1;
            }
            history_last(st, history);
        },
    }
}

/// Up and then Down gives the live line back, with the cursor at its end.
pub proof fn draft_survives(line: Line, history: Seq<Seq<char>>)
    requires
        line.wf(history),
        line.hist_index is None,
        history.len() > 0,
    ensures
        line.older(history).newer(history).buffer == line.buffer,
        line.older(history).newer(history).hist_index is None,
{
    reveal(Line::older);
    reveal(Line::newer);
    reveal(Line::showing);
    reveal(Line::live);
    reveal(Line::rung);
    let up = line.older(history);
    assert(up.buffer == up.recalled(history, history.len() - 1));
}

/// The line after so many Ups.
pub open spec fn ups(line: Line, history: Seq<Seq<char>>, n: nat) -> Line
    decreases n,
{
    if n == 0 {
        line
    } else {
        ups(line, history, (n - 1) as nat).older(history)
    }
}

/// The line after so many Downs.
pub open spec fn downs(line: Line, history: Seq<Seq<char>>, n: nat) -> Line
    decreases n,
{
    if n == 0 {
        line
    } else {
        downs(line, history, (n - 1) as nat).newer(history)
    }
}

/// Where a line is in the history; the live line comes after the newest entry.
pub open spec fn place(line: Line, history: Seq<Seq<char>>) -> int {
    match line.hist_index {
        Some(i) => i,
        None => history.len() as int,
    }
}

/// Each Up goes one entry back and shows it, as it was edited on this line or as
/// it is. As many Downs give back the line they began with, whatever stood in
/// it.
pub proof fn downs_undo_ups(line: Line, history: Seq<Seq<char>>, n: nat)
    requires
        line.wf(history),
        n <= place(line, history),
    ensures
        n > 0 ==> ups(line, history, n).hist_index == Some(place(line, history) - n),
        n > 0 ==> ups(line, history, n).buffer == line.stashed(history).recalled(
            history,
            place(line, history) - n,
        ),
        downs(ups(line, history, n), history, n).buffer == line.buffer,
        downs(ups(line, history, n), history, n).hist_index == line.hist_index,
{
    if n > 0 {
        ups_show(line, history, n);
        downs_return(line, ups(line, history, n), history, n, n);
    }
}

/// The line shows an entry as it was when `was` was put by.
spec fn visits(line: Line, was: Line, history: Seq<Seq<char>>, i: int) -> bool {
    let s = was.stashed(history);
    &&& line.hist_index == Some(i)
    &&& line.edits == s.edits
    &&& line.draft == s.draft
    &&& line.buffer == s.recalled(history, i)
}

proof fn ups_show(line: Line, history: Seq<Seq<char>>, n: nat)
    requires
        line.wf(history),
        0 < n <= place(line, history),
    ensures
        visits(ups(line, history, n), line, history, place(line, history) - n),
    decreases n,
{
    reveal(Line::older);
    reveal(Line::showing);
    let before = ups(line, history, (n - 1) as nat);
    if n > 1 {
        ups_show(line, history, (n - 1) as nat);
        assert(before.stashed(history) == before);
    }
    assert(ups(line, history, n) == before.older(history));
}

/// So many of the Downs back from an entry that was reached by `n` Ups.
proof fn downs_return(line: Line, up: Line, history: Seq<Seq<char>>, n: nat, k: nat)
    requires
        line.wf(history),
        0 < k <= n <= place(line, history),
        visits(up, line, history, place(line, history) - n),
    ensures
        k < n ==> visits(downs(up, history, k), line, history, place(line, history) - n + k),
        k == n ==> downs(up, history, k).buffer == line.buffer && downs(up, history, k).hist_index
            == line.hist_index,
    decreases k,
{
    reveal(Line::newer);
    reveal(Line::showing);
    reveal(Line::live);
    let before = downs(up, history, (k - 1) as nat);
    if k > 1 {
        downs_return(line, up, history, n, (k - 1) as nat);
    }
    assert(visits(before, line, history, place(line, history) - n + k - 1));
    assert(before.stashed(history) == before);
    assert(downs(up, history, k) == before.newer(history));
    if let Some(i) = line.hist_index {
        let s = line.stashed(history);
        if line.buffer != line.recalled(history, i) {
            assert(s.edits.last() == (i, line.buffer));
        }
        assert(s.recalled(history, i) == line.buffer);
    }
}

/// An entry's text, edited or not, is there again after a visit to any other
/// entry.
pub proof fn edits_survive(line: Line, history: Seq<Seq<char>>, i: int, j: int)
    requires
        line.wf(history),
        line.hist_index == Some(i),
        0 <= j < history.len(),
        j != i,
    ensures
        line.showing(history, j).showing(history, i).buffer == line.buffer,
{
    reveal(Line::showing);
    let s = line.stashed(history);
    let there = line.showing(history, j);
    assert(there.edits == s.edits);
    assert(there.buffer == there.recalled(history, j));
    assert(there.stashed(history) == there);
    if line.buffer != line.recalled(history, i) {
        assert(s.edits.last() == (i, line.buffer));
    }
}

/// The live line, too, is there again after a visit to any entry.
pub proof fn draft_survives_any_entry(line: Line, history: Seq<Seq<char>>, j: int)
    requires
        line.wf(history),
        line.hist_index is None,
        0 <= j < history.len(),
    ensures
        line.showing(history, j).live(history).buffer == line.buffer,
{
    reveal(Line::showing);
    reveal(Line::live);
    let there = line.showing(history, j);
    assert(there.buffer == there.recalled(history, j));
    assert(there.stashed(history) == there);
}

/// A prefix search lands on an entry that begins with the prefix.
pub proof fn prefixed_before_matches(
    history: Seq<Seq<char>>,
    below: int,
    prefix: Seq<char>,
    buffer: Seq<char>,
    ignore_case: bool,
)
    ensures
        match prefixed_before(history, below, prefix, buffer, ignore_case) {
            Some(i) => 0 <= i < below && i < history.len() && occurs_at(
                history[i],
                prefix,
                0,
                ignore_case,
            ) && (forall|k: int|
                i < k < below ==> !(occurs_at(#[trigger] history[k], prefix, 0, ignore_case)
                    && history[k] != buffer)),
            None => below <= history.len() ==> forall|k: int|
                0 <= k < below ==> !(occurs_at(#[trigger] history[k], prefix, 0, ignore_case)
                    && history[k] != buffer),
        },
    decreases below,
{
    if 0 < below <= history.len() && !(occurs_at(history[below - 1], prefix, 0, ignore_case)
        && history[below - 1] != buffer) {
        prefixed_before_matches(history, below - 1, prefix, buffer, ignore_case);
    }
}

} // verus!
