//! A terminal, as far as the editor's output moves its cursor and fills its
//! cells. Rows run on without end; a character goes where the cursor is and
//! moves it on, from the last column of a row to the next only when another
//! character follows.
use vstd::prelude::*;

use crate::text::{decimal, digit};
use crate::unicode::char_width;

verus! {

/// A terminal's screen.
pub ghost struct Screen {
    /// How wide it is.
    pub cols: int,
    /// The cursor's row.
    pub row: int,
    /// The cursor's column; as many as there are when the last one was just
    /// written.
    pub col: int,
    /// Characters are dimmed.
    pub dim: bool,
    /// What stands in each cell, and whether it is dimmed, counted along the
    /// rows.
    pub cells: spec_fn(int) -> (Option<char>, bool),
}

/// The columns that a character takes.
pub open spec fn columns_of(c: char) -> int {
    match char_width(c) {
        Some(w) => w as int,
        None => 0,
    }
}

/// The columns that some characters take.
pub open spec fn wide(x: Seq<char>) -> int
    decreases x.len(),
{
    if x.len() == 0 {
        0
    } else {
        columns_of(x[0]) + wide(x.skip(1))
    }
}

/// What stands in the cell `q` columns from where some characters begin.
pub open spec fn drawn(x: Seq<char>, q: int) -> Option<char>
    decreases x.len(),
{
    if x.len() == 0 {
        None
    } else {
        let w = columns_of(x[0]);
        if q < w {
            if q == 0 {
                Some(x[0])
            } else {
                None
            }
        } else {
            drawn(x.skip(1), q - w)
        }
    }
}

/// A final byte of a control sequence.
pub open spec fn is_final(c: char) -> bool {
    0x40 <= c as u32 <= 0x7e
}

/// Where, from `i` on, a control sequence ends.
pub open spec fn csi_ends(s: Seq<char>, i: int) -> Option<int>
    decreases s.len() - i,
{
    if i < 0 || i >= s.len() {
        None
    } else if is_final(s[i]) {
        Some(i + 1)
    } else {
        csi_ends(s, i + 1)
    }
}

/// Where, from `i` on, an operating-system command ends.
pub open spec fn osc_ends(s: Seq<char>, i: int) -> Option<int>
    decreases s.len() - i,
{
    if i < 0 || i >= s.len() {
        None
    } else if s[i] == '\x07' {
        Some(i + 1)
    } else if s[i] == '\x1b' && i + 1 < s.len() && s[i + 1] == '\\' {
        Some(i + 2)
    } else {
        osc_ends(s, i + 1)
    }
}

/// Where the escape sequence that a text begins with ends, if it does.
pub open spec fn sequence_ends(s: Seq<char>) -> Option<int> {
    if s.len() < 2 {
        None
    } else if s[1] == '[' {
        csi_ends(s, 2)
    } else if s[1] == ']' {
        osc_ends(s, 2)
    } else {
        Some(2)
    }
}

/// The number that some digits are.
pub open spec fn value_of(digits: Seq<char>) -> int
    decreases digits.len(),
{
    if digits.len() == 0 {
        0
    } else {
        value_of(digits.drop_last()) * 10 + (digits.last() as int - '0' as int)
    }
}

impl Screen {
    /// With one character written, or a line ended.
    pub open spec fn written(self, c: char) -> Screen {
        if c == '\r' {
            Screen { col: 0, ..self }
        } else if c == '\n' {
            Screen { row: self.row + 1, col: 0, ..self }
        } else {
            let w = columns_of(c);
            let at = self.row * self.cols + self.col;
            if w <= 0 {
                self
            } else {
                Screen {
                    row: (at + w - 1) / self.cols,
                    col: (at + w - 1) % self.cols + 1,
                    cells: |p: int|
                        if p == at {
                            (Some(c), self.dim)
                        } else if at < p < at + w {
                            (None, self.dim)
                        } else {
                            (self.cells)(p)
                        },
                    ..self
                }
            }
        }
    }

    /// With an escape sequence obeyed: cursor up, down, and to a column, the
    /// screen erased from the cursor on, and dimmed characters. Others neither
    /// move nor fill anything.
    pub open spec fn obeyed(self, s: Seq<char>) -> Screen {
        let params = s.subrange(2, s.len() - 1);
        let n = if params.len() == 0 {
            1
        } else {
            value_of(params)
        };
        if s.len() < 3 || s[1] != '[' {
            self
        } else if s.last() == 'A' {
            Screen { row: self.row - n, ..self }
        } else if s.last() == 'B' {
            Screen { row: self.row + n, ..self }
        } else if s.last() == 'G' {
            Screen { col: n - 1, ..self }
        } else if s.last() == 'J' {
            let at = self.row * self.cols + self.col;
            Screen {
                cells: |p: int|
                    if p >= at {
                        (None, false)
                    } else {
                        (self.cells)(p)
                    },
                ..self
            }
        } else if s.last() == 'm' && params == seq!['2'] {
            Screen { dim: true, ..self }
        } else if s.last() == 'm' && (params.len() == 0 || params == seq!['0']) {
            Screen { dim: false, ..self }
        } else {
            self
        }
    }
}

/// The screen after some output.
pub open spec fn run(st: Screen, s: Seq<char>) -> Screen
    decreases s.len(),
{
    if s.len() == 0 {
        st
    } else if s[0] == '\x1b' {
        match sequence_ends(s) {
            Some(n) => if 0 < n <= s.len() {
                run(st.obeyed(s.take(n)), s.skip(n))
            } else {
                st
            },
            None => st,
        }
    } else {
        run(st.written(s[0]), s.skip(1))
    }
}

/// The screen after some characters.
pub open spec fn typed(st: Screen, x: Seq<char>) -> Screen
    decreases x.len(),
{
    if x.len() == 0 {
        st
    } else {
        typed(st.written(x[0]), x.skip(1))
    }
}

/// Text that stays on its line, with colours and titles: printing characters,
/// select-graphic-rendition sequences and operating-system commands; with
/// `lines`, line ends too.
pub open spec fn tame(s: Seq<char>, lines: bool) -> bool
    decreases s.len(),
{
    if s.len() == 0 {
        true
    } else if s[0] == '\x1b' {
        match sequence_ends(s) {
            Some(n) => 0 < n <= s.len() && n >= 3 && (s[1] == '[' && s[n - 1] == 'm' || s[1] == ']')
                && tame(s.skip(n), lines),
            None => false,
        }
    } else {
        (s[0] as u32 >= 0x20 && s[0] != '\x7f' || lines && s[0] == '\n') && tame(s.skip(1), lines)
    }
}

/// The characters of such a text without its sequences.
pub open spec fn visible(s: Seq<char>) -> Seq<char>
    decreases s.len(),
{
    if s.len() == 0 {
        Seq::empty()
    } else if s[0] == '\x1b' {
        match sequence_ends(s) {
            Some(n) => if 0 < n <= s.len() {
                visible(s.skip(n))
            } else {
                Seq::empty()
            },
            None => Seq::empty(),
        }
    } else {
        seq![s[0]] + visible(s.skip(1))
    }
}

/// Two screens that look the same, but for what is dimmed.
pub open spec fn looks(a: Screen, b: Screen) -> bool {
    &&& a.cols == b.cols
    &&& a.row == b.row
    &&& a.col == b.col
    &&& forall|p: int| (#[trigger] (a.cells)(p)).0 == ((b.cells)(p)).0
}

/// Printing characters only.
pub open spec fn is_plain(x: Seq<char>) -> bool {
    forall|k: int| 0 <= k < x.len() ==> (#[trigger] x[k]) as u32 >= 0x20 && x[k] != '\x7f'
}

pub(crate) proof fn csi_ends_facts(s: Seq<char>, i: int)
    requires
        0 <= i,
    ensures
        csi_ends(s, i) matches Some(n) ==> i < n <= s.len() && is_final(s[n - 1]) && (forall|k: int|
            i <= k < n - 1 ==> !is_final(#[trigger] s[k])),
    decreases s.len() - i,
{
    if i < s.len() && !is_final(s[i]) {
        csi_ends_facts(s, i + 1);
    }
}

pub(crate) proof fn csi_ends_at(s: Seq<char>, i: int, n: int)
    requires
        0 <= i < n <= s.len(),
        is_final(s[n - 1]),
        forall|k: int| i <= k < n - 1 ==> !is_final(#[trigger] s[k]),
    ensures
        csi_ends(s, i) == Some(n),
    decreases n - i,
{
    if i < n - 1 {
        assert(!is_final(s[i]));
        csi_ends_at(s, i + 1, n);
    }
}

pub(crate) proof fn osc_ends_facts(s: Seq<char>, i: int)
    requires
        0 <= i,
    ensures
        osc_ends(s, i) matches Some(n) ==> i < n <= s.len(),
    decreases s.len() - i,
{
    if i < s.len() {
        osc_ends_facts(s, i + 1);
    }
}

proof fn csi_ends_in_front(s: Seq<char>, t: Seq<char>, i: int)
    requires
        0 <= i,
        csi_ends(s, i) is Some,
    ensures
        csi_ends(s + t, i) == csi_ends(s, i),
    decreases s.len() - i,
{
    if i < s.len() {
        assert((s + t)[i] == s[i]);
        if !is_final(s[i]) {
            csi_ends_in_front(s, t, i + 1);
        }
    }
}

proof fn osc_ends_in_front(s: Seq<char>, t: Seq<char>, i: int)
    requires
        0 <= i,
        osc_ends(s, i) is Some,
    ensures
        osc_ends(s + t, i) == osc_ends(s, i),
    decreases s.len() - i,
{
    if i < s.len() {
        assert((s + t)[i] == s[i]);
        if i + 1 < s.len() {
            assert((s + t)[i + 1] == s[i + 1]);
        }
        if s[i] != '\x07' && !(s[i] == '\x1b' && i + 1 < s.len() && s[i + 1] == '\\') {
            osc_ends_in_front(s, t, i + 1);
        }
    }
}

/// A whole sequence at the start of a text ends where it ends alone.
pub(crate) proof fn sequence_in_front(s: Seq<char>, t: Seq<char>)
    requires
        sequence_ends(s) is Some,
    ensures
        sequence_ends(s + t) == sequence_ends(s),
        sequence_ends(s) matches Some(n) && 0 < n <= s.len(),
{
    assert((s + t)[1] == s[1]);
    if s[1] == '[' {
        csi_ends_in_front(s, t, 2);
        csi_ends_facts(s, 2);
    } else if s[1] == ']' {
        osc_ends_in_front(s, t, 2);
        osc_ends_facts(s, 2);
    }
}

/// A sequence is obeyed, and then the rest.
pub(crate) proof fn run_sequence(st: Screen, s: Seq<char>, rest: Seq<char>)
    requires
        s.len() >= 2,
        s[0] == '\x1b',
        sequence_ends(s) == Some(s.len() as int),
    ensures
        run(st, s + rest) == run(st.obeyed(s), rest),
{
    sequence_in_front(s, rest);
    assert((s + rest)[0] == s[0]);
    assert((s + rest).take(s.len() as int) =~= s);
    assert((s + rest).skip(s.len() as int) =~= rest);
}

/// A character is written, and then the rest.
pub(crate) proof fn run_char(st: Screen, c: char, rest: Seq<char>)
    requires
        c != '\x1b',
    ensures
        run(st, seq![c] + rest) == run(st.written(c), rest),
{
    let s = seq![c] + rest;
    assert(s[0] == c);
    assert(s.skip(1) =~= rest);
}

/// Writing keeps two screens alike.
proof fn writing_keeps_looks(a: Screen, b: Screen, c: char)
    requires
        looks(a, b),
    ensures
        looks(a.written(c), b.written(c)),
{
}

pub(crate) proof fn typing_keeps_looks(a: Screen, b: Screen, x: Seq<char>)
    requires
        looks(a, b),
    ensures
        looks(typed(a, x), typed(b, x)),
    decreases x.len(),
{
    if x.len() > 0 {
        writing_keeps_looks(a, b, x[0]);
        typing_keeps_looks(a.written(x[0]), b.written(x[0]), x.skip(1));
    }
}

/// Plain text is typed, and then the rest is run.
pub(crate) proof fn run_plain(st: Screen, x: Seq<char>, rest: Seq<char>)
    requires
        is_plain(x),
    ensures
        run(st, x + rest) == run(typed(st, x), rest),
    decreases x.len(),
{
    if x.len() == 0 {
        assert(x + rest =~= rest);
    } else {
        assert(x[0] as u32 >= 0x20);
        assert(x + rest =~= seq![x[0]] + (x.skip(1) + rest));
        run_char(st, x[0], x.skip(1) + rest);
        assert forall|k: int| 0 <= k < x.skip(1).len() implies (#[trigger] x.skip(1)[k]) as u32
            >= 0x20 && x.skip(1)[k] != '\x7f' by {
            assert(x.skip(1)[k] == x[k + 1]);
        }
        run_plain(st.written(x[0]), x.skip(1), rest);
    }
}

/// A sequence that neither moves nor fills leaves the screen as it looks.
proof fn a_tame_sequence_is_harmless(st: Screen, s: Seq<char>)
    requires
        s.len() >= 3,
        s[1] == '[' && s.last() == 'm' || s[1] == ']',
    ensures
        looks(st.obeyed(s), st),
{
}

/// Tame text fills and moves as its characters do.
pub(crate) proof fn run_tame(st: Screen, s: Seq<char>, rest: Seq<char>) -> (u: Screen)
    requires
        tame(s, false),
    ensures
        run(st, s + rest) == run(u, rest),
        looks(u, typed(st, visible(s))),
    decreases s.len(),
{
    if s.len() == 0 {
        assert(s + rest =~= rest);
        st
    } else if s[0] == '\x1b' {
        let n = sequence_ends(s)->0;
        let head = s.take(n);
        let tail = s.skip(n);
        ends_alone(s, n);
        assert(s + rest =~= head + (tail + rest));
        run_sequence(st, head, tail + rest);
        a_tame_sequence_is_harmless(st, head);
        let u = run_tame(st.obeyed(head), tail, rest);
        typing_keeps_looks(st.obeyed(head), st, visible(tail));
        u
    } else {
        assert(s + rest =~= seq![s[0]] + (s.skip(1) + rest));
        run_char(st, s[0], s.skip(1) + rest);
        let u = run_tame(st.written(s[0]), s.skip(1), rest);
        let x = visible(s);
        assert(x[0] == s[0]);
        assert(x.skip(1) =~= visible(s.skip(1)));
        u
    }
}

/// A sequence ends where it does without what follows.
pub(crate) proof fn ends_alone(s: Seq<char>, n: int)
    requires
        sequence_ends(s) == Some(n),
        n <= s.len(),
    ensures
        0 < n,
        sequence_ends(s.take(n)) == Some(n),
{
    let head = s.take(n);
    if s[1] == '[' {
        csi_ends_facts(s, 2);
        assert forall|k: int| 2 <= k < n - 1 implies !is_final(#[trigger] head[k]) by {
            assert(head[k] == s[k]);
        }
        csi_ends_at(head, 2, n);
    } else if s[1] == ']' {
        osc_ends_facts(s, 2);
        osc_ends_alone(s, 2, n);
    }
}

proof fn osc_ends_alone(s: Seq<char>, i: int, n: int)
    requires
        0 <= i,
        osc_ends(s, i) == Some(n),
        n <= s.len(),
    ensures
        osc_ends(s.take(n), i) == Some(n),
    decreases s.len() - i,
{
    let head = s.take(n);
    osc_ends_facts(s, i);
    if s[i] == '\x07' {
        assert(head[i] == s[i]);
    } else if s[i] == '\x1b' && i + 1 < s.len() && s[i + 1] == '\\' {
        assert(head[i] == s[i] && head[i + 1] == s[i + 1]);
    } else {
        osc_ends_facts(s, i + 1);
        assert(head[i] == s[i]);
        if i + 1 < n {
            assert(head[i + 1] == s[i + 1]);
        }
        osc_ends_alone(s, i + 1, n);
    }
}

/// Visible characters are plain.
pub(crate) proof fn visible_is_plain(s: Seq<char>)
    requires
        tame(s, false),
    ensures
        is_plain(visible(s)),
    decreases s.len(),
{
    if s.len() > 0 {
        if s[0] == '\x1b' {
            visible_is_plain(s.skip(sequence_ends(s)->0));
        } else {
            visible_is_plain(s.skip(1));
            let x = visible(s);
            assert forall|k: int| 0 <= k < x.len() implies (#[trigger] x[k]) as u32 >= 0x20 && x[k]
                != '\x7f' by {
                if k > 0 {
                    assert(x[k] == visible(s.skip(1))[k - 1]);
                }
            }
        }
    }
}

/// Plain text is tame and all visible, in front of tame text too.
pub(crate) proof fn plain_is_visible(x: Seq<char>, s: Seq<char>)
    requires
        is_plain(x),
        tame(s, false),
    ensures
        tame(x + s, false),
        visible(x + s) == x + visible(s),
    decreases x.len(),
{
    if x.len() == 0 {
        assert(x + s =~= s);
        assert(x + visible(s) =~= visible(s));
    } else {
        assert(x[0] as u32 >= 0x20);
        let all = x + s;
        assert(all[0] == x[0]);
        assert(all.skip(1) =~= x.skip(1) + s);
        assert forall|k: int| 0 <= k < x.skip(1).len() implies (#[trigger] x.skip(1)[k]) as u32
            >= 0x20 && x.skip(1)[k] != '\x7f' by {
            assert(x.skip(1)[k] == x[k + 1]);
        }
        plain_is_visible(x.skip(1), s);
        assert(visible(all) =~= x + visible(s));
    }
}

/// A tame sequence in front of tame text is tame and not visible.
pub(crate) proof fn sequence_is_invisible(seq: Seq<char>, s: Seq<char>)
    requires
        seq.len() >= 3,
        seq[0] == '\x1b',
        sequence_ends(seq) == Some(seq.len() as int),
        seq[1] == '[' && seq.last() == 'm' || seq[1] == ']',
        tame(s, false),
    ensures
        tame(seq + s, false),
        visible(seq + s) == visible(s),
{
    sequence_in_front(seq, s);
    let n = seq.len() as int;
    assert((seq + s)[0] == seq[0]);
    assert((seq + s)[1] == seq[1]);
    assert((seq + s)[n - 1] == seq[n - 1]);
    assert((seq + s).skip(n) =~= s);
}

/// Columns add up.
pub(crate) proof fn wide_add(a: Seq<char>, b: Seq<char>)
    ensures
        wide(a + b) == wide(a) + wide(b),
    decreases a.len(),
{
    if a.len() == 0 {
        assert(a + b =~= b);
    } else {
        assert((a + b)[0] == a[0]);
        assert((a + b).skip(1) =~= a.skip(1) + b);
        wide_add(a.skip(1), b);
    }
}

pub(crate) proof fn wide_is_not_negative(x: Seq<char>)
    ensures
        wide(x) >= 0,
    decreases x.len(),
{
    if x.len() > 0 {
        wide_is_not_negative(x.skip(1));
    }
}

/// Two texts in a row are typed one after the other.
pub(crate) proof fn typed_add(st: Screen, a: Seq<char>, b: Seq<char>)
    ensures
        typed(st, a + b) == typed(typed(st, a), b),
    decreases a.len(),
{
    if a.len() == 0 {
        assert(a + b =~= b);
    } else {
        assert((a + b)[0] == a[0]);
        assert((a + b).skip(1) =~= a.skip(1) + b);
        typed_add(st.written(a[0]), a.skip(1), b);
    }
}

/// Where the cursor is after as many columns as `at`, from the start of the
/// first row on: the wrap waits for another character.
pub open spec fn behind(st: Screen, cols: int, at: int) -> bool {
    st.cols == cols && st.row * cols + st.col == at && (0 < st.col <= cols)
}

/// Plain characters fill the cells from the cursor on, and move it behind them.
pub(crate) proof fn typing_fills(st: Screen, x: Seq<char>)
    requires
        is_plain(x),
        st.cols > 0,
        0 <= st.col <= st.cols,
    ensures
        ({
            let u = typed(st, x);
            let at = st.row * st.cols + st.col;
            &&& u.dim == st.dim
            &&& wide(x) == 0 ==> u.row == st.row && u.col == st.col && u.cols == st.cols
            &&& wide(x) > 0 ==> behind(u, st.cols, at + wide(x))
            &&& forall|p: int|
                #[trigger] (u.cells)(p) == (if at <= p < at + wide(x) {
                    (drawn(x, p - at), st.dim)
                } else {
                    (st.cells)(p)
                })
        }),
    decreases x.len(),
{
    if x.len() > 0 {
        let c = x[0];
        let w = columns_of(c);
        let next = st.written(c);
        let at = st.row * st.cols + st.col;
        assert(c as u32 >= 0x20);
        assert forall|k: int| 0 <= k < x.skip(1).len() implies (#[trigger] x.skip(1)[k]) as u32
            >= 0x20 && x.skip(1)[k] != '\x7f' by {
            assert(x.skip(1)[k] == x[k + 1]);
        }
        wide_is_not_negative(x.skip(1));
        if w > 0 {
            vstd::arithmetic::div_mod::lemma_fundamental_div_mod(at + w - 1, st.cols);
            vstd::arithmetic::div_mod::lemma_mod_bound(at + w - 1, st.cols);
            let q = (at + w - 1) / st.cols;
            assert(q * st.cols == st.cols * q) by (nonlinear_arith);
            assert(next.row * st.cols + next.col == at + w);
        }
        typing_fills(next, x.skip(1));
    }
}

/// Output in which every sequence that is begun is ended.
pub open spec fn is_whole(s: Seq<char>) -> bool
    decreases s.len(),
{
    if s.len() == 0 {
        true
    } else if s[0] == '\x1b' {
        match sequence_ends(s) {
            Some(n) => 0 < n <= s.len() && is_whole(s.skip(n)),
            None => false,
        }
    } else {
        is_whole(s.skip(1))
    }
}

/// Whole output and then more is run one after the other.
pub(crate) proof fn run_add(st: Screen, a: Seq<char>, b: Seq<char>)
    requires
        is_whole(a),
    ensures
        run(st, a + b) == run(run(st, a), b),
        is_whole(b) ==> is_whole(a + b),
    decreases a.len(),
{
    if a.len() == 0 {
        assert(a + b =~= b);
    } else if a[0] == '\x1b' {
        let n = sequence_ends(a)->0;
        sequence_in_front(a, b);
        assert((a + b)[0] == a[0]);
        assert((a + b).take(n) =~= a.take(n));
        assert((a + b).skip(n) =~= a.skip(n) + b);
        run_add(st.obeyed(a.take(n)), a.skip(n), b);
    } else {
        assert((a + b)[0] == a[0]);
        assert((a + b).skip(1) =~= a.skip(1) + b);
        run_add(st.written(a[0]), a.skip(1), b);
    }
}

pub(crate) proof fn tame_is_whole(s: Seq<char>, lines: bool)
    requires
        tame(s, lines),
    ensures
        is_whole(s),
    decreases s.len(),
{
    if s.len() > 0 {
        if s[0] == '\x1b' {
            tame_is_whole(s.skip(sequence_ends(s)->0), lines);
        } else {
            tame_is_whole(s.skip(1), lines);
        }
    }
}

/// One sequence is whole.
pub(crate) proof fn run_one(st: Screen, s: Seq<char>)
    requires
        s.len() >= 2,
        s[0] == '\x1b',
        sequence_ends(s) == Some(s.len() as int),
    ensures
        run(st, s) == st.obeyed(s),
        is_whole(s),
{
    let none = Seq::<char>::empty();
    assert(s + none =~= s);
    run_sequence(st, s, none);
    assert(s.skip(s.len() as int) =~= none);
    assert(is_whole(none));
}

/// Digits are read back as the number.
proof fn digits_are_the_number(n: nat)
    ensures
        value_of(decimal(n)) == n,
        decimal(n).len() > 0,
        forall|i: int| 0 <= i < decimal(n).len() ==> '0' <= #[trigger] decimal(n)[i] <= '9',
    decreases n,
{
    let s = decimal(n);
    if n < 10 {
        assert(s.drop_last() =~= Seq::<char>::empty());
        reveal_with_fuel(value_of, 2);
        assert(digit(n) as u32 == '0' as u32 + n);
    } else {
        digits_are_the_number(n / 10);
        assert(s.drop_last() =~= decimal(n / 10));
        assert(digit(n % 10) as u32 == '0' as u32 + n % 10);
    }
}

/// A control sequence with a number.
pub(crate) proof fn run_with_number(st: Screen, n: nat, last: char)
    requires
        is_final(last),
    ensures
        ({
            let s = seq!['\x1b', '['] + decimal(n) + seq![last];
            &&& is_whole(s)
            &&& run(st, s) == st.obeyed(s)
            &&& last == 'A' ==> run(st, s) == (Screen { row: st.row - n, ..st })
            &&& last == 'B' ==> run(st, s) == (Screen { row: st.row + n, ..st })
            &&& last == 'G' ==> run(st, s) == (Screen { col: n - 1, ..st })
        }),
{
    let s = seq!['\x1b', '['] + decimal(n) + seq![last];
    digits_are_the_number(n);
    assert forall|k: int| 2 <= k < s.len() - 1 implies !is_final(#[trigger] s[k]) by {
        assert(s[k] == decimal(n)[k - 2]);
    }
    csi_ends_at(s, 2, s.len() as int);
    run_one(st, s);
    assert(s.subrange(2, s.len() - 1) =~= decimal(n));
}

/// A control sequence with at most one parameter character.
pub(crate) proof fn run_short(st: Screen, s: Seq<char>)
    requires
        3 <= s.len() <= 4,
        s[0] == '\x1b',
        s[1] == '[',
        is_final(s.last()),
        s.len() == 4 ==> !is_final(s[2]),
    ensures
        is_whole(s),
        run(st, s) == st.obeyed(s),
{
    csi_ends_at(s, 2, s.len() as int);
    run_one(st, s);
}

/// Output of line ends and tame text that ends in a line end leaves the cursor
/// at the start of a row.
pub(crate) proof fn lines_end_at_the_start(st: Screen, s: Seq<char>)
    requires
        tame(s, true),
        s.len() > 0 ==> s.last() == '\n',
        s.len() == 0 ==> st.col == 0,
    ensures
        run(st, s).col == 0,
        run(st, s).cols == st.cols,
    decreases s.len(),
{
    if s.len() > 0 {
        if s[0] == '\x1b' {
            let n = sequence_ends(s)->0;
            if s[1] == ']' {
                osc_ends_last(s, 2);
            }
            assert(n < s.len()) by {
                assert(s.last() == s[s.len() - 1]);
            }
            assert(s.skip(n).last() == s.last());
            lines_end_at_the_start(st.obeyed(s.take(n)), s.skip(n));
        } else if s.len() == 1 {
            assert(s.skip(1).len() == 0);
            assert(s[0] == s.last());
        } else {
            assert(s.skip(1).last() == s.last());
            lines_end_at_the_start(st.written(s[0]), s.skip(1));
        }
    }
}

proof fn osc_ends_last(s: Seq<char>, i: int)
    requires
        0 <= i,
    ensures
        osc_ends(s, i) matches Some(n) ==> s[n - 1] == '\x07' || s[n - 1] == '\\',
    decreases s.len() - i,
{
    if i < s.len() {
        osc_ends_last(s, i + 1);
    }
}

} // verus!
