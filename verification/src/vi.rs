//! vi normal mode: counts, the `d`/`c`/`y` operators over motions and word
//! objects, character finds, and the standard edits. There are no registers
//! (the unnamed one is the kill ring), no `.` repeat and no `/` search.
use vstd::prelude::*;

use crate::edit::{kill_span, pushed_is_on_top, undo_cmd};
use crate::keys::Key;
use crate::line::{Action, Line, LineState};
use crate::recall::{history_next, history_prev, show};
use crate::ring::{KillRing, Ring};
use crate::text::{copy, push_chars, slice, texts};
use crate::unicode::{lower_mapping, to_lower, to_upper, upper_mapping, uppercase};
use crate::words::{
    apply_n, as_target, back_n, find_target, first_nonblank, forward_by, fwd_n, invert_find,
    inverted, nonblank, run_end, run_start, scan_back, scan_forward, vi_class, vi_class_of,
    vi_find_target, words_moved, Class, WordMotion,
};

verus! {

/// The bracket that goes with a bracket, and whether it stands after it.
pub open spec fn partner(c: char) -> Option<(char, bool)> {
    if c == '(' {
        Some((')', true))
    } else if c == ')' {
        Some(('(', false))
    } else if c == '[' {
        Some((']', true))
    } else if c == ']' {
        Some(('[', false))
    } else if c == '{' {
        Some(('}', true))
    } else if c == '}' {
        Some(('{', false))
    } else {
        None
    }
}

/// The nesting depth after a character, in a walk away from a bracket `own`
/// towards its partner.
pub open spec fn depth_after(c: char, own: char, other: char, depth: int) -> int {
    if c == own {
        depth + 1
    } else if c == other {
        depth - 1
    } else {
        depth
    }
}

/// Where, from `k` on, the nesting is closed.
pub open spec fn closed_after(s: Seq<char>, k: int, own: char, other: char, depth: int) -> Option<
    int,
>
    decreases s.len() - k,
{
    if k < 0 || k >= s.len() {
        None
    } else {
        let d = depth_after(s[k], own, other, depth);
        if d == 0 {
            Some(k)
        } else {
            closed_after(s, k + 1, own, other, d)
        }
    }
}

/// Where, before `k`, the nesting is closed.
pub open spec fn closed_before(s: Seq<char>, k: int, own: char, other: char, depth: int) -> Option<
    int,
>
    decreases k,
{
    if k <= 0 || k > s.len() {
        None
    } else {
        let d = depth_after(s[k - 1], own, other, depth);
        if d == 0 {
            Some(k - 1)
        } else {
            closed_before(s, k - 1, own, other, d)
        }
    }
}

/// Where `%` leads: the bracket that matches the first one at or after `pos`.
pub open spec fn matching(s: Seq<char>, pos: int) -> Option<int>
    decreases s.len() - pos,
{
    if pos < 0 || pos >= s.len() {
        None
    } else {
        match partner(s[pos]) {
            Some((other, true)) => closed_after(s, pos, s[pos], other, 0),
            Some((other, false)) => closed_before(s, pos + 1, s[pos], other, 0),
            None => matching(s, pos + 1),
        }
    }
}

/// The span of the word object at `pos`: `iw` is the run of one class under the
/// cursor; `aw` adds the blanks behind a word (or before it, when there are
/// none), and to blanks the word behind them.
pub open spec fn word_object(s: Seq<char>, pos: int, around: bool) -> Option<(int, int)> {
    if pos < 0 || pos >= s.len() {
        None
    } else {
        let class = vi_class_of(s[pos]);
        let a = run_start(s, pos, Class::Vi(class));
        let b = run_end(s, pos, Class::Vi(class));
        if !around {
            Some((a, b))
        } else if class == 0 {
            if b < s.len() {
                Some((a, run_end(s, b, Class::Vi(vi_class_of(s[b])))))
            } else {
                Some((a, b))
            }
        } else {
            let c = run_end(s, b, Class::Vi(0));
            if c > b {
                Some((a, c))
            } else {
                Some((run_start(s, a, Class::Vi(0)), b))
            }
        }
    }
}

/// `n` finds in a row: where the last one leads, if all succeed.
pub open spec fn found_n(s: Seq<char>, pos: int, kind: char, c: char, n: nat) -> Option<(int, bool)>
    decreases n,
{
    match find_target(s, pos, kind, c) {
        Some((t, inclusive)) => if n <= 1 {
            Some((t, inclusive))
        } else {
            found_n(s, t, kind, c, (n - 1) as nat)
        },
        None => None,
    }
}

/// Text with the case of each character switched.
pub open spec fn flipped(s: Seq<char>) -> Seq<char>
    decreases s.len(),
{
    if s.len() == 0 {
        Seq::empty()
    } else {
        flipped(s.drop_last()) + if uppercase(s.last()) {
            lower_mapping(s.last())
        } else {
            upper_mapping(s.last())
        }
    }
}

/// Text `n` times over.
pub open spec fn repeated(s: Seq<char>, n: nat) -> Seq<char>
    decreases n,
{
    if n == 0 {
        Seq::empty()
    } else {
        repeated(s, (n - 1) as nat) + s
    }
}

impl Line {
    /// The count that a command is repeated by.
    pub open spec fn vi_times(self) -> int {
        if self.vi_count > 0 {
            self.vi_count
        } else {
            1
        }
    }

    /// With count and operator used up.
    pub open spec fn vi_settled(self) -> Line {
        Line { vi_count: 0, vi_op: None, ..self }
    }

    /// With an operator applied to a span.
    #[verifier::opaque]
    pub open spec fn operated(
        self,
        ring: Ring,
        op: char,
        start: int,
        end: int,
        forward: bool,
    ) -> (Line, Ring) {
        if start >= end {
            if op == 'c' {
                (Line { vi_normal: false, ..self }, ring)
            } else {
                (self, ring)
            }
        } else if op == 'd' {
            self.killed(ring, start, end, forward)
        } else if op == 'c' {
            let (l, r) = self.killed(ring, start, end, forward);
            (Line { vi_normal: false, ..l }, r)
        } else {
            (Line { cursor: start, ..self }, ring.pushed(self.buffer.subrange(start, end)))
        }
    }

    /// With an operator applied from the cursor to a motion's target.
    #[verifier::opaque]
    pub open spec fn operated_to(
        self,
        ring: Ring,
        op: char,
        target: int,
        inclusive: bool,
    ) -> (Line, Ring) {
        if target >= self.cursor {
            let end = if inclusive {
                forward_by(self.buffer, target, 1)
            } else {
                target
            };
            self.operated(ring, op, self.cursor, end, true)
        } else {
            let end = if inclusive {
                forward_by(self.buffer, self.cursor, 1)
            } else {
                self.cursor
            };
            self.operated(ring, op, target, end, false)
        }
    }

    /// After a motion: the operator applied, or the cursor moved.
    #[verifier::opaque]
    pub open spec fn moved(
        self,
        ring: Ring,
        op: Option<char>,
        target: int,
        inclusive: bool,
    ) -> (Line, Ring) {
        match op {
            Some(op) => self.operated_to(ring, op, target, inclusive),
            None => (Line { cursor: target, ..self }, ring),
        }
    }

    /// A motion's target, and whether an operator over it is inclusive.
    #[verifier::opaque]
    pub open spec fn motion(self, key: Key, n: int) -> Option<(int, bool)> {
        let s = self.buffer;
        match key {
            Key::Left | Key::Backspace => Some(
                (
                    if self.cursor >= n {
                        self.cursor - n
                    } else {
                        0
                    },
                    false,
                ),
            ),
            Key::Right => Some((forward_by(s, self.cursor, n), false)),
            Key::Home => Some((0, false)),
            Key::End => Some((s.len() as int, false)),
            Key::Char(c) => if c == 'h' {
                Some(
                    (
                        if self.cursor >= n {
                            self.cursor - n
                        } else {
                            0
                        },
                        false,
                    ),
                )
            } else if c == 'l' || c == ' ' {
                Some((forward_by(s, self.cursor, n), false))
            } else if c == '0' {
                Some((0, false))
            } else if c == '^' {
                Some((nonblank(s), false))
            } else if c == '$' {
                Some((s.len() as int, false))
            } else if c == 'w' || c == 'W' {
                // vi quirk: `cw` behaves like `ce`.
                if self.vi_op == Some('c') {
                    Some((words_moved(s, self.cursor, n as nat, WordMotion::End), true))
                } else {
                    Some((words_moved(s, self.cursor, n as nat, WordMotion::Forward), false))
                }
            } else if c == 'b' || c == 'B' {
                Some((words_moved(s, self.cursor, n as nat, WordMotion::Back), false))
            } else if c == 'e' || c == 'E' {
                Some((words_moved(s, self.cursor, n as nat, WordMotion::End), true))
            } else if c == ';' || c == ',' {
                match self.last_find {
                    Some((kind, target)) => find_target(
                        s,
                        self.cursor,
                        if c == ',' {
                            inverted(kind)
                        } else {
                            kind
                        },
                        target,
                    ),
                    None => None,
                }
            } else if c == '%' {
                match matching(s, self.cursor) {
                    Some(t) => Some((t, true)),
                    None => None,
                }
            } else {
                None
            },
            _ => None,
        }
    }

    /// A pending `r`: the next character replaces as many as the count says,
    /// the cursor on the last; with fewer left, the bell rings.
    #[verifier::opaque]
    pub open spec fn replaced(self, key: Key) -> Line {
        let n = self.vi_times();
        let l = Line { vi_replace: false, vi_count: 0, ..self };
        match key {
            Key::Char(c) => if self.cursor + n <= self.buffer.len() {
                Line {
                    cursor: self.cursor + n - 1,
                    ..l.put(self.cursor, self.cursor + n, Seq::new(n as nat, |i: int| c))
                }
            } else {
                l.rung()
            },
            _ => l,
        }
    }

    /// A pending `f F t T`: the next character is the find target. A find that
    /// fails rings the bell.
    #[verifier::opaque]
    pub open spec fn found(self, ring: Ring, kind: char, key: Key) -> (Line, Ring) {
        let l = Line { vi_find: None, ..self.vi_settled() };
        match key {
            Key::Char(c) => {
                let l = Line { last_find: Some((kind, c)), ..l };
                match found_n(self.buffer, self.cursor, kind, c, self.vi_times() as nat) {
                    Some((t, inclusive)) => l.moved(ring, self.vi_op, t, inclusive),
                    None => (l.rung(), ring),
                }
            },
            _ => (l, ring),
        }
    }

    /// A pending text object: `w` completes it.
    #[verifier::opaque]
    pub open spec fn object(self, ring: Ring, kind: char, key: Key) -> (Line, Ring) {
        let l = Line { vi_object: None, ..self.vi_settled() };
        if key == Key::Char('w') {
            match (self.vi_op, word_object(self.buffer, self.cursor, kind == 'a')) {
                (Some(op), Some((start, end))) => l.operated(ring, op, start, end, true),
                _ => (l, ring),
            }
        } else {
            (l, ring)
        }
    }

    /// With the top of the ring pasted `n` times at `at`, the cursor on the
    /// last character pasted.
    #[verifier::opaque]
    pub open spec fn pasted(self, ring: Ring, at: int, n: int) -> Line {
        match ring.top() {
            Some(text) => if text.len() > 0 {
                let all = repeated(text, n as nat);
                Line { cursor: at + all.len() - 1, ..self.put(at, at, all) }
            } else {
                self
            },
            None => self,
        }
    }

    /// With the case of `n` characters switched, the cursor behind them.
    #[verifier::opaque]
    pub open spec fn case_flipped(self, n: int) -> Line {
        let end = forward_by(self.buffer, self.cursor, n);
        self.put(self.cursor, end, flipped(self.buffer.subrange(self.cursor, end)))
    }

    /// `G`: the newest history entry, or the one with the number given.
    #[verifier::opaque]
    pub open spec fn fetched(self, history: Seq<Seq<char>>, count: int) -> Line {
        let i = if count > 0 {
            count - 1
        } else {
            history.len() - 1
        };
        if 0 <= i < history.len() {
            self.showing(history, i)
        } else {
            self.rung()
        }
    }

    /// The line copied into the ring.
    pub open spec fn copied(self, ring: Ring) -> Ring {
        if self.buffer.len() > 0 {
            ring.pushed(self.buffer)
        } else {
            ring
        }
    }

    /// In insert mode.
    pub open spec fn inserting(self) -> Line {
        Line { vi_normal: false, ..self }
    }

    /// `dd`, `cc`, `yy`.
    #[verifier::opaque]
    pub open spec fn linewise(self, ring: Ring, op: char) -> (Line, Ring) {
        let len = self.buffer.len() as int;
        if op == 'd' {
            self.killed(ring, 0, len, true)
        } else if op == 'c' {
            let (l, r) = self.killed(ring, 0, len, true);
            (l.inserting(), r)
        } else {
            (Line { cursor: 0, ..self }, self.copied(ring))
        }
    }

    /// A command that is no motion. `self` still holds count and operator; an
    /// unrecognized key cancels both.
    #[verifier::opaque]
    pub open spec fn vi_command(self, ring: Ring, key: Key, history: Seq<Seq<char>>) -> (
        Line,
        Ring,
    ) {
        let n = self.vi_times();
        let l = self.vi_settled();
        let len = self.buffer.len() as int;
        let after = forward_by(self.buffer, self.cursor, n);
        let before = if self.cursor >= n {
            self.cursor - n
        } else {
            0
        };
        let next = forward_by(self.buffer, self.cursor, 1);
        match key {
            Key::Delete => l.killed(ring, self.cursor, after, true),
            Key::Up => (l.older(history), ring),
            Key::Down => (l.newer(history), ring),
            Key::Char(c) => if c == 'd' || c == 'c' || c == 'y' {
                if self.vi_op == Some(c) {
                    l.linewise(ring, c)
                } else {
                    (Line { vi_op: Some(c), ..self }, ring)
                }
            } else if c == 'x' {
                l.killed(ring, self.cursor, after, true)
            } else if c == 'X' {
                l.killed(ring, before, self.cursor, false)
            } else if c == 's' {
                let (k, r) = l.killed(ring, self.cursor, after, true);
                (k.inserting(), r)
            } else if c == 'D' {
                l.killed(ring, self.cursor, len, true)
            } else if c == 'C' {
                let (k, r) = l.killed(ring, self.cursor, len, true);
                (k.inserting(), r)
            } else if c == 'S' {
                l.linewise(ring, 'c')
            } else if c == 'Y' {
                (l, self.copied(ring))
            } else if c == 'r' {
                (Line { vi_replace: true, ..self }, ring)
            } else if c == '~' {
                (l.case_flipped(n), ring)
            } else if c == 'p' {
                (l.pasted(ring, next, n), ring)
            } else if c == 'P' {
                (l.pasted(ring, self.cursor, n), ring)
            } else if c == 'u' {
                (l.undone(), ring)
            } else if c == 'i' {
                (l.inserting(), ring)
            } else if c == 'I' {
                (Line { cursor: 0, ..l.inserting() }, ring)
            } else if c == 'a' {
                (Line { cursor: next, ..l.inserting() }, ring)
            } else if c == 'A' {
                (Line { cursor: len, ..l.inserting() }, ring)
            } else if c == 'k' {
                (l.older(history), ring)
            } else if c == 'j' {
                (l.newer(history), ring)
            } else if c == 'G' {
                (l.fetched(history, self.vi_count), ring)
            } else if c == ';' || c == ',' {
                (l.rung(), ring)
            } else {
                (l, ring)
            },
            _ => (l, ring),
        }
    }

    /// With a digit added to the count.
    #[verifier::opaque]
    pub open spec fn counted(self, c: char) -> Line {
        let n = self.vi_count * 10 + (c as int - '0' as int);
        Line {
            vi_count: if n <= usize::MAX {
                n
            } else {
                usize::MAX as int
            },
            ..self
        }
    }

    /// What a key does in normal mode.
    #[verifier::opaque]
    pub open spec fn vi_key(self, ring: Ring, key: Key, history: Seq<Seq<char>>) -> (Line, Ring) {
        if self.vi_replace {
            (self.replaced(key), ring)
        } else if let Some(kind) = self.vi_object {
            self.object(ring, kind, key)
        } else if let Some(kind) = self.vi_find {
            self.found(ring, kind, key)
        } else if let Some((target, inclusive)) = self.motion(key, self.vi_times()) {
            if key == Key::Char('0') && self.vi_count > 0 {
                (self.counted('0'), ring)
            } else {
                self.vi_settled().moved(ring, self.vi_op, target, inclusive)
            }
        } else {
            match key {
                Key::Char(c) => if '1' <= c <= '9' {
                    (self.counted(c), ring)
                } else if c == 'f' || c == 'F' || c == 't' || c == 'T' {
                    (Line { vi_find: Some(c), ..self }, ring)
                } else if self.vi_op is Some && (c == 'i' || c == 'a') {
                    (Line { vi_object: Some(c), ..self }, ring)
                } else {
                    self.vi_command(ring, key, history)
                },
                _ => self.vi_command(ring, key, history),
            }
        }
    }
}

fn bracket_partner(c: char) -> (r: Option<(char, bool)>)
    ensures
        r == partner(c),
{
    match c {
        '(' => Some((')', true)),
        ')' => Some(('(', false)),
        '[' => Some((']', true)),
        ']' => Some(('[', false)),
        '{' => Some(('}', true)),
        '}' => Some(('{', false)),
        _ => None,
    }
}

fn close_forward(s: &[char], from: usize, own: char, other: char) -> (r: Option<usize>)
    requires
        from < s@.len(),
        s@[from as int] == own,
        own != other,
    ensures
        crate::text::as_index(r) == closed_after(s@, from as int, own, other, 0),
        r matches Some(t) ==> t < s@.len(),
{
    let mut k: usize = from;
    let mut depth: usize = 0;
    while k < s.len()
        invariant
            from <= k <= s@.len(),
            from < s@.len(),
            s@[from as int] == own,
            own != other,
            depth <= k - from,
            k > from ==> depth > 0,
            closed_after(s@, from as int, own, other, 0) == closed_after(
                s@,
                k as int,
                own,
                other,
                depth as int,
            ),
        decreases s@.len() - k,
    {
        if s[k] == own {
            depth += 1;
        } else if s[k] == other {
            depth -= 1;
        }
        if depth == 0 {
            return Some(k);
        }
        k += 1;
    }
    None
}

fn close_backward(s: &[char], from: usize, own: char, other: char) -> (r: Option<usize>)
    requires
        from < s@.len(),
        s@[from as int] == own,
        own != other,
    ensures
        crate::text::as_index(r) == closed_before(s@, from + 1, own, other, 0),
        r matches Some(t) ==> t < s@.len(),
{
    let len = s.len();
    let mut k: usize = from + 1;
    let mut depth: usize = 0;
    while k > 0
        invariant
            k <= from + 1 <= s@.len(),
            s@[from as int] == own,
            own != other,
            depth <= from + 1 - k,
            k <= from ==> depth > 0,
            closed_before(s@, from + 1, own, other, 0) == closed_before(
                s@,
                k as int,
                own,
                other,
                depth as int,
            ),
        decreases k,
    {
        if s[k - 1] == own {
            depth += 1;
        } else if s[k - 1] == other {
            depth -= 1;
        }
        if depth == 0 {
            return Some(k - 1);
        }
        k -= 1;
    }
    None
}

/// `%`: the bracket that matches the first one at or after `pos`.
pub fn match_bracket(s: &[char], pos: usize) -> (r: Option<usize>)
    ensures
        crate::text::as_index(r) == matching(s@, pos as int),
        r matches Some(t) ==> t < s@.len(),
{
    let mut i: usize = pos;
    while i < s.len()
        invariant
            pos <= i,
            matching(s@, pos as int) == matching(s@, i as int),
        decreases s@.len() - i,
    {
        match bracket_partner(s[i]) {
            Some((other, forward)) => {
                if forward {
                    return close_forward(s, i, s[i], other);
                } else {
                    return close_backward(s, i, s[i], other);
                }
            },
            None => {},
        }
        i += 1;
    }
    None
}

/// The span of the word object at `pos`.
pub fn text_object(s: &[char], pos: usize, around: bool) -> (r: Option<(usize, usize)>)
    ensures
        match r {
            Some((a, b)) => word_object(s@, pos as int, around) == Some((a as int, b as int)) && a
                <= b <= s@.len(),
            None => word_object(s@, pos as int, around) is None,
        },
{
    if pos >= s.len() {
        return None;
    }
    let class = vi_class(s[pos]);
    let a = scan_back(s, pos, Class::Vi(class));
    let b = scan_forward(s, pos, Class::Vi(class));
    if !around {
        Some((a, b))
    } else if class == 0 {
        if b < s.len() {
            let word = vi_class(s[b]);
            Some((a, scan_forward(s, b, Class::Vi(word))))
        } else {
            Some((a, b))
        }
    } else {
        let c = scan_forward(s, b, Class::Vi(0));
        if c > b {
            Some((a, c))
        } else {
            Some((scan_back(s, a, Class::Vi(0)), b))
        }
    }
}

fn find_n(s: &[char], pos: usize, kind: char, c: char, n: usize) -> (r: Option<(usize, bool)>)
    requires
        pos <= s@.len(),
        n >= 1,
    ensures
        as_target(r) == found_n(s@, pos as int, kind, c, n as nat),
        r matches Some((t, _)) ==> t <= s@.len(),
{
    let mut at: usize = pos;
    let mut left: usize = n;
    loop
        invariant
            at <= s@.len(),
            left >= 1,
            found_n(s@, pos as int, kind, c, n as nat) == found_n(
                s@,
                at as int,
                kind,
                c,
                left as nat,
            ),
        decreases left,
    {
        match vi_find_target(s, at, kind, c) {
            Some((t, inclusive)) => {
                if left == 1 {
                    return Some((t, inclusive));
                }
                at = t;
                left -= 1;
            },
            None => {
                return None;
            },
        }
    }
}

fn flip(s: &[char]) -> (r: Vec<char>)
    ensures
        r@ == flipped(s@),
{
    let mut out: Vec<char> = Vec::new();
    let mut i: usize = 0;
    while i < s.len()
        invariant
            i <= s@.len(),
            out@ == flipped(s@.take(i as int)),
        decreases s@.len() - i,
    {
        let piece = if s[i].is_uppercase() {
            to_lower(s[i])
        } else {
            to_upper(s[i])
        };
        push_chars(&mut out, piece.as_slice());
        i += 1;
        assert(s@.take(i as int).drop_last() =~= s@.take(i - 1));
    }
    assert(s@.take(i as int) =~= s@);
    out
}

fn repeat(s: &[char], n: usize) -> (r: Vec<char>)
    ensures
        r@ == repeated(s@, n as nat),
{
    let mut out: Vec<char> = Vec::new();
    let mut i: usize = 0;
    while i < n
        invariant
            i <= n,
            out@ == repeated(s@, i as nat),
        decreases n - i,
    {
        push_chars(&mut out, s);
        i += 1;
    }
    out
}

proof fn repeated_grows(s: Seq<char>, n: nat)
    ensures
        n >= 1 ==> repeated(s, n).len() >= s.len(),
    decreases n,
{
    if n > 1 {
        repeated_grows(s, (n - 1) as nat);
    }
}

fn times(st: &LineState) -> (r: usize)
    ensures
        r == st@.vi_times(),
        r >= 1,
{
    if st.vi_count > 0 {
        st.vi_count
    } else {
        1
    }
}

fn settle(st: &mut LineState)
    ensures
        final(st)@ == old(st)@.vi_settled(),
        final(st).inside() == old(st).inside(),
        final(st)@.keeps(old(st)@),
{
    st.vi_count = 0;
    st.vi_op = None;
}

/// Apply a vi operator to a span.
fn apply_span(
    st: &mut LineState,
    ring: &mut KillRing,
    op: char,
    start: usize,
    end: usize,
    forward: bool,
)
    requires
        old(st).inside(),
        end <= old(st).buffer@.len(),
    ensures
        (final(st)@, final(ring)@) == old(st)@.operated(
            old(ring)@,
            op,
            start as int,
            end as int,
            forward,
        ),
        final(st).inside(),
        final(st)@.keeps(old(st)@),
{
    reveal(Line::operated);
    if start >= end {
        if op == 'c' {
            st.vi_normal = false;
        }
        return;
    }
    match op {
        'd' => {
            kill_span(st, ring, start, end, forward);
        },
        'c' => {
            kill_span(st, ring, start, end, forward);
            st.vi_normal = false;
        },
        _ => {
            let text = slice(st.buffer.as_slice(), start, end);
            ring.push(text);
            st.cursor = start;
        },
    }
}

/// Apply a vi operator over the span from the cursor to `target`.
pub fn vi_apply_op(st: &mut LineState, ring: &mut KillRing, op: char, target: usize, inclusive: bool)
    requires
        old(st).inside(),
        target <= old(st).buffer@.len(),
    ensures
        (final(st)@, final(ring)@) == old(st)@.operated_to(
            old(ring)@,
            op,
            target as int,
            inclusive,
        ),
        final(st).inside(),
        final(st)@.keeps(old(st)@),
{
    reveal(Line::operated_to);
    let at = st.cursor;
    if target >= at {
        let end = if inclusive {
            fwd_n(st.buffer.as_slice(), target, 1)
        } else {
            target
        };
        apply_span(st, ring, op, at, end, true);
    } else {
        let end = if inclusive {
            fwd_n(st.buffer.as_slice(), at, 1)
        } else {
            at
        };
        apply_span(st, ring, op, target, end, false);
    }
}

fn move_to(
    st: &mut LineState,
    ring: &mut KillRing,
    op: Option<char>,
    target: usize,
    inclusive: bool,
)
    requires
        old(st).inside(),
        target <= old(st).buffer@.len(),
    ensures
        (final(st)@, final(ring)@) == old(st)@.moved(old(ring)@, op, target as int, inclusive),
        final(st).inside(),
        final(st)@.keeps(old(st)@),
{
    reveal(Line::moved);
    match op {
        Some(op) => {
            vi_apply_op(st, ring, op, target, inclusive);
        },
        None => {
            st.cursor = target;
        },
    }
}

fn resolve_motion(st: &LineState, key: Key, n: usize) -> (r: Option<(usize, bool)>)
    requires
        st.inside(),
    ensures
        as_target(r) == st@.motion(key, n as int),
        r matches Some((t, _)) ==> t <= st.buffer@.len(),
{
    reveal(Line::motion);
    let s = st.buffer.as_slice();
    match key {
        Key::Left | Key::Backspace | Key::Char('h') => Some((back_n(st.cursor, n), false)),
        Key::Right | Key::Char('l') | Key::Char(' ') => Some((fwd_n(s, st.cursor, n), false)),
        Key::Home | Key::Char('0') => Some((0, false)),
        Key::End | Key::Char('$') => Some((s.len(), false)),
        Key::Char('^') => Some((first_nonblank(s), false)),
        Key::Char('w') | Key::Char('W') => match st.vi_op {
            Some('c') => Some((apply_n(s, st.cursor, n, WordMotion::End), true)),
            _ => Some((apply_n(s, st.cursor, n, WordMotion::Forward), false)),
        },
        Key::Char('b') | Key::Char('B') => Some(
            (apply_n(s, st.cursor, n, WordMotion::Back), false),
        ),
        Key::Char('e') | Key::Char('E') => Some((apply_n(s, st.cursor, n, WordMotion::End), true)),
        Key::Char(';') => match st.last_find {
            Some((kind, target)) => vi_find_target(s, st.cursor, kind, target),
            None => None,
        },
        Key::Char(',') => match st.last_find {
            Some((kind, target)) => vi_find_target(s, st.cursor, invert_find(kind), target),
            None => None,
        },
        Key::Char('%') => match match_bracket(s, st.cursor) {
            Some(t) => Some((t, true)),
            None => None,
        },
        _ => None,
    }
}

fn vi_replace_chars(st: &mut LineState, key: Key)
    requires
        old(st).inside(),
    ensures
        final(st)@ == old(st)@.replaced(key),
        final(st).inside(),
        final(st)@.keeps(old(st)@),
{
    reveal(Line::replaced);
    let n = times(st);
    st.vi_replace = false;
    st.vi_count = 0;
    match key {
        Key::Char(c) => {
            let at = st.cursor;
            if n <= st.buffer.len() - at {
                let mut one: Vec<char> = Vec::new();
                one.push(c);
                let text = repeat(one.as_slice(), n);
                proof {
                    repeated_char(c, n as nat);
                    assert(one@ =~= seq![c]);
                }
                st.put(at, at + n, text.as_slice());
                st.cursor = at + n - 1;
            } else {
                st.bell();
            }
        },
        _ => {},
    }
}

proof fn repeated_char(c: char, n: nat)
    ensures
        repeated(seq![c], n) == Seq::new(n, |i: int| c),
    decreases n,
{
    if n > 0 {
        repeated_char(c, (n - 1) as nat);
    }
    assert(repeated(seq![c], n) =~= Seq::new(n, |i: int| c));
}

fn vi_find_char(st: &mut LineState, ring: &mut KillRing, kind: char, key: Key)
    requires
        old(st).inside(),
    ensures
        (final(st)@, final(ring)@) == old(st)@.found(old(ring)@, kind, key),
        final(st).inside(),
        final(st)@.keeps(old(st)@),
{
    reveal(Line::found);
    let n = times(st);
    let op = st.vi_op;
    st.vi_find = None;
    settle(st);
    match key {
        Key::Char(c) => {
            st.last_find = Some((kind, c));
            match find_n(st.buffer.as_slice(), st.cursor, kind, c, n) {
                Some((t, inclusive)) => {
                    move_to(st, ring, op, t, inclusive);
                },
                None => {
                    st.bell();
                },
            }
        },
        _ => {},
    }
}

fn vi_object_key(st: &mut LineState, ring: &mut KillRing, kind: char, key: Key)
    requires
        old(st).inside(),
    ensures
        (final(st)@, final(ring)@) == old(st)@.object(old(ring)@, kind, key),
        final(st).inside(),
        final(st)@.keeps(old(st)@),
{
    reveal(Line::object);
    let op = st.vi_op;
    st.vi_object = None;
    settle(st);
    match key {
        Key::Char('w') => match (op, text_object(st.buffer.as_slice(), st.cursor, kind == 'a')) {
            (Some(op), Some((start, end))) => {
                apply_span(st, ring, op, start, end, true);
            },
            _ => {},
        },
        _ => {},
    }
}

fn vi_paste(st: &mut LineState, ring: &KillRing, at: usize, n: usize)
    requires
        old(st).inside(),
        at <= old(st).buffer@.len(),
        n >= 1,
    ensures
        final(st)@ == old(st)@.pasted(ring@, at as int, n as int),
        final(st).inside(),
        final(st)@.keeps(old(st)@),
{
    reveal(Line::pasted);
    match ring.top() {
        Some(text) => {
            if text.len() > 0 {
                let all = repeat(text.as_slice(), n);
                proof {
                    repeated_grows(text@, n as nat);
                }
                st.put(at, at, all.as_slice());
                st.cursor = st.cursor - 1;
            }
        },
        None => {},
    }
}

fn vi_flip_case(st: &mut LineState, n: usize)
    requires
        old(st).inside(),
    ensures
        final(st)@ == old(st)@.case_flipped(n as int),
        final(st).inside(),
        final(st)@.keeps(old(st)@),
{
    reveal(Line::case_flipped);
    let at = st.cursor;
    let end = fwd_n(st.buffer.as_slice(), at, n);
    let seg = slice(st.buffer.as_slice(), at, end);
    let out = flip(seg.as_slice());
    st.put(at, end, out.as_slice());
}

fn vi_fetch(st: &mut LineState, history: &[String], count: usize)
    requires
        old(st)@.wf(texts(history@)),
    ensures
        final(st)@ == old(st)@.fetched(texts(history@), count as int),
        final(st)@.wf(texts(history@)),
{
    reveal(Line::fetched);
    if count > 0 {
        if count - 1 < history.len() {
            show(st, history, count - 1);
        } else {
            st.bell();
        }
    } else if history.len() > 0 {
        show(st, history, history.len() - 1);
    } else {
        st.bell();
    }
}

fn vi_copy_line(st: &LineState, ring: &mut KillRing)
    ensures
        final(ring)@ == st@.copied(old(ring)@),
{
    if st.buffer.len() > 0 {
        ring.push(copy(st.buffer.as_slice()));
    }
}

fn vi_linewise(st: &mut LineState, ring: &mut KillRing, op: char)
    requires
        old(st).inside(),
    ensures
        (final(st)@, final(ring)@) == old(st)@.linewise(old(ring)@, op),
        final(st).inside(),
        final(st)@.keeps(old(st)@),
{
    reveal(Line::linewise);
    let len = st.buffer.len();
    match op {
        'd' => {
            kill_span(st, ring, 0, len, true);
        },
        'c' => {
            kill_span(st, ring, 0, len, true);
            st.vi_normal = false;
        },
        _ => {
            vi_copy_line(st, ring);
            st.cursor = 0;
        },
    }
}

/// A command that is no motion.
fn vi_command_key(st: &mut LineState, ring: &mut KillRing, key: Key, history: &[String])
    requires
        old(st)@.wf(texts(history@)),
    ensures
        (final(st)@, final(ring)@) == old(st)@.vi_command(old(ring)@, key, texts(history@)),
        final(st)@.wf(texts(history@)),
{
    reveal(Line::vi_command);
    let n = times(st);
    let count = st.vi_count;
    let at = st.cursor;
    let len = st.buffer.len();
    let op = st.vi_op;
    match key {
        Key::Char('d') | Key::Char('c') | Key::Char('y') => {
            let c = match key {
                Key::Char(c) => c,
                _ => 'd',
            };
            let doubled = match op {
                Some(o) => o == c,
                None => false,
            };
            if doubled {
                settle(st);
                vi_linewise(st, ring, c);
            } else {
                st.vi_op = Some(c);
            }
            return;
        },
        Key::Char('r') => {
            st.vi_replace = true;
            return;
        },
        _ => {},
    }
    settle(st);
    match key {
        Key::Delete | Key::Char('x') => {
            let end = fwd_n(st.buffer.as_slice(), at, n);
            kill_span(st, ring, at, end, true);
        },
        Key::Char('X') => {
            kill_span(st, ring, back_n(at, n), at, false);
        },
        Key::Char('s') => {
            let end = fwd_n(st.buffer.as_slice(), at, n);
            kill_span(st, ring, at, end, true);
            st.vi_normal = false;
        },
        Key::Char('D') => {
            kill_span(st, ring, at, len, true);
        },
        Key::Char('C') => {
            kill_span(st, ring, at, len, true);
            st.vi_normal = false;
        },
        Key::Char('S') => {
            vi_linewise(st, ring, 'c');
        },
        Key::Char('Y') => {
            vi_copy_line(st, ring);
        },
        Key::Char('~') => {
            vi_flip_case(st, n);
        },
        Key::Char('p') => {
            let next = fwd_n(st.buffer.as_slice(), at, 1);
            vi_paste(st, ring, next, n);
        },
        Key::Char('P') => {
            vi_paste(st, ring, at, n);
        },
        Key::Char('u') => {
            undo_cmd(st);
        },
        Key::Char('i') => {
            st.vi_normal = false;
        },
        Key::Char('I') => {
            st.cursor = 0;
            st.vi_normal = false;
        },
        Key::Char('a') => {
            st.cursor = fwd_n(st.buffer.as_slice(), at, 1);
            st.vi_normal = false;
        },
        Key::Char('A') => {
            st.cursor = len;
            st.vi_normal = false;
        },
        Key::Char('k') | Key::Up => {
            history_prev(st, history);
        },
        Key::Char('j') | Key::Down => {
            history_next(st, history);
        },
        Key::Char('G') => {
            vi_fetch(st, history, count);
        },
        Key::Char(';') | Key::Char(',') => {
            st.bell();
        },
        _ => {},
    }
}

fn count_digit(st: &mut LineState, c: char)
    requires
        '0' <= c <= '9',
    ensures
        final(st)@ == old(st)@.counted(c),
        final(st).inside() == old(st).inside(),
        final(st)@.keeps(old(st)@),
{
    reveal(Line::counted);
    let d: usize = (c as u32 - 48) as usize;
    st.vi_count = if st.vi_count > (usize::MAX - d) / 10 {
        usize::MAX
    } else {
        st.vi_count * 10 + d
    };
}

/// vi normal mode: counts, the `d`/`c`/`y` operators over motions
/// (`h l 0 ^ $ w W b B e E f F t T ; , %`, the `iw`/`aw` objects and doubled
/// `dd cc yy`), edits `x X D C s S Y r ~ p P u`, inserts `i I a A`, history
/// `k j G`.
pub fn handle_vi_normal(st: &mut LineState, key: Key, history: &[String], ring: &mut KillRing)
    requires
        old(st)@.wf(texts(history@)),
    ensures
        (final(st)@, final(ring)@) == old(st)@.vi_key(old(ring)@, key, texts(history@)),
        final(st)@.wf(texts(history@)),
{
    reveal(Line::vi_key);
    if st.vi_replace {
        vi_replace_chars(st, key);
        return;
    }
    match st.vi_object {
        Some(kind) => {
            vi_object_key(st, ring, kind, key);
            return;
        },
        None => {},
    }
    match st.vi_find {
        Some(kind) => {
            vi_find_char(st, ring, kind, key);
            return;
        },
        None => {},
    }
    let n = times(st);
    match resolve_motion(st, key, n) {
        Some((target, inclusive)) => {
            if key == Key::Char('0') && st.vi_count > 0 {
                count_digit(st, '0');
            } else {
                let op = st.vi_op;
                settle(st);
                move_to(st, ring, op, target, inclusive);
            }
            return;
        },
        None => {},
    }
    match key {
        Key::Char(c) => if '1' <= c && c <= '9' {
            count_digit(st, c);
        } else if c == 'f' || c == 'F' || c == 't' || c == 'T' {
            st.vi_find = Some(c);
        } else if st.vi_op.is_some() && (c == 'i' || c == 'a') {
            st.vi_object = Some(c);
        } else {
            vi_command_key(st, ring, key, history);
        },
        _ => {
            vi_command_key(st, ring, key, history);
        },
    }
}

/// What `d` deleted, `P` puts back where it was.
pub proof fn put_back_undoes_delete(line: Line, ring: Ring, start: int, end: int, forward: bool)
    requires
        0 <= start < end <= line.buffer.len(),
        ring.max > 0,
        line.prev_action != Action::KillFwd && line.prev_action != Action::KillBack,
    ensures
        ({
            let (l, r) = line.operated(ring, 'd', start, end, forward);
            l.pasted(r, l.cursor, 1).buffer == line.buffer
        }),
{
    reveal(Line::operated);
    reveal(Line::killed);
    reveal(Line::pasted);
    let text = line.buffer.subrange(start, end);
    pushed_is_on_top(ring, text);
    reveal_with_fuel(repeated, 2);
    assert(repeated(text, 1) =~= text);
    let (l, r) = line.operated(ring, 'd', start, end, forward);
    assert(l.pasted(r, start, 1).buffer =~= line.buffer);
}

/// How much deeper the nesting is after `a..b` than before it.
spec fn balance(s: Seq<char>, a: int, b: int, own: char, other: char) -> int
    decreases b - a,
{
    if a >= b {
        0
    } else {
        depth_after(s[b - 1], own, other, balance(s, a, b - 1, own, other))
    }
}

proof fn balance_add(s: Seq<char>, a: int, m: int, b: int, own: char, other: char)
    requires
        a <= m <= b,
    ensures
        balance(s, a, b, own, other) == balance(s, a, m, own, other) + balance(
            s,
            m,
            b,
            own,
            other,
        ),
    decreases b - m,
{
    if m < b {
        balance_add(s, a, m, b - 1, own, other);
    }
}

proof fn balance_swapped(s: Seq<char>, a: int, b: int, own: char, other: char)
    requires
        own != other,
    ensures
        balance(s, a, b, other, own) == -balance(s, a, b, own, other),
    decreases b - a,
{
    if a < b {
        balance_swapped(s, a, b - 1, own, other);
    }
}

proof fn closed_after_is_first(s: Seq<char>, k: int, own: char, other: char, depth: int)
    requires
        0 <= k <= s.len(),
    ensures
        closed_after(s, k, own, other, depth) matches Some(t) ==> k <= t < s.len() && depth
            + balance(s, k, t + 1, own, other) == 0 && (forall|m: int|
            k < m <= t ==> depth + #[trigger] balance(s, k, m, own, other) != 0),
    decreases s.len() - k,
{
    if k < s.len() {
        let d = depth_after(s[k], own, other, depth);
        assert(balance(s, k, k, own, other) == 0);
        assert(balance(s, k, k + 1, own, other) == d - depth);
        if d != 0 {
            closed_after_is_first(s, k + 1, own, other, d);
            if let Some(t) = closed_after(s, k + 1, own, other, d) {
                balance_add(s, k, k + 1, t + 1, own, other);
                assert forall|m: int| k < m <= t implies depth + #[trigger] balance(
                    s,
                    k,
                    m,
                    own,
                    other,
                ) != 0 by {
                    balance_add(s, k, k + 1, m, own, other);
                    if m == k + 1 {
                        assert(balance(s, m, m, own, other) == 0);
                    }
                }
            }
        }
    }
}

proof fn closed_before_is(s: Seq<char>, k: int, t: int, own: char, other: char, depth: int)
    requires
        0 <= t < k <= s.len(),
        depth + balance(s, t, k, own, other) == 0,
        forall|m: int| t < m < k ==> depth + #[trigger] balance(s, m, k, own, other) != 0,
    ensures
        closed_before(s, k, own, other, depth) == Some(t),
    decreases k,
{
    let d = depth_after(s[k - 1], own, other, depth);
    balance_add(s, t, k - 1, k, own, other);
    assert(balance(s, k - 1, k - 1, own, other) == 0);
    assert(balance(s, k - 1, k, own, other) == d - depth);
    if t < k - 1 {
        assert(depth + balance(s, k - 1, k, own, other) != 0);
        assert forall|m: int| t < m < k - 1 implies d + #[trigger] balance(s, m, k - 1, own, other)
            != 0 by {
            balance_add(s, m, k - 1, k, own, other);
            assert(depth + balance(s, m, k, own, other) != 0);
        }
        closed_before_is(s, k - 1, t, own, other, d);
    } else {
        assert(balance(s, t, t, own, other) == 0);
    }
}

/// `%` on an opening bracket leads to its closing one, and `%` there leads
/// back.
pub proof fn brackets_match_both_ways(s: Seq<char>, pos: int, t: int)
    requires
        0 <= pos < s.len(),
        partner(s[pos]) matches Some((_, true)),
        matching(s, pos) == Some(t),
    ensures
        partner(s[pos]) == Some((s[t], true)),
        matching(s, t) == Some(pos),
{
    let own = s[pos];
    let other = (partner(own)->0).0;
    closed_after_is_first(s, pos, own, other, 0);
    assert(balance(s, pos, pos, own, other) == 0);
    assert(balance(s, pos, pos + 1, own, other) == 1);
    assert(pos < t);
    assert(balance(s, pos, t, own, other) != 0);
    nesting_stays_open(s, pos, t, own, other);
    assert(s[t] == other);
    assert(partner(other) == Some((own, false)));
    balance_swapped(s, pos, t + 1, own, other);
    assert forall|m: int| pos < m < t + 1 implies 0 + #[trigger] balance(s, m, t + 1, other, own)
        != 0 by {
        balance_swapped(s, m, t + 1, own, other);
        balance_add(s, pos, m, t + 1, own, other);
    }
    closed_before_is(s, t + 1, pos, other, own, 0);
}

proof fn nesting_stays_open(s: Seq<char>, pos: int, t: int, own: char, other: char)
    requires
        0 <= pos < t,
        own != other,
        balance(s, pos, pos + 1, own, other) == 1,
        forall|m: int| pos < m <= t ==> #[trigger] balance(s, pos, m, own, other) != 0,
    ensures
        balance(s, pos, t, own, other) > 0,
    decreases t - pos,
{
    if t > pos + 1 {
        nesting_stays_open(s, pos, t - 1, own, other);
        assert(balance(s, pos, t, own, other) == depth_after(
            s[t - 1],
            own,
            other,
            balance(s, pos, t - 1, own, other),
        ));
    }
}

} // verus!
