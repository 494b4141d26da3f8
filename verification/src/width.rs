//! Display columns: how wide text is on the terminal, and how control
//! characters in the buffer are shown.
use vstd::prelude::*;

use crate::text::{chars_of, push_chars, string_of};
use crate::unicode::{char_width, width_of};

verus! {

/// ESC.
pub open spec fn esc() -> char {
    '\x1b'
}

/// What ends a CSI sequence.
pub open spec fn csi_end(c: char) -> bool {
    'a' <= c <= 'z' || 'A' <= c <= 'Z' || c == '~'
}

/// How many characters are left of a CSI sequence.
pub open spec fn csi_tail(s: Seq<char>) -> int
    decreases s.len(),
{
    if s.len() == 0 {
        0
    } else if csi_end(s[0]) {
        1
    } else {
        1 + csi_tail(s.skip(1))
    }
}

/// How many characters are left of an OSC sequence: up to BEL or `ESC \`.
pub open spec fn osc_tail(s: Seq<char>) -> int
    decreases s.len(),
{
    if s.len() == 0 {
        0
    } else if s[0] == '\x07' {
        1
    } else if s[0] == esc() && s.len() > 1 && s[1] == '\\' {
        2
    } else {
        1 + osc_tail(s.skip(1))
    }
}

/// How many characters an escape sequence takes, its ESC included.
pub open spec fn escape_len(s: Seq<char>) -> int {
    if s.len() < 2 {
        s.len() as int
    } else if s[1] == '[' {
        2 + csi_tail(s.skip(2))
    } else if s[1] == ']' {
        2 + osc_tail(s.skip(2))
    } else {
        2
    }
}

/// An escape sequence does not run past the text.
pub proof fn csi_tail_bounds(s: Seq<char>)
    ensures
        0 <= csi_tail(s) <= s.len(),
        s.len() > 0 ==> csi_tail(s) > 0,
    decreases s.len(),
{
    if s.len() > 0 && !csi_end(s[0]) {
        csi_tail_bounds(s.skip(1));
    }
}

/// An OSC sequence does not run past the text.
pub proof fn osc_tail_bounds(s: Seq<char>)
    ensures
        0 <= osc_tail(s) <= s.len(),
        s.len() > 0 ==> osc_tail(s) > 0,
    decreases s.len(),
{
    if s.len() > 0 && s[0] != '\x07' && !(s[0] == esc() && s.len() > 1 && s[1] == '\\') {
        osc_tail_bounds(s.skip(1));
    }
}

/// An escape sequence takes at least its ESC, and no more than there is.
pub proof fn escape_len_bounds(s: Seq<char>)
    requires
        s.len() > 0,
    ensures
        0 < escape_len(s) <= s.len(),
{
    if s.len() >= 2 {
        csi_tail_bounds(s.skip(2));
        osc_tail_bounds(s.skip(2));
    }
}

/// The columns of one character; a control character has none.
pub open spec fn columns(c: char) -> nat {
    match char_width(c) {
        Some(w) => w as nat,
        None => 0,
    }
}

/// The columns of a text, its escape sequences skipped.
pub open spec fn width(s: Seq<char>) -> nat
    decreases s.len(),
{
    if s.len() == 0 {
        0
    } else if s[0] == esc() {
        let n = escape_len(s);
        if 0 < n <= s.len() {
            width(s.skip(n))
        } else {
            0
        }
    } else {
        columns(s[0]) + width(s.skip(1))
    }
}

/// A number as a machine word holds it.
pub open spec fn clipped(n: nat) -> usize {
    if n <= usize::MAX {
        n as usize
    } else {
        usize::MAX
    }
}

fn csi_tail_len(s: &[char], from: usize) -> (r: usize)
    requires
        from <= s@.len(),
    ensures
        r == csi_tail(s@.skip(from as int)),
        from + r <= s@.len(),
{
    let mut i: usize = from;
    while i < s.len()
        invariant
            from <= i <= s@.len(),
            csi_tail(s@.skip(from as int)) == i - from + csi_tail(s@.skip(i as int)),
        decreases s@.len() - i,
    {
        let c = s[i];
        assert(s@.skip(i as int)[0] == c);
        assert(s@.skip(i as int).skip(1) =~= s@.skip(i + 1));
        i += 1;
        if 'a' <= c && c <= 'z' || 'A' <= c && c <= 'Z' || c == '~' {
            return i - from;
        }
    }
    i - from
}

fn osc_tail_len(s: &[char], from: usize) -> (r: usize)
    requires
        from <= s@.len(),
    ensures
        r == osc_tail(s@.skip(from as int)),
        from + r <= s@.len(),
{
    let mut i: usize = from;
    while i < s.len()
        invariant
            from <= i <= s@.len(),
            osc_tail(s@.skip(from as int)) == i - from + osc_tail(s@.skip(i as int)),
        decreases s@.len() - i,
    {
        let c = s[i];
        assert(s@.skip(i as int)[0] == c);
        assert(s@.skip(i as int).skip(1) =~= s@.skip(i + 1));
        if c == '\x07' {
            return i - from + 1;
        }
        if c == '\x1b' && s.len() - i > 1 && s[i + 1] == '\\' {
            assert(s@.skip(i as int)[1] == '\\');
            return i - from + 2;
        }
        i += 1;
    }
    i - from
}

fn escape_at(s: &[char], at: usize) -> (r: usize)
    requires
        at < s@.len(),
    ensures
        r == escape_len(s@.skip(at as int)),
        0 < r,
        at + r <= s@.len(),
{
    let ghost t = s@.skip(at as int);
    proof {
        escape_len_bounds(t);
    }
    if s.len() - at < 2 {
        return s.len() - at;
    }
    assert(t[1] == s@[at + 1]);
    assert(t.skip(2) =~= s@.skip(at + 2));
    match s[at + 1] {
        '[' => 2 + csi_tail_len(s, at + 2),
        ']' => 2 + osc_tail_len(s, at + 2),
        _ => 2,
    }
}

/// The columns of some characters, escape sequences skipped.
pub fn width_chars(s: &[char]) -> (r: usize)
    ensures
        r == clipped(width(s@)),
{
    let mut i: usize = 0;
    let mut w: usize = 0;
    let ghost mut sum: nat = 0;
    assert(s@.skip(0) =~= s@);
    while i < s.len()
        invariant
            i <= s@.len(),
            width(s@) == sum + width(s@.skip(i as int)),
            w == clipped(sum),
        decreases s@.len() - i,
    {
        let ghost t = s@.skip(i as int);
        assert(t[0] == s@[i as int]);
        if s[i] == '\x1b' {
            let n = escape_at(s, i);
            assert(t.skip(n as int) =~= s@.skip(i + n));
            i += n;
        } else {
            assert(t.skip(1) =~= s@.skip(i + 1));
            match width_of(s[i]) {
                Some(n) => {
                    w = w.saturating_add(n);
                    proof {
                        sum = sum + n as nat;
                    }
                },
                None => {},
            }
            i += 1;
        }
    }
    w
}

/// The columns of some characters, within a tab stop.
pub fn width_within_stop(s: &[char]) -> (r: usize)
    ensures
        r == width(s@) % 8,
        r < 8,
{
    let mut i: usize = 0;
    let mut w: usize = 0;
    assert(s@.skip(0) =~= s@);
    while i < s.len()
        invariant
            i <= s@.len(),
            w < 8,
            width(s@) % 8 == (w + width(s@.skip(i as int))) % 8,
        decreases s@.len() - i,
    {
        let ghost t = s@.skip(i as int);
        assert(t[0] == s@[i as int]);
        if s[i] == '\x1b' {
            let n = escape_at(s, i);
            assert(t.skip(n as int) =~= s@.skip(i + n));
            i += n;
        } else {
            assert(t.skip(1) =~= s@.skip(i + 1));
            let n = match width_of(s[i]) {
                Some(n) => n,
                None => 0,
            };
            let ghost rest = width(t.skip(1));
            let ghost was = w;
            w = (w + n % 8) % 8;
            assert((was + (n + rest)) % 8 == (w + rest) % 8);
            i += 1;
        }
    }
    w
}

/// Display width of `s`, skipping ANSI escape sequences (the prompt and the
/// highlighted buffer both carry them): CSI sequences, OSC sequences (titles,
/// hyperlinks), and lone two-character escapes.
pub fn display_width(s: &str) -> (r: usize)
    ensures
        r == clipped(width(s@)),
{
    let v = chars_of(s);
    width_chars(v.as_slice())
}

/// How one character of the buffer is shown: control characters
/// readline-style (`^X` for C0, `^?` for DEL), a return sign for a newline, and
/// a tab as that many spaces.
pub open spec fn shown(c: char, tab: int) -> Seq<char> {
    if c == '\n' {
        seq!['\u{23ce}']
    } else if c == '\t' {
        Seq::new(tab as nat, |i: int| ' ')
    } else if c == '\x7f' {
        seq!['^', '?']
    } else if (c as u32) < 0x20 {
        seq!['^', ((c as u32 + 0x40) as u32) as char]
    } else {
        seq![c]
    }
}

/// The buffer as shown, a tab as four spaces.
pub open spec fn visualized(s: Seq<char>) -> Seq<char>
    decreases s.len(),
{
    if s.len() == 0 {
        Seq::empty()
    } else {
        visualized(s.drop_last()) + shown(s.last(), 4)
    }
}

/// The column (within a tab stop) that some text leads to.
pub open spec fn stop_after(col: int, text: Seq<char>) -> int {
    (col + width(text)) % 8
}

/// The buffer as shown from a column on (counted within its tab stop), tabs
/// running to the next stop.
pub open spec fn visualized_at(s: Seq<char>, col: int) -> Seq<char>
    decreases s.len(),
{
    if s.len() == 0 {
        Seq::empty()
    } else {
        let first = shown(s[0], 8 - col);
        first + visualized_at(s.skip(1), stop_after(col, first))
    }
}

fn show_char(c: char, tab: usize) -> (r: Vec<char>)
    requires
        tab <= 8,
    ensures
        r@ == shown(c, tab as int),
{
    let mut r: Vec<char> = Vec::new();
    match c {
        '\n' => {
            r.push('\u{23ce}');
        },
        '\t' => {
            let mut i: usize = 0;
            while i < tab
                invariant
                    i <= tab,
                    r@ == Seq::new(i as nat, |k: int| ' '),
                decreases tab - i,
            {
                r.push(' ');
                i += 1;
                assert(r@ =~= Seq::new(i as nat, |k: int| ' '));
            }
        },
        '\x7f' => {
            r.push('^');
            r.push('?');
        },
        _ => if (c as u32) < 0x20 {
            r.push('^');
            r.push((c as u8 + 0x40) as char);
        } else {
            r.push(c);
        },
    }
    assert(r@ =~= shown(c, tab as int));
    r
}

/// The buffer as shown: control characters readline-style, `^X` for C0 bytes,
/// `^?` for DEL, a return sign for an embedded newline (a multi-line paste), a
/// tab as four spaces. The raw buffer is what Enter returns.
pub fn visualize(s: &str) -> (r: String)
    ensures
        r@ == visualized(s@),
{
    let v = chars_of(s);
    let out = visualize_chars(v.as_slice());
    string_of(out.as_slice())
}

/// Some characters as shown, a tab as four spaces.
pub fn visualize_chars(v: &[char]) -> (r: Vec<char>)
    ensures
        r@ == visualized(v@),
{
    let mut out: Vec<char> = Vec::new();
    let mut i: usize = 0;
    while i < v.len()
        invariant
            i <= v@.len(),
            out@ == visualized(v@.take(i as int)),
        decreases v@.len() - i,
    {
        let piece = show_char(v[i], 4);
        push_chars(&mut out, piece.as_slice());
        i += 1;
        assert(v@.take(i as int).drop_last() =~= v@.take(i - 1));
    }
    assert(v@.take(i as int) =~= v@);
    out
}

/// The column (within a tab stop) that some text leads to.
pub fn stop_behind(col: usize, text: &[char]) -> (r: usize)
    requires
        col < 8,
    ensures
        r == stop_after(col as int, text@),
        r < 8,
{
    (col + width_within_stop(text)) % 8
}

/// Some characters as shown from a column on, tabs running to the next stop.
pub fn visualize_at(v: &[char], col: usize) -> (r: Vec<char>)
    requires
        col < 8,
    ensures
        r@ == visualized_at(v@, col as int),
{
    let mut out: Vec<char> = Vec::new();
    let mut i: usize = 0;
    let mut c: usize = col;
    assert(v@.skip(0) =~= v@);
    assert(out@ + visualized_at(v@, col as int) =~= visualized_at(v@, col as int));
    while i < v.len()
        invariant
            i <= v@.len(),
            c < 8,
            visualized_at(v@, col as int) == out@ + visualized_at(v@.skip(i as int), c as int),
        decreases v@.len() - i,
    {
        let ghost t = v@.skip(i as int);
        let ghost before = out@;
        assert(t[0] == v@[i as int]);
        assert(t.skip(1) =~= v@.skip(i + 1));
        let piece = show_char(v[i], 8 - c);
        push_chars(&mut out, piece.as_slice());
        c = stop_behind(c, piece.as_slice());
        i += 1;
        assert(before + (piece@ + visualized_at(v@.skip(i as int), c as int)) =~= out@
            + visualized_at(v@.skip(i as int), c as int));
    }
    assert(out@ + Seq::<char>::empty() =~= out@);
    out
}

/// No C0 control character and no DEL.
pub open spec fn printable(s: Seq<char>) -> bool {
    forall|k: int| 0 <= k < s.len() ==> (#[trigger] s[k]) as u32 >= 0x20 && s[k] != '\x7f'
}

/// A character is shown without control characters.
pub proof fn shown_is_plain(c: char, tab: int)
    ensures
        printable(shown(c, tab)),
        forall|k: int| 0 <= k < shown(c, tab).len() ==> #[trigger] shown(c, tab)[k] != esc(),
{
}

/// What is shown of a buffer holds no C0 control character and no DEL, so the
/// paint never sends the terminal one from the buffer.
pub proof fn visualized_is_printable(s: Seq<char>)
    ensures
        printable(visualized(s)),
    decreases s.len(),
{
    if s.len() > 0 {
        visualized_is_printable(s.drop_last());
        shown_is_plain(s.last(), 4);
    }
}

/// The same holds where tabs run to the next stop.
pub proof fn visualized_at_is_printable(s: Seq<char>, col: int)
    ensures
        printable(visualized_at(s, col)),
    decreases s.len(),
{
    if s.len() > 0 {
        let first = shown(s[0], 8 - col);
        visualized_at_is_printable(s.skip(1), stop_after(col, first));
        shown_is_plain(s[0], 8 - col);
    }
}

/// Widths add up where the first part holds no ESC.
pub proof fn width_add(a: Seq<char>, b: Seq<char>)
    requires
        forall|k: int| 0 <= k < a.len() ==> #[trigger] a[k] != esc(),
    ensures
        width(a + b) == width(a) + width(b),
    decreases a.len(),
{
    if a.len() == 0 {
        assert(a + b =~= b);
    } else {
        assert((a + b)[0] == a[0]);
        assert((a + b).skip(1) =~= a.skip(1) + b);
        width_add(a.skip(1), b);
    }
}

/// An SGR sequence in front of a text does not change its width.
pub proof fn sgr_has_no_width(params: Seq<char>, s: Seq<char>)
    requires
        forall|k: int| 0 <= k < params.len() ==> !csi_end(#[trigger] params[k]),
    ensures
        width(seq![esc(), '['] + params + seq!['m'] + s) == width(s),
{
    let all = seq![esc(), '['] + params + seq!['m'] + s;
    assert(all.skip(2) =~= params + seq!['m'] + s);
    csi_tail_of(params, s);
    assert(all.skip(escape_len(all)) =~= s);
}

proof fn csi_tail_of(params: Seq<char>, s: Seq<char>)
    requires
        forall|k: int| 0 <= k < params.len() ==> !csi_end(#[trigger] params[k]),
    ensures
        csi_tail(params + seq!['m'] + s) == params.len() + 1,
    decreases params.len(),
{
    let all = params + seq!['m'] + s;
    if params.len() == 0 {
        assert(all[0] == 'm');
    } else {
        assert(all[0] == params[0]);
        assert(all.skip(1) =~= params.skip(1) + seq!['m'] + s);
        csi_tail_of(params.skip(1), s);
    }
}

} // verus!
