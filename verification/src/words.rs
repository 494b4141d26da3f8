//! Word motions over a line of characters.
//!
//! Three flavours of word: delimited by whitespace (C-w), made of
//! alphanumerics (M-b, M-f), and vi's small words, which are maximal runs of
//! one [`vi_class`].
use vstd::prelude::*;

use crate::text::{first_index, index_before, index_from, last_index};
use crate::unicode::{alphanumeric, whitespace};

verus! {

/// A set of characters that a motion runs over.
#[derive(Debug, Clone, Copy, PartialEq, Eq, Structural)]
pub enum Class {
    /// Whitespace.
    Blank,
    /// Anything but whitespace.
    NonBlank,
    /// Alphanumerics.
    Alnum,
    /// Anything but alphanumerics.
    NonAlnum,
    /// Spaces and tabs.
    Gap,
    /// One of vi's classes.
    Vi(u8),
}

/// vi's class of a character: 0 for whitespace, 1 for a word character
/// (alphanumerics and `_`), 2 for punctuation.
pub open spec fn vi_class_of(c: char) -> u8 {
    if whitespace(c) {
        0
    } else if alphanumeric(c) || c == '_' {
        1
    } else {
        2
    }
}

/// vi small-word character class: whitespace / word (alnum + `_`) /
/// punctuation. Each non-blank run of one class is a word.
pub fn vi_class(c: char) -> (r: u8)
    ensures
        r == vi_class_of(c),
{
    if c.is_whitespace() {
        0
    } else if c.is_alphanumeric() || c == '_' {
        1
    } else {
        2
    }
}

impl Class {
    /// The character belongs to the class.
    pub open spec fn has(self, c: char) -> bool {
        match self {
            Class::Blank => whitespace(c),
            Class::NonBlank => !whitespace(c),
            Class::Alnum => alphanumeric(c),
            Class::NonAlnum => !alphanumeric(c),
            Class::Gap => c == ' ' || c == '\t',
            Class::Vi(k) => vi_class_of(c) == k,
        }
    }

    /// Whether the character belongs to the class.
    pub fn contains(&self, c: char) -> (r: bool)
        ensures
            r == self.has(c),
    {
        match self {
            Class::Blank => c.is_whitespace(),
            Class::NonBlank => !c.is_whitespace(),
            Class::Alnum => c.is_alphanumeric(),
            Class::NonAlnum => !c.is_alphanumeric(),
            Class::Gap => c == ' ' || c == '\t',
            Class::Vi(k) => vi_class(c) == *k,
        }
    }
}

/// Where a run of class characters that ends at `i` starts.
pub open spec fn run_start(s: Seq<char>, i: int, class: Class) -> int
    decreases i,
{
    if 0 < i <= s.len() && class.has(s[i - 1]) {
        run_start(s, i - 1, class)
    } else {
        i
    }
}

/// Where a run of class characters that starts at `i` ends.
pub open spec fn run_end(s: Seq<char>, i: int, class: Class) -> int
    decreases s.len() - i,
{
    if 0 <= i < s.len() && class.has(s[i]) {
        run_end(s, i + 1, class)
    } else {
        i
    }
}

/// A run ends on or after where it starts, inside the text, before a character
/// that is not of its class; all of it is of the class.
pub proof fn run_end_bounds(s: Seq<char>, i: int, class: Class)
    requires
        0 <= i <= s.len(),
    ensures
        i <= run_end(s, i, class) <= s.len(),
        forall|k: int| i <= k < run_end(s, i, class) ==> class.has(#[trigger] s[k]),
        run_end(s, i, class) < s.len() ==> !class.has(s[run_end(s, i, class)]),
    decreases s.len() - i,
{
    if i < s.len() && class.has(s[i]) {
        run_end_bounds(s, i + 1, class);
    }
}

/// A run starts on or before where it ends, inside the text, after a character
/// that is not of its class; all of it is of the class.
pub proof fn run_start_bounds(s: Seq<char>, i: int, class: Class)
    requires
        0 <= i <= s.len(),
    ensures
        0 <= run_start(s, i, class) <= i,
        forall|k: int| run_start(s, i, class) <= k < i ==> class.has(#[trigger] s[k]),
        run_start(s, i, class) > 0 ==> !class.has(s[run_start(s, i, class) - 1]),
    decreases i,
{
    if 0 < i && class.has(s[i - 1]) {
        run_start_bounds(s, i - 1, class);
    }
}

/// Scan back from `i` over characters of a class.
pub fn scan_back(s: &[char], i: usize, class: Class) -> (r: usize)
    requires
        i <= s@.len(),
    ensures
        r == run_start(s@, i as int, class),
        r <= i,
{
    let mut j: usize = i;
    while j > 0 && class.contains(s[j - 1])
        invariant
            j <= i <= s@.len(),
            run_start(s@, i as int, class) == run_start(s@, j as int, class),
        decreases j,
    {
        j -= 1;
    }
    j
}

/// Scan forward from `i` over characters of a class.
pub fn scan_forward(s: &[char], i: usize, class: Class) -> (r: usize)
    requires
        i <= s@.len(),
    ensures
        r == run_end(s@, i as int, class),
        i <= r <= s@.len(),
{
    let mut j: usize = i;
    while j < s.len() && class.contains(s[j])
        invariant
            i <= j <= s@.len(),
            run_end(s@, i as int, class) == run_end(s@, j as int, class),
        decreases s@.len() - j,
    {
        j += 1;
    }
    j
}

/// The start of the whitespace-delimited word before `pos`.
pub open spec fn word_before(s: Seq<char>, pos: int) -> int {
    run_start(s, run_start(s, pos, Class::Blank), Class::NonBlank)
}

/// Start of the word before `pos` (whitespace-delimited: C-w's
/// unix-word-rubout).
pub fn word_back(s: &[char], pos: usize) -> (r: usize)
    requires
        pos <= s@.len(),
    ensures
        r == word_before(s@, pos as int),
        r <= pos,
{
    let i = scan_back(s, pos, Class::Blank);
    scan_back(s, i, Class::NonBlank)
}

/// The start of the alphanumeric word before `pos`.
pub open spec fn alnum_before(s: Seq<char>, pos: int) -> int {
    run_start(s, run_start(s, pos, Class::NonAlnum), Class::Alnum)
}

/// Start of the alphanumeric word before `pos` (readline's M-b flavor).
pub fn word_back_alnum(s: &[char], pos: usize) -> (r: usize)
    requires
        pos <= s@.len(),
    ensures
        r == alnum_before(s@, pos as int),
        r <= pos,
{
    let i = scan_back(s, pos, Class::NonAlnum);
    scan_back(s, i, Class::Alnum)
}

/// The end of the alphanumeric word after `pos`.
pub open spec fn alnum_after(s: Seq<char>, pos: int) -> int {
    run_end(s, run_end(s, pos, Class::NonAlnum), Class::Alnum)
}

/// End of the alphanumeric word after `pos` (readline's M-f flavor).
pub fn word_forward_alnum(s: &[char], pos: usize) -> (r: usize)
    requires
        pos <= s@.len(),
    ensures
        r == alnum_after(s@, pos as int),
        pos <= r <= s@.len(),
{
    let i = scan_forward(s, pos, Class::NonAlnum);
    scan_forward(s, i, Class::Alnum)
}

/// The start of vi's next small word: past the run under the cursor, then past
/// blanks.
pub open spec fn vi_next_word(s: Seq<char>, pos: int) -> int {
    if pos >= s.len() {
        s.len() as int
    } else {
        run_end(s, run_end(s, pos, Class::Vi(vi_class_of(s[pos]))), Class::Vi(0))
    }
}

/// vi `w`: start of the next small word.
pub fn vi_word_fwd(s: &[char], pos: usize) -> (r: usize)
    requires
        pos <= s@.len(),
    ensures
        r == vi_next_word(s@, pos as int),
        pos <= r <= s@.len(),
{
    if pos == s.len() {
        return pos;
    }
    let class = vi_class(s[pos]);
    let i = scan_forward(s, pos, Class::Vi(class));
    scan_forward(s, i, Class::Vi(0))
}

/// The start of vi's small word before `pos`.
pub open spec fn vi_previous_word(s: Seq<char>, pos: int) -> int {
    let i = run_start(s, pos, Class::Vi(0));
    if i <= 0 {
        0
    } else {
        run_start(s, i, Class::Vi(vi_class_of(s[i - 1])))
    }
}

/// vi `b`: start of the small word before `pos`.
pub fn vi_word_back(s: &[char], pos: usize) -> (r: usize)
    requires
        pos <= s@.len(),
    ensures
        r == vi_previous_word(s@, pos as int),
        r <= pos,
{
    let i = scan_back(s, pos, Class::Vi(0));
    if i == 0 {
        return 0;
    }
    let class = vi_class(s[i - 1]);
    scan_back(s, i, Class::Vi(class))
}

/// The last character of vi's current or next small word; `pos` itself when no
/// word follows.
pub open spec fn vi_end_of_word(s: Seq<char>, pos: int) -> int {
    if pos >= s.len() {
        pos
    } else {
        let i = run_end(s, pos + 1, Class::Vi(0));
        if i >= s.len() {
            pos
        } else {
            run_end(s, i, Class::Vi(vi_class_of(s[i]))) - 1
        }
    }
}

/// vi `e`: index of the last character of the current/next small word (the
/// cursor lands *on* it; operators over it are inclusive).
pub fn vi_word_end(s: &[char], pos: usize) -> (r: usize)
    requires
        pos <= s@.len(),
    ensures
        r == vi_end_of_word(s@, pos as int),
        pos <= r <= s@.len(),
        pos < s@.len() ==> r < s@.len(),
{
    if pos == s.len() {
        return pos;
    }
    let i = scan_forward(s, pos + 1, Class::Vi(0));
    if i == s.len() {
        return pos;
    }
    let class = vi_class(s[i]);
    let j = scan_forward(s, i, Class::Vi(class));
    proof {
        assert(run_end(s@, i as int, Class::Vi(class)) == run_end(s@, i + 1, Class::Vi(class)));
        run_end_bounds(s@, i + 1, Class::Vi(class));
    }
    j - 1
}

/// A motion of vi's that a count repeats.
#[derive(Debug, Clone, Copy, PartialEq, Eq, Structural)]
pub enum WordMotion {
    /// `w`
    Forward,
    /// `b`
    Back,
    /// `e`
    End,
}

/// Where one word motion leads.
pub open spec fn word_moved(s: Seq<char>, pos: int, motion: WordMotion) -> int {
    match motion {
        WordMotion::Forward => vi_next_word(s, pos),
        WordMotion::Back => vi_previous_word(s, pos),
        WordMotion::End => vi_end_of_word(s, pos),
    }
}

/// Where `n` word motions lead.
pub open spec fn words_moved(s: Seq<char>, pos: int, n: nat, motion: WordMotion) -> int
    decreases n,
{
    if n == 0 {
        pos
    } else {
        words_moved(s, word_moved(s, pos, motion), (n - 1) as nat, motion)
    }
}

/// A word motion that goes nowhere goes nowhere however often it is repeated.
proof fn words_moved_stuck(s: Seq<char>, pos: int, n: nat, motion: WordMotion)
    requires
        word_moved(s, pos, motion) == pos,
    ensures
        words_moved(s, pos, n, motion) == pos,
    decreases n,
{
    if n > 0 {
        words_moved_stuck(s, pos, (n - 1) as nat, motion);
    }
}

/// Repeat a word motion `n` times.
pub fn apply_n(s: &[char], pos: usize, n: usize, motion: WordMotion) -> (r: usize)
    requires
        pos <= s@.len(),
    ensures
        r == words_moved(s@, pos as int, n as nat, motion),
        r <= s@.len(),
        motion != WordMotion::Back ==> pos <= r,
        motion == WordMotion::Back ==> r <= pos,
        motion == WordMotion::End && pos < s@.len() ==> r < s@.len(),
{
    let mut p: usize = pos;
    let mut left: usize = n;
    while left > 0
        invariant
            p <= s@.len(),
            left <= n,
            words_moved(s@, pos as int, n as nat, motion) == words_moved(
                s@,
                p as int,
                left as nat,
                motion,
            ),
            motion != WordMotion::Back ==> pos <= p,
            motion == WordMotion::Back ==> p <= pos,
            motion == WordMotion::End && pos < s@.len() ==> p < s@.len(),
        decreases left,
    {
        let q = match motion {
            WordMotion::Forward => vi_word_fwd(s, p),
            WordMotion::Back => vi_word_back(s, p),
            WordMotion::End => vi_word_end(s, p),
        };
        if q == p {
            proof {
                words_moved_stuck(s@, p as int, left as nat, motion);
            }
            return p;
        }
        p = q;
        left -= 1;
    }
    p
}

/// The index `n` characters further on, as far as the text goes.
pub open spec fn forward_by(s: Seq<char>, pos: int, n: int) -> int {
    if pos + n <= s.len() {
        pos + n
    } else {
        s.len() as int
    }
}

/// Move `n` characters forward, as far as the text goes.
pub fn fwd_n(s: &[char], pos: usize, n: usize) -> (r: usize)
    requires
        pos <= s@.len(),
    ensures
        r == forward_by(s@, pos as int, n as int),
        pos <= r <= s@.len(),
{
    if n <= s.len() - pos {
        pos + n
    } else {
        s.len()
    }
}

/// Move `n` characters back, as far as the start of the text.
pub fn back_n(pos: usize, n: usize) -> (r: usize)
    ensures
        r == (if n <= pos { pos - n } else { 0 }),
{
    if n <= pos {
        pos - n
    } else {
        0
    }
}

/// The first character that is not blank, or 0 in an all-blank text.
pub open spec fn nonblank(s: Seq<char>) -> int {
    if run_end(s, 0, Class::Blank) < s.len() {
        run_end(s, 0, Class::Blank)
    } else {
        0
    }
}

/// vi `^`: the first non-blank character.
pub fn first_nonblank(s: &[char]) -> (r: usize)
    ensures
        r == nonblank(s@),
        r <= s@.len(),
{
    let i = scan_forward(s, 0, Class::Blank);
    if i < s.len() {
        i
    } else {
        0
    }
}

/// The find command that looks the other way.
pub open spec fn inverted(kind: char) -> char {
    if kind == 'f' {
        'F'
    } else if kind == 'F' {
        'f'
    } else if kind == 't' {
        'T'
    } else {
        't'
    }
}

/// The find command that `,` repeats.
pub fn invert_find(kind: char) -> (r: char)
    ensures
        r == inverted(kind),
{
    match kind {
        'f' => 'F',
        'F' => 'f',
        't' => 'T',
        _ => 't',
    }
}

/// Where `f F t T` leads, and whether an operator over it is inclusive: `f`
/// and `t` look for the target after the cursor, the others before it; `t` and
/// `T` stop one character short, and lead nowhere when that is no progress.
pub open spec fn find_target(s: Seq<char>, pos: int, kind: char, target: char) -> Option<
    (int, bool),
> {
    if kind == 'f' || kind == 't' {
        match first_index(s, pos + 1, target) {
            Some(i) => if kind == 'f' {
                Some((i, true))
            } else if i - 1 > pos {
                Some((i - 1, true))
            } else {
                None
            },
            None => None,
        }
    } else {
        match last_index(s, pos, target) {
            Some(i) => if kind != 'T' {
                Some((i, false))
            } else if i + 1 < pos {
                Some((i + 1, false))
            } else {
                None
            },
            None => None,
        }
    }
}

/// A motion's target, as mathematical integers.
pub open spec fn as_target(t: Option<(usize, bool)>) -> Option<(int, bool)> {
    match t {
        Some((i, inclusive)) => Some((i as int, inclusive)),
        None => None,
    }
}

/// Resolve `f F t T` to a target position (and operator inclusivity).
pub fn vi_find_target(s: &[char], pos: usize, kind: char, target: char) -> (r: Option<
    (usize, bool),
>)
    requires
        pos <= s@.len(),
    ensures
        as_target(r) == find_target(s@, pos as int, kind, target),
        r matches Some((t, inclusive)) ==> t < s@.len() && (inclusive ==> t > pos) && (!inclusive
            ==> t < pos),
{
    if kind == 'f' || kind == 't' {
        if pos == s.len() {
            return None;
        }
        match index_from(s, pos + 1, target) {
            Some(i) => if kind == 'f' {
                Some((i, true))
            } else if i - 1 > pos {
                Some((i - 1, true))
            } else {
                None
            },
            None => None,
        }
    } else {
        match index_before(s, pos, target) {
            Some(i) => if kind != 'T' {
                Some((i, false))
            } else if i + 1 < pos {
                Some((i + 1, false))
            } else {
                None
            },
            None => None,
        }
    }
}

} // verus!
