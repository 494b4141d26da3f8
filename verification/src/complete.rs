//! Tab completion: common-prefix insertion, the columned candidate list, and
//! menu cycling.
use vstd::prelude::*;

use crate::edit::insert_char;
use crate::hooks::{choices, Candidate, Choice};
use crate::line::{as_menu, Line, LineState, Menu, MenuState, Pending};
use crate::text::{
    alike, as_index, byte_len, char_index, chars_alike, chars_of, decimal, index_of_byte, longer,
    push_chars, push_decimal, push_str, rows, same, slice, spliced, string_of,
};
use crate::width::{clipped, width, width_chars};
use crate::words::{run_start, scan_back, Class};

verus! {

/// The strings' characters.
pub open spec fn names_of(v: Seq<&str>) -> Seq<Seq<char>> {
    Seq::new(v.len(), |i: int| v[i]@)
}

/// How many leading characters two texts have in common.
pub open spec fn common(a: Seq<char>, b: Seq<char>, ignore_case: bool) -> int
    decreases a.len(),
{
    if a.len() > 0 && b.len() > 0 && alike(a[0], b[0], ignore_case) {
        1 + common(a.skip(1), b.skip(1), ignore_case)
    } else {
        0
    }
}

/// How many leading characters of the first name the first `n` names have in
/// common.
pub open spec fn shared(names: Seq<Seq<char>>, n: int, ignore_case: bool) -> int
    decreases n,
{
    if n <= 1 {
        names[0].len() as int
    } else {
        let rest = shared(names, n - 1, ignore_case);
        let this = common(names[0], names[n - 1], ignore_case);
        if this < rest {
            this
        } else {
            rest
        }
    }
}

/// The longest common prefix, in the first name's spelling.
pub open spec fn lcp(names: Seq<Seq<char>>, ignore_case: bool) -> Seq<char> {
    if names.len() == 0 {
        Seq::empty()
    } else {
        names[0].take(shared(names, names.len() as int, ignore_case))
    }
}

/// The candidates' replacements.
pub open spec fn replacements(c: Seq<Choice>) -> Seq<Seq<char>> {
    Seq::new(c.len(), |i: int| c[i].replacement)
}

/// The candidates' displays.
pub open spec fn displays(c: Seq<Choice>) -> Seq<Seq<char>> {
    Seq::new(c.len(), |i: int| c[i].display)
}

/// Character order.
pub open spec fn not_after(a: Seq<char>, b: Seq<char>) -> bool
    decreases a.len(),
{
    if a.len() == 0 {
        true
    } else if b.len() == 0 {
        false
    } else if a[0] == b[0] {
        not_after(a.skip(1), b.skip(1))
    } else {
        a[0] < b[0]
    }
}

/// Where a text goes among the first `n` of ordered ones: after all that do
/// not come after it.
pub open spec fn slot(s: Seq<Seq<char>>, n: int, x: Seq<char>) -> int
    decreases n,
{
    if n <= 0 || not_after(s[n - 1], x) {
        n
    } else {
        slot(s, n - 1, x)
    }
}

/// The texts in order.
pub open spec fn sorted(s: Seq<Seq<char>>) -> Seq<Seq<char>>
    decreases s.len(),
{
    if s.len() == 0 {
        s
    } else {
        let before = sorted(s.drop_last());
        before.insert(slot(before, before.len() as int, s.last()), s.last())
    }
}

/// The widest of the texts.
pub open spec fn widest(s: Seq<Seq<char>>) -> usize
    decreases s.len(),
{
    if s.len() == 0 {
        0
    } else {
        let rest = widest(s.drop_last());
        let this = clipped(width(s.last()));
        if this > rest {
            this
        } else {
            rest
        }
    }
}

/// A text filled up with spaces to `w` characters.
pub open spec fn padded(s: Seq<char>, w: int) -> Seq<char> {
    if s.len() < w {
        s + Seq::new((w - s.len()) as nat, |i: int| ' ')
    } else {
        s
    }
}

/// One row of the list: every `step`-th text from `i` on.
pub open spec fn list_row(s: Seq<Seq<char>>, i: int, step: int, w: int) -> Seq<char>
    decreases
            (if i < s.len() {
                s.len() - i
            } else {
                0
            }),
{
    if i < 0 || i >= s.len() || step <= 0 {
        Seq::empty()
    } else {
        padded(s[i], w) + list_row(s, i + step, step, w)
    }
}

/// A text without trailing whitespace.
pub open spec fn trimmed(s: Seq<char>) -> Seq<char> {
    s.take(run_start(s, s.len() as int, Class::Blank))
}

/// The rows of the list from row `r` on.
pub open spec fn list_rows(s: Seq<Seq<char>>, r: int, step: int, w: int) -> Seq<char>
    decreases step - r,
{
    if r < 0 || r >= step {
        Seq::empty()
    } else {
        trimmed(list_row(s, r, step, w)) + "\n"@ + list_rows(s, r + 1, step, w)
    }
}

/// The candidate list on a terminal `cols` wide: sorted, down each column and
/// then across.
pub open spec fn listed_text(c: Seq<Choice>, cols: int) -> Seq<char> {
    let s = sorted(displays(c));
    let widest = widest(s);
    let w = if widest <= usize::MAX - 2 {
        widest + 2
    } else {
        usize::MAX as int
    };
    let across = if cols / w >= 1 {
        cols / w
    } else {
        1
    };
    let down = s.len() as int / across + if s.len() as int % across > 0 {
        1int
    } else {
        0int
    };
    list_rows(s, 0, down, w)
}

/// All replacements, space-separated.
pub open spec fn joined(c: Seq<Choice>) -> Seq<char>
    decreases c.len(),
{
    if c.len() == 0 {
        Seq::empty()
    } else if c.len() == 1 {
        c[0].replacement
    } else {
        joined(c.drop_last()) + " "@ + c.last().replacement
    }
}

impl Line {
    /// With the candidates listed, or the question whether to; `arm` starts
    /// menu cycling.
    #[verifier::opaque]
    pub open spec fn listed(self, menu: Menu, arm: bool) -> Line {
        let n = menu.candidates.len();
        if self.cfg.query_items > 0 && n >= self.cfg.query_items {
            Line {
                listing: Some(menu),
                pending: Pending::ListQuery(arm),
                ..self.left().say("Display all "@ + decimal(n) + " possibilities? (y or n)"@)
            }
        } else {
            self.left().printed(menu, arm)
        }
    }

    /// With the list printed.
    #[verifier::opaque]
    pub open spec fn printed(self, menu: Menu, arm: bool) -> Line {
        Line {
            menu: if arm {
                Some(menu)
            } else {
                self.menu
            },
            ..self.say(listed_text(menu.candidates, self.cols)).region()
        }
    }

    /// With the question whether to list answered.
    #[verifier::opaque]
    pub open spec fn list_answered(self, arm: bool, yes: bool) -> Line {
        let l = Line { listing: None, pending: Pending::Nothing, ..self.say("\n"@) };
        match self.listing {
            Some(menu) => if yes {
                l.printed(menu, arm)
            } else {
                l.region()
            },
            None => l.region(),
        }
    }

    /// With the common prefix of the candidates for the word from `start`
    /// inserted; when that makes no progress (it takes no more bytes than the
    /// word), with the candidates listed. A
    /// unique match that is inserted whole is followed by the append character.
    #[verifier::opaque]
    pub open spec fn completed(self, start: int, c: Seq<Choice>) -> Line {
        if c.len() == 0 {
            self.rung()
        } else {
            let prefix = lcp(replacements(c), self.cfg.completion_ignore_case);
            let grown = byte_len(prefix) > byte_len(self.buffer.subrange(start, self.cursor));
            let l = if grown {
                self.put(start, self.cursor, prefix)
            } else {
                self
            };
            if c.len() == 1 {
                if l.buffer.subrange(start, l.cursor) == c[0].replacement {
                    match self.cfg.append_character {
                        Some(a) => l.typed(a),
                        None => l,
                    }
                } else {
                    l
                }
            } else if grown && !self.cfg.show_all_if_ambiguous {
                l
            } else {
                l.listed(
                    Menu { start, inserted: l.cursor - start, index: None, candidates: c },
                    true,
                )
            }
        }
    }

    /// With the candidates listed and nothing else done.
    #[verifier::opaque]
    pub open spec fn possible(self, start: int, c: Seq<Choice>) -> Line {
        if c.len() == 0 {
            self.rung()
        } else {
            self.listed(
                Menu { start, inserted: self.cursor - start, index: None, candidates: c },
                false,
            )
        }
    }

    /// With every candidate inserted.
    #[verifier::opaque]
    pub open spec fn all_inserted(self, start: int, c: Seq<Choice>) -> Line {
        if c.len() == 0 {
            self.rung()
        } else {
            self.put(start, self.cursor, joined(c))
        }
    }

    /// With the word replaced by the next candidate, or the previous one,
    /// wrapping around the list.
    #[verifier::opaque]
    pub open spec fn cycled(self, forward: bool) -> Line {
        match self.menu {
            Some(m) => {
                let n = m.candidates.len() as int;
                if n > 0 && 0 <= m.start && m.start + m.inserted <= self.buffer.len() {
                    let i = next_choice(m.index, n, forward);
                    let text = m.candidates[i].replacement;
                    Line {
                        menu: Some(Menu { inserted: text.len() as int, index: Some(i), ..m }),
                        ..self.put(m.start, m.start + m.inserted, text)
                    }
                } else {
                    self
                }
            },
            None => self,
        }
    }

    /// With menu cycling started, and its first step done.
    #[verifier::opaque]
    pub open spec fn menu_begun(self, start: int, c: Seq<Choice>, forward: bool) -> Line {
        if c.len() == 0 {
            self.rung()
        } else {
            Line {
                menu: Some(
                    Menu { start, inserted: self.cursor - start, index: None, candidates: c },
                ),
                ..self
            }.cycled(forward)
        }
    }
}

/// The candidate that cycling goes to: a cold start forward is the first, a
/// cold start backward the last.
pub open spec fn next_choice(index: Option<int>, n: int, forward: bool) -> int {
    match index {
        None => if forward {
            0
        } else {
            n - 1
        },
        Some(i) => if forward {
            if i + 1 < n {
                i + 1
            } else {
                0
            }
        } else {
            if 0 < i <= n {
                i - 1
            } else {
                n - 1
            }
        },
    }
}

fn common_len(a: &[char], b: &[char], ignore_case: bool) -> (r: usize)
    ensures
        r == common(a@, b@, ignore_case),
        r <= a@.len(),
{
    let mut i: usize = 0;
    assert(a@.skip(0) =~= a@);
    assert(b@.skip(0) =~= b@);
    while i < a.len() && i < b.len()
        invariant
            i <= a@.len(),
            i <= b@.len(),
            common(a@, b@, ignore_case) == i + common(
                a@.skip(i as int),
                b@.skip(i as int),
                ignore_case,
            ),
        decreases a@.len() - i,
    {
        assert(a@.skip(i as int)[0] == a@[i as int]);
        assert(b@.skip(i as int)[0] == b@[i as int]);
        assert(a@.skip(i as int).skip(1) =~= a@.skip(i + 1));
        assert(b@.skip(i as int).skip(1) =~= b@.skip(i + 1));
        if !chars_alike(a[i], b[i], ignore_case) {
            return i;
        }
        i += 1;
    }
    i
}

/// The longest common prefix of some names.
pub fn shared_prefix(names: &Vec<Vec<char>>, ignore_case: bool) -> (r: Vec<char>)
    ensures
        r@ == lcp(rows(names@), ignore_case),
{
    if names.len() == 0 {
        return Vec::new();
    }
    let first = names[0].as_slice();
    let mut len: usize = first.len();
    let mut n: usize = 1;
    while n < names.len()
        invariant
            1 <= n <= names@.len(),
            first@ == rows(names@)[0],
            len <= first@.len(),
            len == shared(rows(names@), n as int, ignore_case),
        decreases names@.len() - n,
    {
        let this = common_len(first, names[n].as_slice(), ignore_case);
        if this < len {
            len = this;
        }
        n += 1;
    }
    let r = slice(first, 0, len);
    assert(r@ =~= first@.take(len as int));
    r
}

fn gather(names: &[&str]) -> (r: Vec<Vec<char>>)
    ensures
        rows(r@) == names_of(names@),
{
    let mut all: Vec<Vec<char>> = Vec::new();
    let mut i: usize = 0;
    while i < names.len()
        invariant
            i <= names@.len(),
            rows(all@) == names_of(names@.take(i as int)),
        decreases names@.len() - i,
    {
        let ghost before = all@;
        all.push(chars_of(names[i]));
        i += 1;
        assert(rows(all@) =~= rows(before).push(names@[i - 1]@));
        assert(names_of(names@.take(i as int)) =~= names_of(names@.take(i - 1)).push(
            names@[i - 1]@,
        ));
    }
    assert(names@.take(i as int) =~= names@);
    all
}

/// The longest prefix that all names have.
pub fn longest_common_prefix(names: &[&str]) -> (r: String)
    ensures
        r@ == lcp(names_of(names@), false),
{
    let all = gather(names);
    let r = shared_prefix(&all, false);
    string_of(r.as_slice())
}

/// [`longest_common_prefix`], optionally case-insensitive (readline's
/// `completion-ignore-case`): names are compared ignoring case and the first
/// name's spelling is what comes out.
pub fn common_prefix(names: &[&str], ignore_case: bool) -> (r: String)
    ensures
        r@ == lcp(names_of(names@), ignore_case),
{
    let all = gather(names);
    let r = shared_prefix(&all, ignore_case);
    string_of(r.as_slice())
}

fn comes_not_after(a: &[char], b: &[char]) -> (r: bool)
    ensures
        r == not_after(a@, b@),
{
    let mut i: usize = 0;
    assert(a@.skip(0) =~= a@);
    assert(b@.skip(0) =~= b@);
    while i < a.len()
        invariant
            i <= a@.len(),
            i <= b@.len(),
            not_after(a@, b@) == not_after(a@.skip(i as int), b@.skip(i as int)),
        decreases a@.len() - i,
    {
        assert(a@.skip(i as int)[0] == a@[i as int]);
        if i == b.len() {
            return false;
        }
        assert(b@.skip(i as int)[0] == b@[i as int]);
        assert(a@.skip(i as int).skip(1) =~= a@.skip(i + 1));
        assert(b@.skip(i as int).skip(1) =~= b@.skip(i + 1));
        if a[i] != b[i] {
            return a[i] < b[i];
        }
        i += 1;
    }
    true
}

/// Put the displays in order.
fn sort_displays(c: &Vec<Candidate>) -> (r: Vec<Vec<char>>)
    ensures
        rows(r@) == sorted(displays(choices(c@))),
{
    reveal(choices);
    let ghost all = displays(choices(c@));
    let mut r: Vec<Vec<char>> = Vec::new();
    assert(rows(r@) =~= sorted(all.take(0)));
    let mut i: usize = 0;
    while i < c.len()
        invariant
            i <= c@.len(),
            all == displays(choices(c@)),
            rows(r@) == sorted(all.take(i as int)),
        decreases c@.len() - i,
    {
        reveal(choices);
        let x = chars_of(c[i].display.as_str());
        assert(x@ == all[i as int]);
        let ghost before = rows(r@);
        let mut k: usize = r.len();
        while k > 0 && !comes_not_after(r[k - 1].as_slice(), x.as_slice())
            invariant
                k <= r@.len(),
                before == rows(r@),
                slot(before, before.len() as int, x@) == slot(before, k as int, x@),
            decreases k,
        {
            k -= 1;
        }
        assert(k > 0 ==> r@[k - 1]@ == before[k - 1]);
        r.insert(k, x);
        i += 1;
        assert(all.take(i as int).drop_last() =~= all.take(i - 1));
        assert(rows(r@) =~= before.insert(k as int, x@));
    }
    assert(all.take(i as int) =~= all);
    r
}

fn widest_of(s: &Vec<Vec<char>>) -> (r: usize)
    ensures
        r == widest(rows(s@)),
{
    let ghost all = rows(s@);
    let mut i: usize = 0;
    let mut w: usize = 0;
    while i < s.len()
        invariant
            i <= s@.len(),
            all == rows(s@),
            w == widest(all.take(i as int)),
        decreases s@.len() - i,
    {
        let this = width_chars(s[i].as_slice());
        if this > w {
            w = this;
        }
        i += 1;
        assert(all.take(i as int).drop_last() =~= all.take(i - 1));
    }
    assert(all.take(i as int) =~= all);
    w
}

fn push_padded(out: &mut Vec<char>, s: &[char], w: usize)
    ensures
        final(out)@ == old(out)@ + padded(s@, w as int),
{
    push_chars(out, s);
    let ghost base = out@;
    if s.len() < w {
        let n = w - s.len();
        let mut i: usize = 0;
        assert(base + Seq::new(0, |k: int| ' ') =~= base);
        while i < n
            invariant
                i <= n,
                out@ == base + Seq::new(i as nat, |k: int| ' '),
            decreases n - i,
        {
            out.push(' ');
            i += 1;
            assert(out@ =~= base + Seq::new(i as nat, |k: int| ' '));
        }
        assert(out@ =~= old(out)@ + padded(s@, w as int));
    }
}

fn one_row(s: &Vec<Vec<char>>, from: usize, step: usize, w: usize) -> (r: Vec<char>)
    requires
        step > 0,
    ensures
        r@ == list_row(rows(s@), from as int, step as int, w as int),
{
    let ghost all = rows(s@);
    let mut out: Vec<char> = Vec::new();
    let mut i: usize = from;
    assert(out@ + list_row(all, from as int, step as int, w as int) =~= list_row(
        all,
        from as int,
        step as int,
        w as int,
    ));
    while i < s.len()
        invariant
            step > 0,
            all == rows(s@),
            list_row(all, from as int, step as int, w as int) == out@ + list_row(
                all,
                i as int,
                step as int,
                w as int,
            ),
        decreases s@.len() - i,
    {
        let ghost before = out@;
        push_padded(&mut out, s[i].as_slice(), w);
        assert(before + (padded(all[i as int], w as int) + list_row(
            all,
            i + step,
            step as int,
            w as int,
        )) =~= out@ + list_row(all, i + step, step as int, w as int));
        if s.len() - i <= step {
            assert(list_row(all, i + step, step as int, w as int) =~= Seq::<char>::empty());
            assert(out@ + Seq::<char>::empty() =~= out@);
            return out;
        }
        i += step;
    }
    assert(out@ + Seq::<char>::empty() =~= out@);
    out
}

/// The candidate list on a terminal `cols` wide.
fn list_text(c: &Vec<Candidate>, cols: usize) -> (r: Vec<char>)
    ensures
        r@ == listed_text(choices(c@), cols as int),
{
    let s = sort_displays(c);
    let w = widest_of(&s).saturating_add(2);
    let across: usize = if cols / w >= 1 {
        cols / w
    } else {
        1
    };
    assert(s.len() as int / across as int <= s.len()) by (nonlinear_arith)
        requires
            across >= 1,
    ;
    assert(across == 1 ==> s.len() as int % across as int == 0);
    assert(across > 1 && s.len() > 0 ==> (s.len() as int / across as int) < s.len())
        by (nonlinear_arith)
        requires
            across >= 1,
    ;
    let extra: usize = if s.len() % across > 0 {
        1
    } else {
        0
    };
    let down = s.len() / across + extra;
    let ghost all = rows(s@);
    let mut out: Vec<char> = Vec::new();
    let mut r: usize = 0;
    let ghost whole = list_rows(all, 0, down as int, w as int);
    assert(out@ + whole =~= whole);
    while r < down
        invariant
            r <= down,
            all == rows(s@),
            whole == out@ + list_rows(all, r as int, down as int, w as int),
        decreases down - r,
    {
        let ghost before = out@;
        let row = one_row(&s, r, down, w);
        let end = scan_back(row.as_slice(), row.len(), Class::Blank);
        let row = slice(row.as_slice(), 0, end);
        assert(row@ =~= trimmed(list_row(all, r as int, down as int, w as int)));
        push_chars(&mut out, row.as_slice());
        push_str(&mut out, "\n");
        let ghost rest = list_rows(all, r + 1, down as int, w as int);
        assert(before + (row@ + "\n"@ + rest) =~= out@ + rest);
        r += 1;
    }
    assert(out@ + Seq::<char>::empty() =~= out@);
    out
}

/// Leave the edit region and print the columned list; the next paint starts a
/// fresh region below it.
fn print_list(st: &mut LineState, menu: MenuState, arm: bool)
    ensures
        final(st)@ == old(st)@.printed(menu@, arm),
        final(st).inside() == old(st).inside(),
        final(st)@.keeps(old(st)@),
{
    reveal(Line::printed);
    let text = list_text(&menu.candidates, st.cols);
    push_chars(&mut st.out, text.as_slice());
    st.new_region();
    if arm {
        st.menu = Some(menu);
    }
}

/// List the candidates, or ask whether to.
pub fn list_candidates(st: &mut LineState, menu: MenuState, arm: bool)
    ensures
        final(st)@ == old(st)@.listed(menu@, arm),
        final(st).inside() == old(st).inside(),
        final(st)@.keeps(old(st)@),
{
    reveal(Line::listed);
    reveal(Line::left);
    reveal(choices);
    let n = menu.candidates.len();
    st.finish_line();
    if st.cfg.query_items > 0 && n >= st.cfg.query_items {
        let ghost before = st.out@;
        push_str(&mut st.out, "Display all ");
        push_decimal(&mut st.out, n as u64);
        push_str(&mut st.out, " possibilities? (y or n)");
        assert(st.out@ =~= before + ("Display all "@ + decimal(n as nat)
            + " possibilities? (y or n)"@));
        st.listing = Some(menu);
        st.pending = Pending::ListQuery(arm);
    } else {
        print_list(st, menu, arm);
    }
}

/// The answer to whether the candidates are to be listed.
pub fn answer_list_query(st: &mut LineState, arm: bool, yes: bool)
    ensures
        final(st)@ == old(st)@.list_answered(arm, yes),
        final(st).inside() == old(st).inside(),
        final(st)@.keeps(old(st)@),
{
    reveal(Line::list_answered);
    let mut listing: Option<MenuState> = None;
    std::mem::swap(&mut listing, &mut st.listing);
    st.say("\n");
    st.pending = Pending::Nothing;
    match listing {
        Some(menu) => if yes {
            print_list(st, menu, arm);
        } else {
            st.new_region();
        },
        None => {
            st.new_region();
        },
    }
}

fn replacement_rows(c: &Vec<Candidate>) -> (r: Vec<Vec<char>>)
    ensures
        rows(r@) == replacements(choices(c@)),
{
    reveal(choices);
    let ghost all = replacements(choices(c@));
    let mut r: Vec<Vec<char>> = Vec::new();
    let mut i: usize = 0;
    while i < c.len()
        invariant
            i <= c@.len(),
            all == replacements(choices(c@)),
            rows(r@) == all.take(i as int),
        decreases c@.len() - i,
    {
        reveal(choices);
        let ghost before = rows(r@);
        r.push(chars_of(c[i].replacement.as_str()));
        i += 1;
        assert(rows(r@) =~= before.push(all[i - 1]));
        assert(all.take(i as int) =~= all.take(i - 1).push(all[i - 1]));
    }
    assert(all.take(i as int) =~= all);
    r
}

/// Tab completion: insert the longest common prefix; when that makes no
/// progress, print the columned candidate list below the line and arm menu
/// cycling, so further Tabs walk the candidates in-line (zsh `AUTO_MENU`).
pub fn complete_at_cursor(st: &mut LineState, start: usize, candidates: Vec<Candidate>)
    requires
        old(st).inside(),
        start <= old(st).cursor,
    ensures
        final(st)@ == old(st)@.completed(start as int, choices(candidates@)),
        final(st).inside(),
        final(st)@.keeps(old(st)@),
{
    reveal(Line::completed);
    assert(choices(candidates@).len() == candidates@.len()) by {
        reveal(choices);
    }
    if candidates.len() == 0 {
        st.bell();
        return;
    }
    let all = replacement_rows(&candidates);
    let prefix = shared_prefix(&all, st.cfg.completion_ignore_case);
    let typed = slice(st.buffer.as_slice(), start, st.cursor);
    assert(typed@ =~= st@.buffer.subrange(start as int, st@.cursor));
    let grown = longer(prefix.as_slice(), typed.as_slice());
    if grown {
        let at = st.cursor;
        st.put(start, at, prefix.as_slice());
    }
    if candidates.len() == 1 {
        let word = slice(st.buffer.as_slice(), start, st.cursor);
        assert(all@[0]@ == rows(all@)[0]);
        if same(word.as_slice(), all[0].as_slice()) {
            match st.cfg.append_character {
                Some(c) => {
                    insert_char(st, c);
                },
                None => {},
            }
        }
        return;
    }
    if grown && !st.cfg.show_all_if_ambiguous {
        return;
    }
    let menu = MenuState { start, inserted: st.cursor - start, index: None, candidates };
    list_candidates(st, menu, true);
}

/// M-?: list the candidates without touching the buffer.
pub fn possible_completions(st: &mut LineState, start: usize, candidates: Vec<Candidate>)
    requires
        old(st).inside(),
        start <= old(st).cursor,
    ensures
        final(st)@ == old(st)@.possible(start as int, choices(candidates@)),
        final(st).inside(),
        final(st)@.keeps(old(st)@),
{
    reveal(Line::possible);
    assert(choices(candidates@).len() == candidates@.len()) by {
        reveal(choices);
    }
    if candidates.len() == 0 {
        st.bell();
    } else {
        let menu = MenuState { start, inserted: st.cursor - start, index: None, candidates };
        list_candidates(st, menu, false);
    }
}

/// M-*: insert every candidate, space-separated.
pub fn insert_completions(st: &mut LineState, start: usize, candidates: Vec<Candidate>)
    requires
        old(st).inside(),
        start <= old(st).cursor,
    ensures
        final(st)@ == old(st)@.all_inserted(start as int, choices(candidates@)),
        final(st).inside(),
        final(st)@.keeps(old(st)@),
{
    reveal(Line::all_inserted);
    let ghost all = choices(candidates@);
    assert(all.len() == candidates@.len()) by {
        reveal(choices);
    }
    if candidates.len() == 0 {
        st.bell();
        return;
    }
    assert(all[0].replacement == candidates@[0].replacement@) by {
        reveal(choices);
    }
    let mut text = chars_of(candidates[0].replacement.as_str());
    let mut i: usize = 1;
    while i < candidates.len()
        invariant
            1 <= i <= candidates@.len(),
            all == choices(candidates@),
            all.len() == candidates@.len(),
            text@ == joined(all.take(i as int)),
        decreases candidates@.len() - i,
    {
        assert(all[i as int].replacement == candidates@[i as int].replacement@) by {
            reveal(choices);
        }
        push_str(&mut text, " ");
        push_str(&mut text, candidates[i].replacement.as_str());
        i += 1;
        assert(all.take(i as int).drop_last() =~= all.take(i - 1));
    }
    assert(all.take(i as int) =~= all);
    let at = st.cursor;
    st.put(start, at, text.as_slice());
}

fn take_menu(st: &mut LineState) -> (r: Option<MenuState>)
    ensures
        as_menu(r) == old(st)@.menu,
        final(st)@ == (Line { menu: None, ..old(st)@ }),
        final(st).inside() == old(st).inside(),
        final(st)@.keeps(old(st)@),
{
    let mut r: Option<MenuState> = None;
    std::mem::swap(&mut r, &mut st.menu);
    r
}

fn pick(index: Option<usize>, n: usize, forward: bool) -> (r: usize)
    requires
        n > 0,
    ensures
        r == next_choice(as_index(index), n as int, forward),
        r < n,
{
    match index {
        None => if forward {
            0
        } else {
            n - 1
        },
        Some(i) => if forward {
            if i < n - 1 {
                i + 1
            } else {
                0
            }
        } else {
            if 0 < i && i <= n {
                i - 1
            } else {
                n - 1
            }
        },
    }
}

/// A further Tab (or Shift-Tab) with the menu armed: replace the word with the
/// next (or previous) candidate, wrapping around the list.
pub fn menu_step(st: &mut LineState, forward: bool)
    requires
        old(st).inside(),
    ensures
        final(st)@ == old(st)@.cycled(forward),
        final(st).inside(),
        final(st)@.keeps(old(st)@),
{
    reveal(Line::cycled);
    match take_menu(st) {
        Some(m) => {
            assert(m@.candidates.len() == m.candidates@.len()) by {
                reveal(choices);
            }
            let n = m.candidates.len();
            let len = st.buffer.len();
            let MenuState { start, inserted, index, candidates } = m;
            if n > 0 && start <= len && inserted <= len - start {
                let i = pick(index, n, forward);
                let text = chars_of(candidates[i].replacement.as_str());
                assert(text@ == m@.candidates[i as int].replacement) by {
                    reveal(choices);
                }
                st.put(start, start + inserted, text.as_slice());
                st.menu = Some(
                    MenuState { start, inserted: text.len(), index: Some(i), candidates },
                );
            } else {
                st.menu = Some(MenuState { start, inserted, index, candidates });
            }
        },
        None => {},
    }
}

/// The next candidate.
pub fn menu_next(st: &mut LineState)
    requires
        old(st).inside(),
    ensures
        final(st)@ == old(st)@.cycled(true),
        final(st).inside(),
        final(st)@.keeps(old(st)@),
{
    menu_step(st, true);
}

/// readline `menu-complete` (also Tab under `set_menu_complete`): insert the
/// first candidate immediately and arm cycling, with no common-prefix step and
/// no candidate list. Backward, the last candidate comes first.
pub fn menu_complete_start(
    st: &mut LineState,
    start: usize,
    candidates: Vec<Candidate>,
    forward: bool,
)
    requires
        old(st).inside(),
        start <= old(st).cursor,
    ensures
        final(st)@ == old(st)@.menu_begun(start as int, choices(candidates@), forward),
        final(st).inside(),
        final(st)@.keeps(old(st)@),
{
    reveal(Line::menu_begun);
    assert(choices(candidates@).len() == candidates@.len()) by {
        reveal(choices);
    }
    if candidates.len() == 0 {
        st.bell();
        return;
    }
    let menu = MenuState { start, inserted: st.cursor - start, index: None, candidates };
    st.menu = Some(menu);
    menu_step(st, forward);
}

/// A word-start offset from a hook, as a character index at or before the
/// cursor: out-of-range and mid-character offsets are clamped.
pub open spec fn clamped(buffer: Seq<char>, cursor: int, bytes: int) -> int {
    char_index(buffer.take(cursor), bytes)
}

/// A word-start offset from a hook, as a character index at or before the
/// cursor.
pub fn clamp_start(st: &LineState, bytes: usize) -> (r: usize)
    requires
        st.inside(),
    ensures
        r == clamped(st@.buffer, st@.cursor, bytes as int),
        r <= st.cursor,
{
    let head = slice(st.buffer.as_slice(), 0, st.cursor);
    assert(head@ =~= st.buffer@.take(st.cursor as int));
    index_of_byte(head.as_slice(), bytes)
}

/// The common length of two texts: all before it is alike, and what stands at
/// it is not.
proof fn common_is_longest(a: Seq<char>, b: Seq<char>, ignore_case: bool)
    ensures
        ({
            let n = common(a, b, ignore_case);
            &&& 0 <= n <= a.len()
            &&& n <= b.len()
            &&& forall|k: int| 0 <= k < n ==> alike(#[trigger] a[k], b[k], ignore_case)
            &&& n < a.len() && n < b.len() ==> !alike(a[n], b[n], ignore_case)
        }),
    decreases a.len(),
{
    if a.len() > 0 && b.len() > 0 && alike(a[0], b[0], ignore_case) {
        common_is_longest(a.skip(1), b.skip(1), ignore_case);
        let n = common(a, b, ignore_case);
        assert forall|k: int| 0 <= k < n implies alike(#[trigger] a[k], b[k], ignore_case) by {
            if k > 0 {
                assert(alike(a.skip(1)[k - 1], b.skip(1)[k - 1], ignore_case));
            }
        }
    }
}

/// A name begins with the given characters, alike.
pub open spec fn begins_alike(name: Seq<char>, prefix: Seq<char>, ignore_case: bool) -> bool {
    &&& prefix.len() <= name.len()
    &&& forall|k: int| 0 <= k < prefix.len() ==> alike(#[trigger] prefix[k], name[k], ignore_case)
}

proof fn shared_is_longest(names: Seq<Seq<char>>, n: int, ignore_case: bool)
    requires
        1 <= n <= names.len(),
    ensures
        ({
            let len = shared(names, n, ignore_case);
            &&& 0 <= len <= names[0].len()
            &&& forall|i: int| 1 <= i < n ==> len <= common(names[0], #[trigger] names[i], ignore_case)
            &&& len < names[0].len() ==> exists|i: int|
                1 <= i < n && len == common(names[0], #[trigger] names[i], ignore_case)
        }),
    decreases n,
{
    if n > 1 {
        shared_is_longest(names, n - 1, ignore_case);
        common_is_longest(names[0], names[n - 1], ignore_case);
        let len = shared(names, n, ignore_case);
        if len < names[0].len() {
            if len != common(names[0], names[n - 1], ignore_case) {
                let i = choose|i: int|
                    1 <= i < n - 1 && len == common(names[0], #[trigger] names[i], ignore_case);
                assert(1 <= i < n && len == common(names[0], names[i], ignore_case));
            } else {
                assert(1 <= n - 1 < n && len == common(names[0], names[n - 1], ignore_case));
            }
        }
    }
}

/// What completion inserts is common to all candidates, and nothing longer is.
pub proof fn lcp_is_common_and_longest(names: Seq<Seq<char>>, ignore_case: bool)
    requires
        names.len() > 0,
    ensures
        forall|i: int|
            1 <= i < names.len() ==> begins_alike(
                #[trigger] names[i],
                lcp(names, ignore_case),
                ignore_case,
            ),
        crate::text::begins_with(names[0], lcp(names, ignore_case)),
        forall|longer: Seq<char>|
            crate::text::begins_with(names[0], longer) && longer.len() > lcp(
                names,
                ignore_case,
            ).len() ==> exists|i: int|
                0 <= i < names.len() && !#[trigger] begins_alike(names[i], longer, ignore_case),
{
    let n = names.len() as int;
    let p = lcp(names, ignore_case);
    shared_is_longest(names, n, ignore_case);
    assert forall|i: int| 1 <= i < n implies begins_alike(#[trigger] names[i], p, ignore_case) by {
        common_is_longest(names[0], names[i], ignore_case);
    }
    assert(names[0].take(p.len() as int) =~= p);
    assert forall|longer: Seq<char>|
        crate::text::begins_with(names[0], longer) && longer.len() > p.len() implies exists|i: int|
        0 <= i < n && !#[trigger] begins_alike(names[i], longer, ignore_case) by {
        let len = p.len() as int;
        let i = choose|i: int|
            1 <= i < n && len == common(names[0], #[trigger] names[i], ignore_case);
        common_is_longest(names[0], names[i], ignore_case);
        assert(longer[len] == names[0][len]);
        assert(!begins_alike(names[i], longer, ignore_case));
    }
}

/// Texts in character order.
pub open spec fn ordered(s: Seq<Seq<char>>) -> bool {
    forall|i: int, j: int| 0 <= i < j < s.len() ==> not_after(#[trigger] s[i], #[trigger] s[j])
}

/// Character order is total.
proof fn one_is_not_after(a: Seq<char>, b: Seq<char>)
    ensures
        not_after(a, b) || not_after(b, a),
    decreases a.len(),
{
    if a.len() > 0 && b.len() > 0 && a[0] == b[0] {
        one_is_not_after(a.skip(1), b.skip(1));
    }
}

/// Character order is transitive.
proof fn not_after_is_transitive(a: Seq<char>, b: Seq<char>, c: Seq<char>)
    requires
        not_after(a, b),
        not_after(b, c),
    ensures
        not_after(a, c),
    decreases a.len(),
{
    if a.len() > 0 && b.len() > 0 && c.len() > 0 && a[0] == b[0] && b[0] == c[0] {
        not_after_is_transitive(a.skip(1), b.skip(1), c.skip(1));
    }
}

proof fn slot_is_between(s: Seq<Seq<char>>, n: int, x: Seq<char>)
    requires
        0 <= n <= s.len(),
        ordered(s),
    ensures
        ({
            let k = slot(s, n, x);
            &&& 0 <= k <= n
            &&& forall|i: int| 0 <= i < k ==> not_after(#[trigger] s[i], x)
            &&& forall|i: int| k <= i < n ==> not_after(x, #[trigger] s[i])
        }),
    decreases n,
{
    if n > 0 {
        if not_after(s[n - 1], x) {
            assert forall|i: int| 0 <= i < n implies not_after(#[trigger] s[i], x) by {
                if i < n - 1 {
                    not_after_is_transitive(s[i], s[n - 1], x);
                }
            }
        } else {
            one_is_not_after(s[n - 1], x);
            slot_is_between(s, n - 1, x);
        }
    }
}

/// The candidate list is in order, and holds each name as often as it was
/// given.
pub proof fn sorted_is_ordered(s: Seq<Seq<char>>)
    ensures
        ordered(sorted(s)),
        sorted(s).to_multiset() == s.to_multiset(),
        sorted(s).len() == s.len(),
    decreases s.len(),
{
    if s.len() > 0 {
        let x = s.last();
        let before = sorted(s.drop_last());
        sorted_is_ordered(s.drop_last());
        let n = before.len() as int;
        slot_is_between(before, n, x);
        let k = slot(before, n, x);
        let after = before.insert(k, x);
        assert forall|i: int, j: int| 0 <= i < j < after.len() implies not_after(
            #[trigger] after[i],
            #[trigger] after[j],
        ) by {
            let a = if i < k {
                i
            } else {
                i - 1
            };
            let b = if j < k {
                j
            } else {
                j - 1
            };
            if i != k && j != k {
                assert(not_after(before[a], before[b]));
            }
        }
        before.to_multiset_ensures();
        s.drop_last().to_multiset_ensures();
        assert(s.drop_last().push(x) =~= s);
        assert(after.to_multiset() =~= before.to_multiset().insert(x)) by {
            vstd::seq_lib::lemma_multiset_commutative(before.take(k), before.skip(k));
            vstd::seq_lib::lemma_multiset_commutative(before.take(k).push(x), before.skip(k));
            before.take(k).to_multiset_ensures();
            assert(before.take(k) + before.skip(k) =~= before);
            assert(before.take(k).push(x) + before.skip(k) =~= after);
        }
    }
}

/// Menu cycling, so many steps forward.
pub open spec fn cycled_times(line: Line, times: nat) -> Line
    decreases times,
{
    if times == 0 {
        line
    } else {
        cycled_times(line, (times - 1) as nat).cycled(true)
    }
}

/// Cycling walks the candidates in order and wraps around: after so many steps
/// the word is replaced by that candidate, and the rest of the line is as it
/// was.
pub proof fn cycling_walks_the_candidates(line: Line, times: nat)
    requires
        line.menu matches Some(m) && m.candidates.len() > 0 && m.index is None && 0 <= m.start && 0
            <= m.inserted && m.start + m.inserted <= line.buffer.len(),
        times > 0,
    ensures
        ({
            let m = line.menu->0;
            let i = (times - 1) % (m.candidates.len() as int);
            let text = m.candidates[i].replacement;
            let l = cycled_times(line, times);
            &&& 0 <= i < m.candidates.len()
            &&& l.buffer == spliced(line.buffer, m.start, m.start + m.inserted, text)
            &&& l.cursor == m.start + text.len()
            &&& l.menu == Some(Menu { inserted: text.len() as int, index: Some(i), ..m })
        }),
    decreases times,
{
    reveal(Line::cycled);
    let m = line.menu->0;
    let n = m.candidates.len() as int;
    let i = (times - 1) % n;
    vstd::arithmetic::div_mod::lemma_mod_bound(times - 1, n);
    if times == 1 {
        vstd::arithmetic::div_mod::lemma_small_mod(0, n as nat);
        assert(cycled_times(line, 0) == line);
    } else {
        let before = (times - 1) as nat;
        cycling_walks_the_candidates(line, before);
        next_place(times - 2, n);
        let k = (times - 2) % n;
        let old = m.candidates[k].replacement;
        let text = m.candidates[i].replacement;
        assert(spliced(
            spliced(line.buffer, m.start, m.start + m.inserted, old),
            m.start,
            m.start + old.len(),
            text,
        ) =~= spliced(line.buffer, m.start, m.start + m.inserted, text));
    }
}

proof fn next_place(m: int, n: int)
    requires
        n > 0,
    ensures
        (m + 1) % n == (if m % n + 1 < n {
            m % n + 1
        } else {
            0
        }),
{
    vstd::arithmetic::div_mod::lemma_fundamental_div_mod(m, n);
    vstd::arithmetic::div_mod::lemma_mod_bound(m, n);
    let q = m / n;
    let r = m % n;
    assert(m == q * n + r && (q + 1) * n == q * n + n) by (nonlinear_arith)
        requires
            m == n * q + r,
    ;
    if r + 1 < n {
        vstd::arithmetic::div_mod::lemma_fundamental_div_mod_converse(m + 1, n, q, r + 1);
    } else {
        vstd::arithmetic::div_mod::lemma_fundamental_div_mod_converse(m + 1, n, q + 1, 0);
    }
}

/// Once cycling has begun, a step forward and a step backward cancel.
pub proof fn cycling_back_undoes_cycling(line: Line)
    requires
        line.menu matches Some(m) && (m.index matches Some(i) && 0 <= i < m.candidates.len()
            && m.inserted == m.candidates[i].replacement.len() && 0 <= m.start && m.start
            + m.inserted <= line.buffer.len() && line.buffer.subrange(
            m.start,
            m.start + m.inserted,
        ) == m.candidates[i].replacement),
    ensures
        line.cycled(true).cycled(false).buffer == line.buffer,
        line.cycled(true).cycled(false).menu == line.menu,
        line.cycled(false).cycled(true).buffer == line.buffer,
        line.cycled(false).cycled(true).menu == line.menu,
{
    reveal(Line::cycled);
    assert(line.cycled(true).cycled(false).buffer =~= line.buffer);
    assert(line.cycled(false).cycled(true).buffer =~= line.buffer);
}

} // verus!
