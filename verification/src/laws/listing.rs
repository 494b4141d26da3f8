//! The list of candidates: in order, in columns that fit the terminal, down each
//! column and then across.
use vstd::prelude::*;

use crate::complete::{
    displays, list_row, list_rows, listed_text, not_after, ordered, padded, sorted,
    sorted_is_ordered, trimmed, widest,
};
use crate::hooks::Choice;
use crate::laws::repaint::plain_width;
use crate::laws::screen::{columns_of, is_plain, wide};
use crate::unicode::whitespace;
use crate::words::{run_start, run_start_bounds, Class};

verus! {

/// `a` comes before `b` in the order of their characters, or is the same.
pub open spec fn comes_before(a: Seq<char>, b: Seq<char>) -> bool {
    exists|k: int| #[trigger] parts_at(a, b, k)
}

/// `a` and `b` are the same up to `k`, where `a` ends or is the smaller.
pub open spec fn parts_at(a: Seq<char>, b: Seq<char>, k: int) -> bool {
    &&& 0 <= k <= a.len()
    &&& k <= b.len()
    &&& forall|i: int| 0 <= i < k ==> #[trigger] a[i] == b[i]
    &&& k == a.len() || k < b.len() && a[k] < b[k]
}

proof fn order_is_order(a: Seq<char>, b: Seq<char>)
    requires
        not_after(a, b),
    ensures
        comes_before(a, b),
    decreases a.len(),
{
    if a.len() == 0 || b.len() > 0 && a[0] != b[0] {
        assert(parts_at(a, b, 0));
    } else {
        order_is_order(a.skip(1), b.skip(1));
        let k = choose|k: int| #[trigger] parts_at(a.skip(1), b.skip(1), k);
        assert forall|i: int| 0 <= i < k + 1 implies #[trigger] a[i] == b[i] by {
            if i > 0 {
                assert(a.skip(1)[i - 1] == b.skip(1)[i - 1]);
            }
        }
        assert(parts_at(a, b, k + 1));
    }
}

/// A name that takes as many columns as it has characters, and ends in a mark.
pub open spec fn is_simple(name: Seq<char>) -> bool {
    &&& is_plain(name)
    &&& 0 < name.len() <= usize::MAX - 2
    &&& !whitespace(name.last())
    &&& forall|k: int| 0 <= k < name.len() ==> columns_of(#[trigger] name[k]) == 1
}

proof fn simple_width(name: Seq<char>)
    requires
        is_plain(name),
        forall|k: int| 0 <= k < name.len() ==> columns_of(#[trigger] name[k]) == 1,
    ensures
        wide(name) == name.len(),
    decreases name.len(),
{
    if name.len() > 0 {
        let rest = name.skip(1);
        assert(columns_of(name[0]) == 1);
        assert forall|k: int| 0 <= k < rest.len() implies columns_of(#[trigger] rest[k]) == 1
            && rest[k] as u32 >= 0x20 && rest[k] != '\x7f' by {
            assert(rest[k] == name[k + 1]);
        }
        simple_width(rest);
    }
}

/// The rows, one below the other.
pub open spec fn one_below_the_other(rows: Seq<Seq<char>>) -> Seq<char>
    decreases rows.len(),
{
    if rows.len() == 0 {
        Seq::empty()
    } else {
        rows[0] + seq!['\n'] + one_below_the_other(rows.skip(1))
    }
}

/// In row `r`, the `m`-th name from the left stands at the start of its column,
/// with nothing behind it there: the columns hold the names in order, each from
/// top to bottom.
pub open spec fn is_placed(
    rows: Seq<Seq<char>>,
    names: Seq<Seq<char>>,
    w: int,
    r: int,
    m: int,
) -> bool {
    let name = names[r + m * rows.len()];
    let x = m * w;
    &&& x + name.len() <= rows[r].len()
    &&& rows[r].subrange(x, x + name.len()) == name
    &&& forall|p: int|
        x + name.len() <= p < x + w && p < rows[r].len() ==> #[trigger] rows[r][p] == ' '
}

/// The names are laid out in columns `w` wide, on a terminal of `cols` columns.
pub open spec fn is_laid_out(
    rows: Seq<Seq<char>>,
    names: Seq<Seq<char>>,
    w: int,
    cols: int,
) -> bool {
    let d = rows.len() as int;
    let across = if cols / w >= 1 {
        cols / w
    } else {
        1
    };
    &&& forall|i: int| 0 <= i < names.len() ==> (#[trigger] names[i]).len() + 2 <= w
    &&& exists|i: int| 0 <= i < names.len() && (#[trigger] names[i]).len() + 2 == w
    &&& across * d >= names.len()
    &&& across * (d - 1) < names.len()
    &&& forall|r: int| 0 <= r < d ==> (#[trigger] rows[r]).len() <= across * w
    &&& forall|r: int, m: int|
        0 <= r < d && 0 <= m && r + m * d < names.len() ==> #[trigger] is_placed(
            rows,
            names,
            w,
            r,
            m,
        )
}

/// The list of the candidates.
pub open spec fn is_the_list(text: Seq<char>, c: Seq<Choice>, cols: int) -> bool {
    exists|rows: Seq<Seq<char>>, names: Seq<Seq<char>>, w: int|
        {
            &&& #[trigger] is_laid_out(rows, names, w, cols)
            &&& text == one_below_the_other(rows)
            &&& names.to_multiset() == Seq::new(c.len(), |i: int| c[i].display).to_multiset()
            &&& forall|i: int, j: int|
                0 <= i < j < names.len() ==> comes_before(#[trigger] names[i], #[trigger] names[j])
        }
}

proof fn widest_is_widest(s: Seq<Seq<char>>)
    requires
        forall|i: int| 0 <= i < s.len() ==> is_simple(#[trigger] s[i]),
    ensures
        forall|i: int| 0 <= i < s.len() ==> (#[trigger] s[i]).len() <= widest(s),
        s.len() > 0 ==> exists|i: int| 0 <= i < s.len() && (#[trigger] s[i]).len() == widest(s),
        widest(s) <= usize::MAX - 2,
    decreases s.len(),
{
    if s.len() > 0 {
        let front = s.drop_last();
        assert forall|i: int| 0 <= i < front.len() implies is_simple(#[trigger] front[i]) by {
            assert(front[i] == s[i]);
        }
        widest_is_widest(front);
        let last = s.last();
        assert(s[s.len() - 1] == last);
        assert(is_simple(last));
        simple_width(last);
        plain_width(last);
        assert forall|i: int| 0 <= i < s.len() implies (#[trigger] s[i]).len() <= widest(s) by {
            if i < front.len() {
                assert(front[i] == s[i]);
            }
        }
        if widest(s) == last.len() {
            assert(s[s.len() - 1].len() == widest(s));
        } else {
            assert(front.len() > 0);
            let i = choose|i: int|
                0 <= i < front.len() && (#[trigger] front[i]).len() == widest(front);
            assert(s[i].len() == widest(s));
        }
    }
}

/// The `m`-th name of a row.
proof fn a_row_holds(s: Seq<Seq<char>>, i: int, step: int, w: int, m: int)
    requires
        0 <= i,
        step > 0,
        m >= 0,
        i + m * step < s.len(),
        forall|k: int| 0 <= k < s.len() ==> (#[trigger] s[k]).len() <= w,
    ensures
        ({
            let row = list_row(s, i, step, w);
            let name = s[i + m * step];
            let x = m * w;
            &&& 0 <= i + m * step
            &&& 0 <= x
            &&& x + w <= row.len()
            &&& row.subrange(x, x + name.len()) == name
            &&& forall|p: int| x + name.len() <= p < x + w ==> #[trigger] row[p] == ' '
        }),
    decreases m,
{
    let row = list_row(s, i, step, w);
    assert(i < s.len()) by (nonlinear_arith)
        requires
            i + m * step < s.len(),
            m >= 0,
            step > 0,
    ;
    assert(s[i].len() <= w);
    let first = padded(s[i], w);
    let rest = list_row(s, i + step, step, w);
    assert(row == first + rest);
    assert(first.len() == w);
    if m == 0 {
        assert(0 * step == 0 && 0 * w == 0) by (nonlinear_arith);
        assert(row.subrange(0, s[i].len() as int) =~= s[i]);
        assert forall|p: int| s[i].len() <= p < w implies #[trigger] row[p] == ' ' by {
            assert(row[p] == first[p]);
        }
    } else {
        assert((i + step) + (m - 1) * step == i + m * step) by (nonlinear_arith);
        assert((m - 1) * w + w == m * w) by (nonlinear_arith);
        assert(i + step >= 0);
        a_row_holds(s, i + step, step, w, m - 1);
        let name = s[i + m * step];
        let x = m * w;
        assert(row.subrange(x, x + name.len()) =~= rest.subrange(x - w, x - w + name.len()));
        assert forall|p: int| x + name.len() <= p < x + w implies #[trigger] row[p] == ' ' by {
            assert(row[p] == rest[p - w]);
        }
    }
}

/// A row holds no more names than fit.
proof fn a_row_fits(s: Seq<Seq<char>>, i: int, step: int, w: int, k: int)
    requires
        0 <= i,
        step > 0,
        k >= 0,
        w >= 0,
        i + k * step >= s.len(),
        forall|k: int| 0 <= k < s.len() ==> (#[trigger] s[k]).len() <= w,
    ensures
        list_row(s, i, step, w).len() <= k * w,
    decreases k,
{
    if i < s.len() {
        assert(k > 0) by (nonlinear_arith)
            requires
                i < s.len(),
                i + k * step >= s.len(),
                k >= 0,
        ;
        assert(s[i].len() <= w);
        assert(padded(s[i], w).len() == w);
        assert((i + step) + (k - 1) * step == i + k * step) by (nonlinear_arith);
        a_row_fits(s, i + step, step, w, k - 1);
        assert((k - 1) * w + w == k * w) by (nonlinear_arith);
    } else {
        assert(k * w >= 0) by (nonlinear_arith)
            requires
                k >= 0,
                w >= 0,
        ;
    }
}

proof fn rows_are_the_text(s: Seq<Seq<char>>, r: int, step: int, w: int, rows: Seq<Seq<char>>)
    requires
        0 <= r <= step,
        rows.len() == step,
        forall|k: int| 0 <= k < step ==> #[trigger] rows[k] == trimmed(list_row(s, k, step, w)),
    ensures
        list_rows(s, r, step, w) == one_below_the_other(rows.skip(r)),
    decreases step - r,
{
    if r < step {
        rows_are_the_text(s, r + 1, step, w, rows);
        let rest = rows.skip(r);
        assert(rest[0] == rows[r]);
        assert(rest.skip(1) =~= rows.skip(r + 1));
        reveal_strlit("\n");
        assert("\n"@ =~= seq!['\n']);
    }
}

proof fn simple_names_are_sorted(c: Seq<Choice>)
    requires
        forall|i: int| 0 <= i < c.len() ==> is_simple((#[trigger] c[i]).display),
    ensures
        forall|i: int|
            0 <= i < sorted(displays(c)).len() ==> is_simple(#[trigger] sorted(displays(c))[i]),
{
    let d = displays(c);
    let s = sorted(d);
    sorted_is_ordered(d);
    assert forall|i: int| 0 <= i < s.len() implies is_simple(#[trigger] s[i]) by {
        s.to_multiset_ensures();
        d.to_multiset_ensures();
        assert(s.contains(s[i]));
        assert(s.to_multiset().count(s[i]) > 0);
        assert(d.contains(s[i]));
        let j = choose|j: int| 0 <= j < d.len() && d[j] == s[i];
        assert(is_simple(c[j].display));
    }
}

/// A name keeps its place when the blanks at the end of its row go.
proof fn trimming_keeps_the_names(
    s: Seq<Seq<char>>,
    rows: Seq<Seq<char>>,
    w: int,
    r: int,
    m: int,
)
    requires
        0 <= r < rows.len(),
        0 <= m,
        r + m * rows.len() < s.len(),
        forall|i: int|
            0 <= i < s.len() ==> is_simple(#[trigger] s[i]) && s[i].len() + 2 <= w,
        rows[r] == trimmed(list_row(s, r, rows.len() as int, w)),
    ensures
        is_placed(rows, s, w, r, m),
{
    let d = rows.len() as int;
    let row = list_row(s, r, d, w);
    assert forall|k: int| 0 <= k < s.len() implies (#[trigger] s[k]).len() <= w by {
        assert(is_simple(s[k]));
    }
    a_row_holds(s, r, d, w, m);
    let name = s[r + m * d];
    assert(is_simple(name));
    let x = m * w;
    let t = run_start(row, row.len() as int, Class::Blank);
    run_start_bounds(row, row.len() as int, Class::Blank);
    let end = x + name.len() - 1;
    assert(row[end] == name.last()) by {
        assert(row.subrange(x, x + name.len())[name.len() - 1] == row[end]);
    }
    assert(!Class::Blank.has(row[end]));
    assert(t > end);
    assert(rows[r] == row.take(t));
    assert(rows[r].subrange(x, x + name.len()) =~= row.subrange(x, x + name.len()));
    assert forall|p: int|
        x + name.len() <= p < x + w && p < rows[r].len() implies #[trigger] rows[r][p] == ' ' by {
        assert(rows[r][p] == row[p]);
    }
}

proof fn enough_rows(n: int, across: int)
    requires
        n > 0,
        across >= 1,
    ensures
        ({
            let d = n / across + if n % across > 0 {
                1int
            } else {
                0int
            };
            &&& d > 0
            &&& across * d >= n
            &&& across * (d - 1) < n
        }),
{
    vstd::arithmetic::div_mod::lemma_fundamental_div_mod(n, across);
    vstd::arithmetic::div_mod::lemma_mod_bound(n, across);
    let q = n / across;
    let m = n % across;
    assert(across * (q + 1) == across * q + across) by (nonlinear_arith);
    assert(across * (q - 1) == across * q - across) by (nonlinear_arith);
    assert(q >= 0) by (nonlinear_arith)
        requires
            n == across * q + m,
            n > 0,
            across >= 1,
            m < across,
    ;
    if m == 0 {
        assert(q > 0) by (nonlinear_arith)
            requires
                n == across * q,
                n > 0,
                across >= 1,
        ;
    }
}

/// The candidate list holds every candidate's name once, in order, in columns
/// two wider than the widest of them: as many as fit on the terminal, in as few
/// rows as these need, filled down each column and then across.
pub proof fn candidates_are_laid_out(c: Seq<Choice>, cols: int)
    requires
        c.len() > 0,
        cols >= 0,
        forall|i: int| 0 <= i < c.len() ==> is_simple((#[trigger] c[i]).display),
    ensures
        is_the_list(listed_text(c, cols), c, cols),
{
    let s = sorted(displays(c));
    sorted_is_ordered(displays(c));
    simple_names_are_sorted(c);
    widest_is_widest(s);
    let w = widest(s) + 2;
    let n = s.len() as int;
    let across = if cols / w >= 1 {
        cols / w
    } else {
        1
    };
    enough_rows(n, across);
    let d = n / across + if n % across > 0 {
        1int
    } else {
        0int
    };
    let rows = Seq::new(d as nat, |r: int| trimmed(list_row(s, r, d, w)));
    assert forall|r: int, m: int|
        0 <= r < d && 0 <= m && r + m * d < n implies #[trigger] is_placed(rows, s, w, r, m) by {
        trimming_keeps_the_names(s, rows, w, r, m);
    }
    assert forall|r: int| 0 <= r < d implies (#[trigger] rows[r]).len() <= across * w by {
        let row = list_row(s, r, d, w);
        assert(r + across * d >= n);
        a_row_fits(s, r, d, w, across);
        run_start_bounds(row, row.len() as int, Class::Blank);
    }
    let i = choose|i: int| 0 <= i < s.len() && (#[trigger] s[i]).len() == widest(s);
    assert(s[i].len() + 2 == w);
    assert(is_laid_out(rows, s, w, cols));
    rows_are_the_text(s, 0, d, w, rows);
    assert(rows.skip(0) =~= rows);
    assert(displays(c) =~= Seq::new(c.len(), |i: int| c[i].display));
    assert forall|i: int, j: int| 0 <= i < j < s.len() implies comes_before(
        #[trigger] s[i],
        #[trigger] s[j],
    ) by {
        assert(ordered(s));
        order_is_order(s[i], s[j]);
    }
}

} // verus!
