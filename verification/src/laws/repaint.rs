//! What a repaint leaves on the terminal.
use vstd::prelude::*;

use crate::laws::screen::{
    behind, columns_of, csi_ends_facts, drawn, is_plain, is_whole, lines_end_at_the_start, looks,
    plain_is_visible, run, run_add, run_plain, run_short, run_tame, run_with_number, sequence_ends,
    sequence_is_invisible, tame, tame_is_whole, typed, typed_add, typing_fills, typing_keeps_looks,
    visible, visible_is_plain, wide, wide_add, wide_is_not_negative, Screen,
};
use crate::laws::stays;
use crate::line::Line;
use crate::paint::{
    dimmed, forced_wrap, marked, right_side, rows_up, sgr_len, sgr_params, Layout,
};
use crate::text::decimal;
use crate::width::{columns, csi_tail, escape_len, osc_tail, shown, visualized_at, width};

verus! {

/// How one character of the buffer looks at some column: a tab runs to the next
/// multiple of eight, and control characters are spelled out.
pub open spec fn face(c: char, at: int) -> Seq<char> {
    if c == '\n' {
        seq!['\u{23ce}']
    } else if c == '\t' {
        Seq::new((8 - at % 8) as nat, |i: int| ' ')
    } else if c == '\x7f' {
        seq!['^', '?']
    } else if (c as u32) < 0x20 {
        seq!['^', ((c as u32 + 0x40) as u32) as char]
    } else {
        seq![c]
    }
}

/// How the buffer looks from some column on.
pub open spec fn seen(s: Seq<char>, at: int) -> Seq<char>
    decreases s.len(),
{
    if s.len() == 0 {
        Seq::empty()
    } else {
        let first = face(s[0], at);
        first + seen(s.skip(1), at + wide(first))
    }
}

/// How many characters of a colour sequence's parameters a text begins with.
pub open spec fn parameters(s: Seq<char>) -> int
    decreases s.len(),
{
    if s.len() > 0 && ('0' <= s[0] <= '9' || s[0] == ';' || s[0] == ':') {
        1 + parameters(s.skip(1))
    } else {
        0
    }
}

/// How long the colour sequence is that a text begins with; 0 without one.
pub open spec fn colour(s: Seq<char>) -> int {
    if s.len() >= 3 && s[0] == '\x1b' && s[1] == '[' && 2 + parameters(s.skip(2)) < s.len() && s[2
        + parameters(s.skip(2))] == 'm' {
        3 + parameters(s.skip(2))
    } else {
        0
    }
}

/// `h` is the text `b` with colour sequences put in.
pub open spec fn marks_up(h: Seq<char>, b: Seq<char>) -> bool
    decreases h.len(),
{
    if h.len() == 0 {
        b.len() == 0
    } else if 0 < colour(h) <= h.len() {
        marks_up(h.skip(colour(h)), b)
    } else {
        b.len() > 0 && h[0] == b[0] && marks_up(h.skip(1), b.skip(1))
    }
}

/// What the edit row begins with.
pub open spec fn beginning(line: Line) -> Seq<char> {
    if !line.cfg.show_mode {
        visible(line.prompt)
    } else if !line.vi {
        seq!['@'] + visible(line.prompt)
    } else if line.vi_normal {
        seq!['(', 'c', 'm', 'd', ')'] + visible(line.prompt)
    } else {
        seq!['(', 'i', 'n', 's', ')'] + visible(line.prompt)
    }
}

/// The hint as it looks, behind a cursor at the end of the line; nothing
/// elsewhere.
pub open spec fn hint_seen(line: Line, hint: Seq<char>) -> Seq<char> {
    let at = wide(beginning(line));
    if line.cursor == line.buffer.len() {
        seen(hint, at + wide(seen(line.buffer, at)))
    } else {
        Seq::empty()
    }
}

/// All that stands on the screen from the region's first cell on.
pub open spec fn all_seen(line: Line, hint: Seq<char>) -> Seq<char> {
    beginning(line) + seen(line.buffer, wide(beginning(line))) + hint_seen(line, hint)
}

/// The columns before the cursor.
pub open spec fn cursor_columns(line: Line) -> int {
    wide(beginning(line)) + wide(seen(line.buffer.take(line.cursor), wide(beginning(line))))
}

/// The terminal's width, at least two.
pub open spec fn across(line: Line) -> int {
    if line.cols >= 2 {
        line.cols
    } else {
        2
    }
}

/// What the host gave fits the terminal: prompts of tame text, and the buffer
/// with colours as its highlighting.
pub open spec fn presentable(line: Line, hint: Seq<char>, highlighted: Seq<char>) -> bool {
    &&& line.inside()
    &&& line.painted_cursor_row >= 0
    &&& tame(line.prompt, false)
    &&& tame(line.rprompt, false)
    &&& tame(line.head, true)
    &&& line.head.len() > 0 ==> line.head.last() == '\n'
    &&& line.buffer.contains('\x1b') || marks_up(highlighted, line.buffer)
    &&& wide(all_seen(line, hint)) <= usize::MAX
    &&& wide(visible(line.rprompt)) <= usize::MAX
}

/// The screen that a paint of the region starts from: at the first column of
/// the region's first row, below the prompt's earlier lines.
pub open spec fn region_start(line: Line, st: Screen) -> Screen {
    let first = Screen { row: st.row - line.painted_cursor_row, col: 0, ..st };
    if line.fresh {
        run(first, line.head)
    } else {
        first
    }
}

pub(crate) proof fn face_is_shown(c: char, at: int)
    requires
        at >= 0,
    ensures
        face(c, at) == shown(c, 8 - at % 8),
        is_plain(face(c, at)),
{
    assert(face(c, at) =~= shown(c, 8 - at % 8));
}

pub(crate) proof fn plain_width(x: Seq<char>)
    requires
        is_plain(x),
    ensures
        width(x) == wide(x),
    decreases x.len(),
{
    if x.len() > 0 {
        assert(x[0] as u32 >= 0x20);
        assert forall|k: int| 0 <= k < x.skip(1).len() implies (#[trigger] x.skip(1)[k]) as u32
            >= 0x20 && x.skip(1)[k] != '\x7f' by {
            assert(x.skip(1)[k] == x[k + 1]);
        }
        plain_width(x.skip(1));
    }
}

proof fn seen_is_visualized(s: Seq<char>, at: int)
    requires
        at >= 0,
    ensures
        seen(s, at) == visualized_at(s, at % 8),
        is_plain(seen(s, at)),
    decreases s.len(),
{
    if s.len() > 0 {
        let first = face(s[0], at);
        face_is_shown(s[0], at);
        plain_width(first);
        wide_is_not_negative(first);
        assert((at % 8 + wide(first)) % 8 == (at + wide(first)) % 8);
        seen_is_visualized(s.skip(1), at + wide(first));
        let rest = seen(s.skip(1), at + wide(first));
        assert forall|k: int| 0 <= k < seen(s, at).len() implies (#[trigger] seen(s, at)[k]) as u32
            >= 0x20 && seen(s, at)[k] != '\x7f' by {
            if k < first.len() {
                assert(seen(s, at)[k] == first[k]);
            } else {
                assert(seen(s, at)[k] == rest[k - first.len()]);
            }
        }
    }
}

/// What is seen of a text is what is seen of its first part, and then of the
/// rest.
proof fn seen_add(a: Seq<char>, b: Seq<char>, at: int)
    ensures
        seen(a + b, at) == seen(a, at) + seen(b, at + wide(seen(a, at))),
    decreases a.len(),
{
    if a.len() == 0 {
        assert(a + b =~= b);
        assert(seen(a, at) + seen(b, at) =~= seen(b, at));
    } else {
        let first = face(a[0], at);
        let next = at + wide(first);
        assert((a + b)[0] == a[0]);
        assert((a + b).skip(1) =~= a.skip(1) + b);
        seen_add(a.skip(1), b, next);
        wide_add(first, seen(a.skip(1), next));
        assert(seen(a + b, at) =~= seen(a, at) + seen(b, at + wide(seen(a, at))));
    }
}

proof fn csi_width(s: Seq<char>, i: int)
    requires
        2 <= i <= s.len(),
        sequence_from(s, i) is Some,
        s[(sequence_from(s, i)->0) - 1] == 'm',
    ensures
        csi_tail(s.skip(i)) == (sequence_from(s, i)->0) - i,
    decreases s.len() - i,
{
    csi_ends_facts(s, i);
    assert(s.skip(i)[0] == s[i]);
    if i < (sequence_from(s, i)->0) - 1 {
        assert(!crate::laws::screen::is_final(s[i]));
        csi_width(s, i + 1);
        assert(s.skip(i).skip(1) =~= s.skip(i + 1));
    }
}

/// Where a control sequence ends.
spec fn sequence_from(s: Seq<char>, i: int) -> Option<int> {
    crate::laws::screen::csi_ends(s, i)
}

proof fn osc_width(s: Seq<char>, i: int)
    requires
        2 <= i <= s.len(),
        crate::laws::screen::osc_ends(s, i) is Some,
    ensures
        osc_tail(s.skip(i)) == (crate::laws::screen::osc_ends(s, i)->0) - i,
    decreases s.len() - i,
{
    if i < s.len() {
        let t = s.skip(i);
        assert(t[0] == s[i]);
        if i + 1 < s.len() {
            assert(t[1] == s[i + 1]);
        }
        if s[i] != '\x07' && !(s[i] == '\x1b' && i + 1 < s.len() && s[i + 1] == '\\') {
            osc_width(s, i + 1);
            assert(t.skip(1) =~= s.skip(i + 1));
        }
    }
}

/// Tame text is as wide as what is visible of it.
proof fn tame_width(s: Seq<char>)
    requires
        tame(s, false),
    ensures
        width(s) == wide(visible(s)),
    decreases s.len(),
{
    if s.len() > 0 {
        if s[0] == '\x1b' {
            let n = sequence_ends(s)->0;
            if s[1] == '[' {
                csi_width(s, 2);
            } else {
                osc_width(s, 2);
            }
            assert(escape_len(s) == n);
            tame_width(s.skip(n));
        } else {
            tame_width(s.skip(1));
            let x = visible(s);
            assert(x[0] == s[0]);
            assert(x.skip(1) =~= visible(s.skip(1)));
        }
    }
}

proof fn parameters_are(s: Seq<char>)
    ensures
        parameters(s) == sgr_params(s),
        0 <= parameters(s) <= s.len(),
        forall|k: int|
            0 <= k < parameters(s) ==> '0' <= #[trigger] s[k] <= '9' || s[k] == ';' || s[k] == ':',
    decreases s.len(),
{
    if s.len() > 0 && ('0' <= s[0] <= '9' || s[0] == ';' || s[0] == ':') {
        parameters_are(s.skip(1));
        assert forall|k: int| 0 <= k < parameters(s) implies '0' <= #[trigger] s[k] <= '9' || s[k]
            == ';' || s[k] == ':' by {
            if k > 0 {
                assert(s[k] == s.skip(1)[k - 1]);
            }
        }
    }
}

/// Highlighting is painted as the buffer looks.
proof fn marking_shows(h: Seq<char>, b: Seq<char>, at: int)
    requires
        at >= 0,
        marks_up(h, b),
    ensures
        tame(marked(h, at % 8), false),
        visible(marked(h, at % 8)) == seen(b, at),
    decreases h.len(),
{
    let col = at % 8;
    if h.len() > 0 {
        parameters_are(h.skip(2));
        let n = colour(h);
        assert(n == sgr_len(h));
        if 0 < n <= h.len() {
            let head = h.take(n);
            marking_shows(h.skip(n), b, at);
            assert forall|k: int| 2 <= k < n - 1 implies !crate::laws::screen::is_final(
                #[trigger] head[k],
            ) by {
                assert(head[k] == h.skip(2)[k - 2]);
            }
            crate::laws::screen::csi_ends_at(head, 2, n);
            sequence_is_invisible(head, marked(h.skip(n), col));
        } else {
            let first = face(h[0], at);
            face_is_shown(h[0], at);
            plain_width(first);
            wide_is_not_negative(first);
            assert((at % 8 + wide(first)) % 8 == (at + wide(first)) % 8);
            marking_shows(h.skip(1), b.skip(1), at + wide(first));
            plain_is_visible(first, marked(h.skip(1), (at + wide(first)) % 8));
        }
    } else {
        assert(visible(marked(h, col)) =~= Seq::<char>::empty());
    }
}

pub(crate) proof fn plain_shows(x: Seq<char>)
    requires
        is_plain(x),
    ensures
        tame(x, false),
        visible(x) == x,
{
    let none = Seq::<char>::empty();
    assert(tame(none, false));
    assert(visible(none) =~= none);
    plain_is_visible(x, none);
    assert(x + none =~= x);
}

/// The beginning of the edit row is tame, and looks as it should.
proof fn the_beginning(line: Line)
    requires
        tame(line.prompt, false),
    ensures
        tame(line.lead(), false),
        visible(line.lead()) == beginning(line),
        is_plain(beginning(line)),
        width(line.lead()) == wide(beginning(line)),
{
    reveal_strlit("@");
    reveal_strlit("(cmd)");
    reveal_strlit("(ins)");
    assert("@"@ =~= seq!['@']);
    assert("(cmd)"@ =~= seq!['(', 'c', 'm', 'd', ')']);
    assert("(ins)"@ =~= seq!['(', 'i', 'n', 's', ')']);
    plain_is_visible(seq!['@'], line.prompt);
    plain_is_visible(seq!['(', 'c', 'm', 'd', ')'], line.prompt);
    plain_is_visible(seq!['(', 'i', 'n', 's', ')'], line.prompt);
    visible_is_plain(line.lead());
    tame_width(line.lead());
}

/// What the layout measures is what is seen.
proof fn the_layout_measures(line: Line, hint: Seq<char>, highlighted: Seq<char>)
    requires
        presentable(line, hint, highlighted),
    ensures
        ({
            let at = line.layout(hint, highlighted);
            let all = all_seen(line, hint);
            &&& tame(at.body, false)
            &&& visible(at.body) == seen(line.buffer, wide(beginning(line)))
            &&& is_plain(at.hint)
            &&& at.hint == hint_seen(line, hint)
            &&& at.total == wide(all)
            &&& at.cursor == cursor_columns(line)
            &&& 0 <= at.cursor <= at.total
            &&& is_plain(beginning(line))
            &&& is_plain(seen(line.buffer, wide(beginning(line))))
        }),
{
    the_beginning(line);
    let w = wide(beginning(line));
    wide_is_not_negative(beginning(line));
    let b = line.buffer;
    let vis = seen(b, w);
    seen_is_visualized(b, w);
    plain_width(vis);
    wide_is_not_negative(vis);
    let a = b.take(line.cursor);
    seen_is_visualized(a, w);
    plain_width(seen(a, w));
    wide_is_not_negative(seen(a, w));
    let rest = b.skip(line.cursor);
    assert(a + rest =~= b);
    seen_add(a, rest, w);
    wide_add(seen(a, w), seen(rest, w + wide(seen(a, w))));
    wide_is_not_negative(seen(rest, w + wide(seen(a, w))));
    assert((w % 8 + wide(vis)) % 8 == (w + wide(vis)) % 8);
    seen_is_visualized(hint, w + wide(vis));
    let h = hint_seen(line, hint);
    assert(is_plain(h));
    plain_width(h);
    wide_is_not_negative(h);
    wide_add(beginning(line), vis);
    wide_add(beginning(line) + vis, h);
    assert(crate::width::esc() == '\x1b');
    if b.contains('\x1b') {
        plain_shows(vis);
    } else {
        marking_shows(highlighted, b, w);
    }
}

/// Where the cursor is once everything is printed and a full row is wrapped.
pub(crate) proof fn wrapping_settles(st: Screen, top: int, cols: int, total: int)
    requires
        cols >= 2,
        st.cols == cols,
        0 <= total,
        total == 0 ==> st.row == top && st.col == 0,
        total > 0 ==> behind(st, cols, top * cols + total),
    ensures
        ({
            let u = run(st, forced_wrap(total, cols));
            &&& u == (Screen { row: top + total / cols, col: total % cols, ..st })
            &&& is_whole(forced_wrap(total, cols))
        }),
{
    reveal_strlit("\r\n");
    assert("\r\n"@ =~= seq!['\r', '\n']);
    let q = total / cols;
    let r = total % cols;
    vstd::arithmetic::div_mod::lemma_fundamental_div_mod(total, cols);
    vstd::arithmetic::div_mod::lemma_mod_bound(total, cols);
    if total == 0 {
        vstd::arithmetic::div_mod::lemma_small_mod(0, cols as nat);
        vstd::arithmetic::div_mod::lemma_basic_div(0, cols);
    } else if r == 0 {
        let s = seq!['\r', '\n'];
        assert(s.skip(1) =~= seq!['\n']);
        assert(s.skip(1).skip(1) =~= Seq::<char>::empty());
        reveal_with_fuel(run, 3);
        reveal_with_fuel(is_whole, 3);
        rows_agree(st.row, st.col, top + q - 1, cols, cols);
        assert(st.row == top + q - 1) by {
            assert((top + q - 1) * cols + cols == top * cols + total) by (nonlinear_arith)
                requires
                    total == cols * q,
            ;
        }
    } else {
        assert(st.row == top + q && st.col == r) by {
            assert((top + q) * cols + r == top * cols + total) by (nonlinear_arith)
                requires
                    total == cols * q + r,
            ;
            rows_agree(st.row, st.col, top + q, r, cols);
        }
    }
}

proof fn rows_agree(row: int, col: int, other: int, there: int, cols: int)
    requires
        cols >= 2,
        0 < col <= cols,
        0 < there <= cols,
    ensures
        row * cols + col == other * cols + there ==> row == other && col == there,
{
    if row * cols + col == other * cols + there {
        assert(row == other) by (nonlinear_arith)
            requires
                row * cols + col == other * cols + there,
                cols >= 2,
                0 < col <= cols,
                0 < there <= cols,
        ;
    }
}

/// The hint is printed dimmed.
proof fn dimming(st: Screen, hint: Seq<char>)
    requires
        is_plain(hint),
    ensures
        ({
            let u = run(st, dimmed(hint));
            &&& is_whole(dimmed(hint))
            &&& hint.len() == 0 ==> u == st
            &&& hint.len() > 0 ==> u == (Screen {
                dim: false,
                ..typed(Screen { dim: true, ..st }, hint)
            })
        }),
{
    reveal_strlit("\x1b[2m");
    reveal_strlit("\x1b[0m");
    let on = seq!['\x1b', '[', '2', 'm'];
    let off = seq!['\x1b', '[', '0', 'm'];
    assert("\x1b[2m"@ =~= on);
    assert("\x1b[0m"@ =~= off);
    if hint.len() > 0 {
        run_short(st, on);
        assert(on.subrange(2, 3) =~= seq!['2']);
        let lit = Screen { dim: true, ..st };
        let there = typed(lit, hint);
        run_plain(lit, hint, off);
        run_short(there, off);
        assert(off.subrange(2, 3) =~= seq!['0']);
        assert(seq!['0'][0] != seq!['2'][0]);
        plain_shows(hint);
        tame_is_whole(hint, false);
        run_add(st, on, hint);
        run_add(st, on + hint, off);
        run_add(lit, hint, Seq::empty());
        assert(hint + Seq::<char>::empty() =~= hint);
        run_plain(lit, hint, Seq::empty());
    }
}

/// The rest of the screen is erased.
pub(crate) proof fn erasing(st: Screen)
    ensures
        is_whole("\x1b[J"@),
        run(st, "\x1b[J"@) == st.obeyed(seq!['\x1b', '[', 'J']),
{
    reveal_strlit("\x1b[J");
    let s = seq!['\x1b', '[', 'J'];
    assert("\x1b[J"@ =~= s);
    run_short(st, s);
}

/// Rows are gone up.
proof fn going_up(st: Screen, n: int)
    ensures
        is_whole(rows_up(n)),
        n >= 0 ==> run(st, rows_up(n)) == (Screen { row: st.row - n, ..st }),
{
    reveal_strlit("\x1b[");
    reveal_strlit("A");
    assert("\x1b["@ =~= seq!['\x1b', '[']);
    assert("A"@ =~= seq!['A']);
    if n > 0 {
        run_with_number(st, n as nat, 'A');
    }
}

/// The cursor goes to a column of its row.
proof fn going_to_column(st: Screen, n: int)
    requires
        n >= 0,
    ensures
        ({
            let s = "\x1b["@ + decimal((n + 1) as nat) + "G"@;
            is_whole(s) && run(st, s) == (Screen { col: n, ..st })
        }),
{
    reveal_strlit("\x1b[");
    reveal_strlit("G");
    assert("\x1b["@ =~= seq!['\x1b', '[']);
    assert("G"@ =~= seq!['G']);
    run_with_number(st, (n + 1) as nat, 'G');
}

/// The paint starts at the region's first cell.
pub(crate) proof fn the_paint_starts(line: Line, st: Screen)
    requires
        line.painted_cursor_row >= 0,
        tame(line.head, true),
        line.head.len() > 0 ==> line.head.last() == '\n',
    ensures
        is_whole(line.paint_start()),
        run(st, line.paint_start()) == region_start(line, st),
        region_start(line, st).col == 0,
        region_start(line, st).cols == st.cols,
{
    reveal_strlit("\r");
    let cr = seq!['\r'];
    assert("\r"@ =~= cr);
    let zero = Screen { col: 0, ..st };
    assert(run(st, cr) == zero && is_whole(cr)) by {
        assert(cr.skip(1) =~= Seq::<char>::empty());
        reveal_with_fuel(run, 2);
        reveal_with_fuel(is_whole, 2);
    }
    let up = rows_up(line.painted_cursor_row);
    going_up(zero, line.painted_cursor_row);
    run_add(st, cr, up);
    let first = Screen { row: st.row - line.painted_cursor_row, col: 0, ..st };
    assert(run(st, cr + up) == first);
    let head = if line.fresh {
        line.head
    } else {
        Seq::empty()
    };
    tame_is_whole(line.head, true);
    run_add(st, cr + up, head);
    assert(is_whole(Seq::<char>::empty()));
    lines_end_at_the_start(first, line.head);
}

/// The text of the line is on the screen, from the region's first cell on.
#[verifier::rlimit(40)]
proof fn the_text_is_printed(line: Line, hint: Seq<char>, highlighted: Seq<char>, st: Screen)
    requires
        presentable(line, hint, highlighted),
        st.cols >= 2,
        st.col == 0,
    ensures
        ({
            let at = line.layout(hint, highlighted);
            let s = line.lead() + at.body + dimmed(at.hint);
            let u = run(st, s);
            let all = all_seen(line, hint);
            let first = st.row * st.cols;
            &&& is_whole(s)
            &&& u.cols == st.cols
            &&& wide(all) == 0 ==> u.row == st.row && u.col == 0
            &&& wide(all) > 0 ==> behind(u, st.cols, first + wide(all))
            &&& forall|q: int|
                0 <= q < wide(all) ==> (#[trigger] (u.cells)(first + q)).0 == drawn(all, q)
            &&& forall|p: int|
                p < first || p >= first + wide(all) ==> (#[trigger] (u.cells)(p)).0 == ((st.cells)(
                    p,
                )).0
            &&& forall|q: int|
                wide(all) - wide(at.hint) <= q < wide(all) ==> (#[trigger] (u.cells)(first + q)).1
            &&& at.hint.len() > 0 ==> !u.dim
        }),
{
    let at = line.layout(hint, highlighted);
    the_layout_measures(line, hint, highlighted);
    the_beginning(line);
    let x = beginning(line);
    let y = seen(line.buffer, wide(x));
    let h = at.hint;
    let none = Seq::<char>::empty();
    let u1 = run_tame(st, line.lead(), none);
    assert(line.lead() + none =~= line.lead());
    assert(u1 == run(st, line.lead()));
    let u2 = run_tame(u1, at.body, none);
    assert(at.body + none =~= at.body);
    assert(u2 == run(u1, at.body));
    tame_is_whole(line.lead(), false);
    tame_is_whole(at.body, false);
    run_add(st, line.lead(), at.body);
    dimming(u2, h);
    run_add(st, line.lead() + at.body, dimmed(h));
    let u = run(st, line.lead() + at.body + dimmed(h));
    assert(u == run(u2, dimmed(h)));
    // All of it looks as if it were typed.
    typing_keeps_looks(u1, typed(st, x), y);
    typed_add(st, x, y);
    assert(looks(u2, typed(st, x + y)));
    let lit = Screen { dim: true, ..u2 };
    assert(looks(lit, typed(st, x + y)));
    typing_keeps_looks(lit, typed(st, x + y), h);
    typed_add(st, x + y, h);
    let all = all_seen(line, hint);
    assert(all == x + y + h);
    if h.len() == 0 {
        assert(all =~= x + y);
    }
    assert(looks(u, typed(st, all)));
    assert(is_plain(all)) by {
        assert forall|k: int| 0 <= k < all.len() implies (#[trigger] all[k]) as u32 >= 0x20
            && all[k] != '\x7f' by {
            if k < x.len() {
                assert(all[k] == x[k]);
            } else if k < x.len() + y.len() {
                assert(all[k] == y[k - x.len()]);
            } else {
                assert(all[k] == h[k - x.len() - y.len()]);
            }
        }
    }
    typing_fills(st, all);
    wide_is_not_negative(all);
    let t = typed(st, all);
    let first = st.row * st.cols;
    assert forall|q: int| 0 <= q < wide(all) implies (#[trigger] (u.cells)(first + q)).0 == drawn(
        all,
        q,
    ) by {
        assert(((t.cells)(first + q)).0 == drawn(all, q));
    }
    assert forall|p: int| p < first || p >= first + wide(all) implies (#[trigger] (u.cells)(p)).0
        == ((st.cells)(p)).0 by {
        assert((t.cells)(p) == (st.cells)(p));
    }
    // The hint is dimmed.
    assert(is_plain(x + y)) by {
        assert forall|k: int| 0 <= k < (x + y).len() implies (#[trigger] (x + y)[k]) as u32 >= 0x20
            && (x + y)[k] != '\x7f' by {
            assert((x + y)[k] == all[k]);
        }
    }
    typing_fills(st, x + y);
    wide_is_not_negative(x + y);
    wide_add(x + y, h);
    wide_is_not_negative(h);
    let from = first + wide(x + y);
    assert(u2.row * u2.cols + u2.col == from);
    assert(0 <= u2.col <= u2.cols);
    typing_fills(lit, h);
    assert forall|q: int| wide(all) - wide(h) <= q < wide(all) implies (#[trigger] (u.cells)(
        first + q,
    )).1 by {
        assert(h.len() > 0);
        assert((u.cells)(first + q) == (typed(lit, h).cells)(first + q));
        assert(from <= first + q < from + wide(h));
    }
}

/// The right prompt is shown while everything fits on one row with a gap.
pub open spec fn right_prompt_shown(line: Line, hint: Seq<char>) -> bool {
    let w = wide(visible(line.rprompt));
    w > 0 && wide(all_seen(line, hint)) + w + 1 < across(line)
}

/// The right prompt is printed at the right edge.
#[verifier::rlimit(40)]
proof fn the_right_prompt_is_printed(line: Line, st: Screen, total: int, top: int)
    requires
        tame(line.rprompt, false),
        wide(visible(line.rprompt)) <= usize::MAX,
        st.cols >= 2,
        0 <= total,
        st.row == top + total / st.cols,
        st.col == total % st.cols,
    ensures
        ({
            let s = right_side(line.rprompt, total, st.cols);
            let u = run(st, s);
            let x = visible(line.rprompt);
            let edge = top * st.cols + st.cols - wide(x);
            &&& is_whole(s)
            &&& u.cols == st.cols
            &&& u.row == st.row
            &&& if wide(x) > 0 && total + wide(x) + 1 < st.cols {
                &&& forall|p: int|
                    edge <= p < edge + wide(x) ==> (#[trigger] (u.cells)(p)).0 == drawn(x, p - edge)
                &&& forall|p: int|
                    p < edge || p >= edge + wide(x) ==> (#[trigger] (u.cells)(p)) == (st.cells)(p)
            } else {
                u.cells == st.cells
            }
        }),
{
    let r = line.rprompt;
    let x = visible(r);
    let w = wide(x);
    tame_width(r);
    wide_is_not_negative(x);
    let cols = st.cols;
    let s = right_side(r, total, cols);
    if w > 0 && total + w + 1 < cols {
        let go = "\x1b["@ + decimal((cols - w + 1) as nat) + "G"@;
        going_to_column(st, cols - w);
        let there = Screen { col: cols - w, ..st };
        let none = Seq::<char>::empty();
        let u = run_tame(there, r, none);
        assert(r + none =~= r);
        tame_is_whole(r, false);
        run_add(st, go, r);
        assert(s =~= go + r);
        visible_is_plain(r);
        typing_fills(there, x);
        vstd::arithmetic::div_mod::lemma_small_mod(total as nat, cols as nat);
        vstd::arithmetic::div_mod::lemma_basic_div(total, cols);
        assert(st.row == top);
        let edge = top * cols + cols - w;
        let t = typed(there, x);
        assert(t.row == top && t.col == cols) by {
            rows_agree(t.row, t.col, top, cols, cols);
        }
        assert forall|p: int| edge <= p < edge + w implies (#[trigger] (u.cells)(p)).0 == drawn(
            x,
            p - edge,
        ) by {
            assert(((t.cells)(p)).0 == drawn(x, p - edge));
        }
        assert forall|p: int| p < edge || p >= edge + w implies (#[trigger] (u.cells)(p))
            == (st.cells)(p) by {
            tame_leaves_alone(there, r, p);
        }
    } else {
        assert(is_whole(Seq::<char>::empty()));
    }
}

/// Tame text leaves every cell alone that it does not write on.
proof fn tame_leaves_alone(st: Screen, s: Seq<char>, p: int)
    requires
        tame(s, false),
        st.cols > 0,
        0 <= st.col <= st.cols,
        ({
            let at = st.row * st.cols + st.col;
            p < at || p >= at + wide(visible(s))
        }),
    ensures
        (run(st, s).cells)(p) == (st.cells)(p),
    decreases s.len(),
{
    if s.len() > 0 {
        if s[0] == '\x1b' {
            let n = sequence_ends(s)->0;
            tame_leaves_alone(st.obeyed(s.take(n)), s.skip(n), p);
        } else {
            let c = s[0];
            let next = st.written(c);
            let w = columns_of(c);
            let x = visible(s);
            let at = st.row * st.cols + st.col;
            assert(x[0] == c);
            assert(x.skip(1) =~= visible(s.skip(1)));
            wide_is_not_negative(visible(s.skip(1)));
            if w > 0 {
                vstd::arithmetic::div_mod::lemma_fundamental_div_mod(at + w - 1, st.cols);
                vstd::arithmetic::div_mod::lemma_mod_bound(at + w - 1, st.cols);
                let q = (at + w - 1) / st.cols;
                assert(q * st.cols == st.cols * q) by (nonlinear_arith);
                assert(next.row * st.cols + next.col == at + w);
            }
            tame_leaves_alone(next, s.skip(1), p);
        }
    }
}

/// The end of a paint: back up to the cursor's row, and to its column.
proof fn the_paint_ends(st: Screen, up: int, col: int)
    requires
        up >= 0,
        col >= 0,
    ensures
        ({
            let s = rows_up(up) + "\r\x1b["@ + decimal((col + 1) as nat) + "G"@;
            run(st, s) == (Screen { row: st.row - up, col, ..st })
        }),
{
    reveal_strlit("\r");
    reveal_strlit("\r\x1b[");
    reveal_strlit("\x1b[");
    let cr = seq!['\r'];
    let go = "\x1b["@ + decimal((col + 1) as nat) + "G"@;
    going_up(st, up);
    let above = Screen { row: st.row - up, ..st };
    let zero = Screen { col: 0, ..above };
    assert(run(above, cr) == zero && is_whole(cr)) by {
        assert(cr.skip(1) =~= Seq::<char>::empty());
        reveal_with_fuel(run, 2);
        reveal_with_fuel(is_whole, 2);
    }
    going_to_column(zero, col);
    run_add(st, rows_up(up), cr);
    run_add(st, rows_up(up) + cr, go);
    assert(rows_up(up) + "\r\x1b["@ + decimal((col + 1) as nat) + "G"@ =~= rows_up(up) + cr + go);
}

/// Six pieces of output are run one after the other.
proof fn six_pieces(
    st: Screen,
    s0: Seq<char>,
    s1: Seq<char>,
    s2: Seq<char>,
    s3: Seq<char>,
    s4: Seq<char>,
    s5: Seq<char>,
)
    requires
        is_whole(s0),
        is_whole(s1),
        is_whole(s2),
        is_whole(s3),
        is_whole(s4),
    ensures
        run(st, s0 + s1 + s2 + s3 + s4 + s5) == run(
            run(run(run(run(run(st, s0), s1), s2), s3), s4),
            s5,
        ),
{
    run_add(st, s0, s1);
    run_add(st, s0 + s1, s2);
    run_add(st, s0 + s1 + s2, s3);
    run_add(st, s0 + s1 + s2 + s3, s4);
    run_add(st, s0 + s1 + s2 + s3 + s4, s5);
}

/// The pieces of a paint's text behind its start.
spec fn tail_of(at: Layout, cols: int) -> Seq<char> {
    rows_up(at.total / cols - at.cursor / cols) + "\r\x1b["@ + decimal(
        (at.cursor % cols + 1) as nat,
    ) + "G"@
}

/// Texts in a row, put together from the right instead of from the left.
proof fn three_in_a_row(a: Seq<char>, b: Seq<char>, c: Seq<char>)
    ensures
        a + b + c == a + (b + c),
{
    assert(a + b + c =~= a + (b + c));
}

proof fn five_in_a_row(
    a: Seq<char>,
    b: Seq<char>,
    c: Seq<char>,
    d: Seq<char>,
    e: Seq<char>,
)
    ensures
        a + b + c + d == a + (b + c + d),
        a + b + c + d + e == a + (b + c + d + e),
{
    three_in_a_row(a, b, c);
    three_in_a_row(a, b + c, d);
    three_in_a_row(a, b + c + d, e);
}

/// The text of a paint, piece by piece.
proof fn the_pieces(line: Line, hint: Seq<char>, highlighted: Seq<char>)
    ensures
        ({
            let at = line.layout(hint, highlighted);
            let cols = line.columns();
            let l = line.painted_line(hint, highlighted);
            let text = l.out.skip(line.out.len() as int);
            &&& l.out == line.out + text
            &&& text == line.paint_start() + (line.lead() + at.body + dimmed(at.hint))
                + forced_wrap(at.total, cols) + "\x1b[J"@ + right_side(
                line.rprompt,
                at.total,
                cols,
            ) + tail_of(at, cols)
            &&& l.painted_rows == at.total / cols + 1
            &&& l.painted_cursor_row == at.cursor / cols
            &&& stays(line, l)
            &&& !l.fresh
        }),
{
    let at = line.layout(hint, highlighted);
    let cols = line.columns();
    let l = line.painted_line(hint, highlighted);
    let text = l.out.skip(line.out.len() as int);
    assert(text =~= line.composed(at, cols));
    let start = line.paint_start();
    let shown = line.lead() + at.body + dimmed(at.hint);
    five_in_a_row(start, line.lead(), at.body, dimmed(at.hint), Seq::empty());
    let before = start + shown + forced_wrap(at.total, cols) + "\x1b[J"@ + right_side(
        line.rprompt,
        at.total,
        cols,
    );
    five_in_a_row(
        before,
        rows_up(at.total / cols - at.cursor / cols),
        "\r\x1b["@,
        decimal((at.cursor % cols + 1) as nat),
        "G"@,
    );
}

/// What stands on the screen before the cursor is put in its place.
#[verifier::rlimit(40)]
proof fn the_cells_are_filled(
    line: Line,
    hint: Seq<char>,
    highlighted: Seq<char>,
    start: Screen,
) -> (e: Screen)
    requires
        presentable(line, hint, highlighted),
        start.cols == across(line),
        start.col == 0,
    ensures
        ({
            let at = line.layout(hint, highlighted);
            let cols = start.cols;
            let all = all_seen(line, hint);
            let first = start.row * cols;
            let right = visible(line.rprompt);
            let edge = cols - wide(right);
            &&& e == run(
                run(
                    run(
                        run(start, line.lead() + at.body + dimmed(at.hint)),
                        forced_wrap(at.total, cols),
                    ),
                    "\x1b[J"@,
                ),
                right_side(line.rprompt, at.total, cols),
            )
            &&& is_whole(line.lead() + at.body + dimmed(at.hint))
            &&& is_whole(forced_wrap(at.total, cols))
            &&& is_whole("\x1b[J"@)
            &&& is_whole(right_side(line.rprompt, at.total, cols))
            &&& e.row == start.row + at.total / cols
            &&& forall|q: int|
                0 <= q < wide(all) ==> (#[trigger] (e.cells)(first + q)).0 == drawn(all, q)
            &&& forall|q: int|
                wide(all) - wide(hint_seen(line, hint)) <= q < wide(all) ==> (#[trigger] (e.cells)(
                    first + q,
                )).1
            &&& forall|q: int|
                q >= wide(all) ==> (#[trigger] (e.cells)(first + q)).0 == (if right_prompt_shown(
                    line,
                    hint,
                ) && edge <= q < cols {
                    drawn(right, q - edge)
                } else {
                    None
                })
            &&& forall|p: int| p < first ==> (#[trigger] (e.cells)(p)).0 == ((start.cells)(p)).0
        }),
{
    let at = line.layout(hint, highlighted);
    let cols = start.cols;
    the_layout_measures(line, hint, highlighted);
    let all = all_seen(line, hint);
    let total = wide(all);
    let top = start.row;
    let first = top * cols;
    the_text_is_printed(line, hint, highlighted, start);
    let e1 = run(start, line.lead() + at.body + dimmed(at.hint));
    wide_is_not_negative(all);
    wrapping_settles(e1, top, cols, total);
    let e2 = run(e1, forced_wrap(total, cols));
    erasing(e2);
    let e3 = run(e2, "\x1b[J"@);
    assert(e2.row * cols + e2.col == first + total) by {
        vstd::arithmetic::div_mod::lemma_fundamental_div_mod(total, cols);
        let q = total / cols;
        let r = total % cols;
        assert((top + q) * cols + r == top * cols + total) by (nonlinear_arith)
            requires
                total == cols * q + r,
        ;
    }
    assert forall|p: int| #[trigger] (e3.cells)(p) == (if p >= first + total {
        (None::<char>, false)
    } else {
        (e1.cells)(p)
    }) by {}
    the_right_prompt_is_printed(line, e3, total, top);
    let e4 = run(e3, right_side(line.rprompt, total, cols));
    let right = visible(line.rprompt);
    let w = wide(right);
    let edge = cols - w;
    wide_is_not_negative(right);
    wide_is_not_negative(at.hint);
    wide_add(beginning(line) + seen(line.buffer, wide(beginning(line))), at.hint);
    wide_is_not_negative(beginning(line) + seen(line.buffer, wide(beginning(line))));
    assert forall|p: int| p < first + total implies (#[trigger] (e4.cells)(p)) == (e1.cells)(
        p,
    ) by {
        assert((e4.cells)(p) == (e3.cells)(p));
    }
    assert forall|q: int| q >= total implies (#[trigger] (e4.cells)(first + q)).0 == (
    if right_prompt_shown(line, hint) && edge <= q < cols {
        drawn(right, q - edge)
    } else {
        None
    }) by {
        let p = first + q;
        assert((e3.cells)(p) == (None::<char>, false));
        if right_prompt_shown(line, hint) && edge <= q < cols {
            assert(((e4.cells)(p)).0 == drawn(right, p - (first + edge)));
        }
    }
    e4
}

/// A repaint, run on a terminal whose cursor is where the last one left it,
/// shows the prompt, the buffer and the hint from the region's first cell on,
/// dims the hint, erases what is left over behind them, shows the right prompt
/// at the right edge where it fits, and leaves the cursor on the cell of the
/// character that it stands on. The rows it counts are the rows it filled, so
/// that the next repaint starts from the same cell.
#[verifier::rlimit(40)]
pub proof fn a_repaint_shows_the_line(
    line: Line,
    history: Seq<Seq<char>>,
    hint: Seq<char>,
    highlighted: Seq<char>,
    st: Screen,
)
    requires
        presentable(line, hint, highlighted),
        line.search is None,
        st.cols == across(line),
    ensures
        ({
            let l = line.painted(history, hint, highlighted);
            let text = l.out.skip(line.out.len() as int);
            let end = run(st, text);
            let top = region_start(line, st).row;
            let first = top * st.cols;
            let all = all_seen(line, hint);
            let at = cursor_columns(line);
            let right = visible(line.rprompt);
            let edge = st.cols - wide(right);
            &&& l.out == line.out + text
            &&& stays(line, l)
            &&& !l.fresh
            &&& l.painted_rows == wide(all) / st.cols + 1
            &&& l.painted_cursor_row == at / st.cols
            &&& end.row == top + at / st.cols
            &&& end.col == at % st.cols
            &&& end.row - l.painted_cursor_row == top
            &&& forall|q: int|
                0 <= q < wide(all) ==> (#[trigger] (end.cells)(first + q)).0 == drawn(all, q)
            &&& forall|q: int|
                wide(all) - wide(hint_seen(line, hint)) <= q < wide(all) ==> (
                #[trigger] (end.cells)(first + q)).1
            &&& forall|q: int|
                q >= wide(all) ==> (#[trigger] (end.cells)(first + q)).0 == (if right_prompt_shown(
                    line,
                    hint,
                ) && edge <= q < st.cols {
                    drawn(right, q - edge)
                } else {
                    None
                })
            &&& forall|p: int|
                p < first ==> (#[trigger] (end.cells)(p)).0 == ((region_start(line, st).cells)(p)).0
        }),
{
    let at = line.layout(hint, highlighted);
    let cols = line.columns();
    the_layout_measures(line, hint, highlighted);
    the_pieces(line, hint, highlighted);
    the_paint_starts(line, st);
    let start = region_start(line, st);
    let e = the_cells_are_filled(line, hint, highlighted, start);
    six_pieces(
        st,
        line.paint_start(),
        line.lead() + at.body + dimmed(at.hint),
        forced_wrap(at.total, cols),
        "\x1b[J"@,
        right_side(line.rprompt, at.total, cols),
        tail_of(at, cols),
    );
    vstd::arithmetic::div_mod::lemma_div_is_ordered(at.cursor, at.total, cols);
    vstd::arithmetic::div_mod::lemma_mod_bound(at.cursor, cols);
    the_paint_ends(e, at.total / cols - at.cursor / cols, at.cursor % cols);
}

} // verus!
