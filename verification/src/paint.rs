//! The render engine: repainting the edit region and placing the cursor.
//!
//! Everything is measured in display columns (ANSI-skipped, wide-character
//! aware, control characters as they are shown). The paint overwrites the
//! region in place and erases only what is left over. When a painted row ends
//! exactly at the terminal width, a newline forces the wrap at once:
//! terminals' delayed-wrap state would otherwise break the relative cursor
//! movements the next repaint starts with.
use vstd::prelude::*;

use crate::act::{consult, heard, remembered, Answer, Ask, Reply};
use crate::hints::{HintCache, Known};
use crate::hooks::Hooks;
use crate::line::{Line, LineState};
use crate::text::{
    chars_of, copy, decimal, index_from, push_chars, push_decimal, push_str, slice, texts,
};
use crate::width::{
    clipped, csi_end, esc, printable, sgr_has_no_width, shown, shown_is_plain, stop_after, stop_behind, visualize_at, visualize_chars,
    visualized, visualized_at, visualized_at_is_printable, width, width_add, width_chars,
    width_within_stop,
};

verus! {

/// How many characters the SGR sequence at the start of `s` takes; 0 when
/// there is none.
pub open spec fn sgr_len(s: Seq<char>) -> int {
    if s.len() >= 3 && s[0] == esc() && s[1] == '[' {
        let n = sgr_params(s.skip(2));
        if 2 + n < s.len() && s[2 + n] == 'm' {
            3 + n
        } else {
            0
        }
    } else {
        0
    }
}

/// How many SGR parameter characters `s` begins with.
pub open spec fn sgr_params(s: Seq<char>) -> int
    decreases s.len(),
{
    if s.len() > 0 && ('0' <= s[0] <= '9' || s[0] == ';' || s[0] == ':') {
        1 + sgr_params(s.skip(1))
    } else {
        0
    }
}

/// Highlighted text as painted from a column on: SGR markup passes through,
/// everything else is shown as the buffer is, so no other escape reaches the
/// terminal.
pub open spec fn marked(s: Seq<char>, col: int) -> Seq<char>
    decreases s.len(),
{
    if s.len() == 0 {
        Seq::empty()
    } else {
        let n = sgr_len(s);
        if 0 < n <= s.len() {
            s.take(n) + marked(s.skip(n), col)
        } else {
            let first = shown(s[0], 8 - col);
            first + marked(s.skip(1), stop_after(col, first))
        }
    }
}

/// Where a text's last line starts.
pub open spec fn last_line_start(s: Seq<char>) -> int
    decreases s.len(),
{
    if s.len() == 0 || s.last() == '\n' {
        s.len() as int
    } else {
        last_line_start(s.drop_last())
    }
}

/// A cursor movement of `n` rows up, if any.
pub open spec fn rows_up(n: int) -> Seq<char> {
    if n > 0 {
        "\x1b["@ + decimal(n as nat) + "A"@
    } else {
        Seq::empty()
    }
}

/// A newline where the content ends exactly on the boundary.
pub open spec fn forced_wrap(total: int, cols: int) -> Seq<char> {
    if total > 0 && total % cols == 0 {
        "\r\n"@
    } else {
        Seq::empty()
    }
}

/// The hint, dimmed.
pub open spec fn dimmed(hint: Seq<char>) -> Seq<char> {
    if hint.len() > 0 {
        "\x1b[2m"@ + hint + "\x1b[0m"@
    } else {
        Seq::empty()
    }
}

/// The right prompt: shown while everything fits on one row with a gap.
pub open spec fn right_side(rprompt: Seq<char>, total: int, cols: int) -> Seq<char> {
    let w = clipped(width(rprompt));
    if w > 0 && total + w + 1 < cols {
        "\x1b["@ + decimal((cols - w + 1) as nat) + "G"@ + rprompt
    } else {
        Seq::empty()
    }
}

/// Where the pieces of a paint end up.
#[verifier::ext_equal]
pub ghost struct Layout {
    pub body: Seq<char>,
    pub hint: Seq<char>,
    pub total: int,
    pub cursor: int,
}

/// Where the pieces of a paint end up.
struct Laid {
    body: Vec<char>,
    hint: Vec<char>,
    total: usize,
    cursor: usize,
}

impl View for Laid {
    type V = Layout;

    closed spec fn view(&self) -> Layout {
        Layout {
            body: self.body@,
            hint: self.hint@,
            total: self.total as int,
            cursor: self.cursor as int,
        }
    }
}

impl Line {
    /// The terminal's width, as far as it makes sense.
    pub open spec fn columns(self) -> int {
        if self.cols >= 2 {
            self.cols
        } else {
            2
        }
    }

    /// What the edit row begins with: the mode string, if wanted, and the
    /// prompt's last line.
    pub open spec fn lead(self) -> Seq<char> {
        if !self.cfg.show_mode {
            self.prompt
        } else if !self.vi {
            "@"@ + self.prompt
        } else if self.vi_normal {
            "(cmd)"@ + self.prompt
        } else {
            "(ins)"@ + self.prompt
        }
    }

    /// How a paint begins: at the region's first column; the prompt's earlier
    /// lines once per region.
    pub open spec fn paint_start(self) -> Seq<char> {
        "\r"@ + rows_up(self.painted_cursor_row) + if self.fresh {
            self.head
        } else {
            Seq::empty()
        }
    }

    /// The search prompt, painted instead of the line.
    pub open spec fn search_prompt(self, history: Seq<Seq<char>>) -> Seq<char> {
        match self.search {
            Some(s) => {
                let label = if s.forward {
                    if s.failed {
                        "(failed i-search)`"@
                    } else {
                        "(i-search)`"@
                    }
                } else {
                    if s.failed {
                        "(failed reverse-i-search)`"@
                    } else {
                        "(reverse-i-search)`"@
                    }
                };
                let found = match s.hit {
                    Some(i) => history[i],
                    None => Seq::empty(),
                };
                label + visualized(s.query) + "': "@ + visualized(found)
            },
            None => Seq::empty(),
        }
    }

    /// Where everything goes. `hint` is shown only behind a cursor at the end;
    /// a buffer that holds a literal ESC is painted unhighlighted.
    pub open spec fn layout(self, hint: Seq<char>, highlighted: Seq<char>) -> Layout {
        let lead = width(self.lead());
        let col = (lead % 8) as int;
        let vis = visualized_at(self.buffer, col);
        let before = visualized_at(self.buffer.take(self.cursor), col);
        let hint = if self.cursor == self.buffer.len() {
            visualized_at(hint, stop_after(col, vis))
        } else {
            Seq::empty()
        };
        Layout {
            body: if self.buffer.contains(esc()) {
                vis
            } else {
                marked(highlighted, col)
            },
            hint,
            total: clipped(lead + width(vis) + width(hint)) as int,
            cursor: clipped(lead + width(before)) as int,
        }
    }

    /// Painted: the search prompt while searching.
    pub open spec fn painted_search(self, history: Seq<Seq<char>>) -> Line {
        let text = self.search_prompt(history);
        let total = clipped(width(text)) as int;
        let cols = self.columns();
        Line {
            fresh: false,
            painted_rows: total / cols + 1,
            painted_cursor_row: total / cols,
            ..self.say(self.paint_start() + text + forced_wrap(total, cols) + "\x1b[J"@)
        }
    }

    /// Painted: the prompt, the buffer and the hint, the right prompt, and the
    /// cursor in its place.
    pub open spec fn painted_line(self, hint: Seq<char>, highlighted: Seq<char>) -> Line {
        let at = self.layout(hint, highlighted);
        let cols = self.columns();
        let row = at.cursor / cols;
        Line {
            fresh: false,
            painted_rows: at.total / cols + 1,
            painted_cursor_row: row,
            ..self.say(self.composed(at, cols))
        }
    }

    /// The text of a paint: the prompt, the buffer and the hint, what is left
    /// over erased, the right prompt, and the way back to the cursor.
    pub open spec fn composed(self, at: Layout, cols: int) -> Seq<char> {
        self.paint_start() + self.lead() + at.body + dimmed(at.hint) + forced_wrap(at.total, cols)
            + "\x1b[J"@ + right_side(self.rprompt, at.total, cols) + rows_up(
            at.total / cols - at.cursor / cols,
        ) + "\r\x1b["@ + decimal((at.cursor % cols + 1) as nat) + "G"@
    }

    /// Painted, given what the hooks answered.
    pub open spec fn painted(
        self,
        history: Seq<Seq<char>>,
        hint: Seq<char>,
        highlighted: Seq<char>,
    ) -> Line {
        if self.search is Some {
            self.painted_search(history)
        } else {
            self.painted_line(hint, highlighted)
        }
    }
}

/// The columns of three texts in a row.
fn add_widths(a: &[char], b: &[char], c: &[char]) -> (r: usize)
    ensures
        r == clipped(width(a@) + width(b@) + width(c@)),
{
    width_chars(a).saturating_add(width_chars(b)).saturating_add(width_chars(c))
}

fn sgr_param_run(s: &[char], from: usize) -> (r: usize)
    requires
        from <= s@.len(),
    ensures
        r == sgr_params(s@.skip(from as int)),
        from + r <= s@.len(),
{
    let mut i: usize = from;
    while i < s.len() && ('0' <= s[i] && s[i] <= '9' || s[i] == ';' || s[i] == ':')
        invariant
            from <= i <= s@.len(),
            sgr_params(s@.skip(from as int)) == i - from + sgr_params(s@.skip(i as int)),
        decreases s@.len() - i,
    {
        assert(s@.skip(i as int)[0] == s@[i as int]);
        assert(s@.skip(i as int).skip(1) =~= s@.skip(i + 1));
        i += 1;
    }
    assert(i < s@.len() ==> s@.skip(i as int)[0] == s@[i as int]);
    i - from
}

fn sgr_at(s: &[char], at: usize) -> (r: usize)
    requires
        at < s@.len(),
    ensures
        r == sgr_len(s@.skip(at as int)),
        at + r <= s@.len(),
{
    let ghost t = s@.skip(at as int);
    let len = s.len();
    if len - at >= 3 && s[at] == '\x1b' && s[at + 1] == '[' {
        assert(t[1] == s@[at + 1]);
        assert(t.skip(2) =~= s@.skip(at + 2));
        let n = sgr_param_run(s, at + 2);
        if at + 2 + n < len && s[at + 2 + n] == 'm' {
            assert(t[2 + n] == 'm');
            return 3 + n;
        }
    }
    0
}

/// Highlighted text as painted from a column on.
fn mark(v: &[char], col: usize) -> (r: Vec<char>)
    requires
        col < 8,
    ensures
        r@ == marked(v@, col as int),
{
    let mut out: Vec<char> = Vec::new();
    let mut i: usize = 0;
    let mut c: usize = col;
    assert(v@.skip(0) =~= v@);
    assert(out@ + marked(v@, col as int) =~= marked(v@, col as int));
    while i < v.len()
        invariant
            i <= v@.len(),
            c < 8,
            marked(v@, col as int) == out@ + marked(v@.skip(i as int), c as int),
        decreases v@.len() - i,
    {
        let ghost t = v@.skip(i as int);
        let ghost before = out@;
        assert(t[0] == v@[i as int]);
        let n = sgr_at(v, i);
        if n > 0 {
            let seq = slice(v, i, i + n);
            assert(seq@ =~= t.take(n as int));
            assert(t.skip(n as int) =~= v@.skip(i + n));
            push_chars(&mut out, seq.as_slice());
            i += n;
            assert(before + (seq@ + marked(v@.skip(i as int), c as int)) =~= out@ + marked(
                v@.skip(i as int),
                c as int,
            ));
        } else {
            assert(t.skip(1) =~= v@.skip(i + 1));
            let one = slice(v, i, i + 1);
            let piece = visualize_at(one.as_slice(), c);
            assert(piece@ == shown(v@[i as int], 8 - c)) by {
                let first = shown(one@[0], 8 - c);
                assert(one@.skip(1).len() == 0);
                assert(visualized_at(one@.skip(1), stop_after(c as int, first)) =~= Seq::<
                    char,
                >::empty());
                assert(first + Seq::<char>::empty() =~= first);
            }
            push_chars(&mut out, piece.as_slice());
            c = stop_behind(c, piece.as_slice());
            i += 1;
            assert(before + (piece@ + marked(v@.skip(i as int), c as int)) =~= out@ + marked(
                v@.skip(i as int),
                c as int,
            ));
        }
    }
    assert(out@ + Seq::<char>::empty() =~= out@);
    out
}

fn append_rows_up(out: &mut Vec<char>, n: usize)
    ensures
        final(out)@ == old(out)@ + rows_up(n as int),
{
    if n > 0 {
        push_str(out, "\x1b[");
        push_decimal(out, n as u64);
        push_str(out, "A");
        assert(out@ =~= old(out)@ + rows_up(n as int));
    } else {
        assert(out@ + Seq::<char>::empty() =~= out@);
    }
}

fn append_forced_wrap(out: &mut Vec<char>, total: usize, cols: usize)
    requires
        cols > 0,
    ensures
        final(out)@ == old(out)@ + forced_wrap(total as int, cols as int),
{
    if total > 0 && total % cols == 0 {
        push_str(out, "\r\n");
    } else {
        assert(out@ + Seq::<char>::empty() =~= out@);
    }
}

fn append_right_side(out: &mut Vec<char>, rprompt: &[char], total: usize, cols: usize)
    ensures
        final(out)@ == old(out)@ + right_side(rprompt@, total as int, cols as int),
{
    let w = width_chars(rprompt);
    if w > 0 && w < cols && total < cols - w && cols - w - total > 1 {
        let ghost before = out@;
        push_str(out, "\x1b[");
        push_decimal(out, (cols - w + 1) as u64);
        push_str(out, "G");
        push_chars(out, rprompt);
        assert(out@ =~= before + ("\x1b["@ + decimal((cols - w + 1) as nat) + "G"@ + rprompt@));
    } else {
        assert(out@ + Seq::<char>::empty() =~= out@);
    }
}

fn append_dimmed(out: &mut Vec<char>, hint: &[char])
    ensures
        final(out)@ == old(out)@ + dimmed(hint@),
{
    if hint.len() > 0 {
        let ghost before = out@;
        push_str(out, "\x1b[2m");
        push_chars(out, hint);
        push_str(out, "\x1b[0m");
        assert(out@ =~= before + ("\x1b[2m"@ + hint@ + "\x1b[0m"@));
    } else {
        assert(out@ + Seq::<char>::empty() =~= out@);
    }
}

impl LineState {
    fn columns(&self) -> (r: usize)
        ensures
            r == self@.columns(),
            r >= 2,
    {
        if self.cols >= 2 {
            self.cols
        } else {
            2
        }
    }

    fn lead(&self) -> (r: Vec<char>)
        ensures
            r@ == self@.lead(),
    {
        if !self.cfg.show_mode {
            return copy(self.prompt.as_slice());
        }
        let mut r = if !self.vi {
            chars_of("@")
        } else if self.vi_normal {
            chars_of("(cmd)")
        } else {
            chars_of("(ins)")
        };
        push_chars(&mut r, self.prompt.as_slice());
        r
    }

    fn paint_start(&self) -> (r: Vec<char>)
        ensures
            r@ == self@.paint_start(),
    {
        let mut r = chars_of("\r");
        append_rows_up(&mut r, self.painted_cursor_row);
        if self.fresh {
            push_chars(&mut r, self.head.as_slice());
        } else {
            assert(r@ + Seq::<char>::empty() =~= r@);
        }
        r
    }

    fn search_prompt(&self, history: &[String]) -> (r: Vec<char>)
        requires
            self@.wf(texts(history@)),
        ensures
            r@ == self@.search_prompt(texts(history@)),
    {
        match &self.search {
            Some(s) => {
                let mut r = if s.forward {
                    if s.failed {
                        chars_of("(failed i-search)`")
                    } else {
                        chars_of("(i-search)`")
                    }
                } else {
                    if s.failed {
                        chars_of("(failed reverse-i-search)`")
                    } else {
                        chars_of("(reverse-i-search)`")
                    }
                };
                let query = visualize_chars(s.query.as_slice());
                push_chars(&mut r, query.as_slice());
                push_str(&mut r, "': ");
                let found = match s.hit {
                    Some(i) => {
                        let entry = chars_of(history[i].as_str());
                        assert(entry@ == texts(history@)[i as int]);
                        entry
                    },
                    None => Vec::new(),
                };
                let found = visualize_chars(found.as_slice());
                push_chars(&mut r, found.as_slice());
                r
            },
            None => Vec::new(),
        }
    }

    /// Paint the search prompt.
    fn paint_search(&mut self, history: &[String])
        requires
            old(self)@.wf(texts(history@)),
        ensures
            final(self)@ == old(self)@.painted_search(texts(history@)),
    {
        let cols = self.columns();
        let text = self.search_prompt(history);
        let total = width_chars(text.as_slice());
        let mut out = self.paint_start();
        push_chars(&mut out, text.as_slice());
        append_forced_wrap(&mut out, total, cols);
        push_str(&mut out, "\x1b[J");
        push_chars(&mut self.out, out.as_slice());
        self.fresh = false;
        assert(total / cols < usize::MAX) by (nonlinear_arith)
            requires
                cols >= 2,
                total <= usize::MAX,
        ;
        self.painted_rows = total / cols + 1;
        self.painted_cursor_row = total / cols;
    }

    /// Where everything goes.
    fn lay_out(&self, lead: &[char], hint: &[char], highlighted: &[char]) -> (r: Laid)
        requires
            self.inside(),
            lead@ == self@.lead(),
        ensures
            r@ == self@.layout(hint@, highlighted@),
    {
        let col = width_within_stop(lead);
        let vis = visualize_at(self.buffer.as_slice(), col);
        let head = slice(self.buffer.as_slice(), 0, self.cursor);
        assert(head@ =~= self.buffer@.take(self.cursor as int));
        let before = visualize_at(head.as_slice(), col);
        let tail = if self.cursor == self.buffer.len() {
            visualize_at(hint, stop_behind(col, vis.as_slice()))
        } else {
            Vec::new()
        };
        let total = add_widths(lead, vis.as_slice(), tail.as_slice());
        let none: Vec<char> = Vec::new();
        let cursor = add_widths(lead, before.as_slice(), none.as_slice());
        proof {
            contains_by_index(self.buffer@, esc());
        }
        let body = if index_from(self.buffer.as_slice(), 0, '\x1b').is_some() {
            vis
        } else {
            mark(highlighted, col)
        };
        Laid { body, hint: tail, total, cursor }
    }

    /// The text of a paint.
    fn compose(&self, lead: &[char], at: &Laid, cols: usize) -> (r: Vec<char>)
        requires
            cols >= 2,
            lead@ == self@.lead(),
        ensures
            r@ == self@.composed(at@, cols as int),
    {
        let row = at.cursor / cols;
        let last = at.total / cols;
        let mut out = self.paint_start();
        push_chars(&mut out, lead);
        push_chars(&mut out, at.body.as_slice());
        append_dimmed(&mut out, at.hint.as_slice());
        append_forced_wrap(&mut out, at.total, cols);
        push_str(&mut out, "\x1b[J");
        append_right_side(&mut out, self.rprompt.as_slice(), at.total, cols);
        if last > row {
            append_rows_up(&mut out, last - row);
        } else {
            assert(out@ + rows_up(last - row) =~= out@);
        }
        push_str(&mut out, "\r\x1b[");
        push_decimal(&mut out, (at.cursor % cols + 1) as u64);
        push_str(&mut out, "G");
        out
    }

    /// Paint the line, given the hint and the highlighted buffer.
    fn paint_line(&mut self, hint: &[char], highlighted: &[char])
        requires
            old(self).inside(),
        ensures
            final(self)@ == old(self)@.painted_line(hint@, highlighted@),
    {
        let cols = self.columns();
        let lead = self.lead();
        let at = self.lay_out(lead.as_slice(), hint, highlighted);
        let out = self.compose(lead.as_slice(), &at, cols);
        push_chars(&mut self.out, out.as_slice());
        self.fresh = false;
        let total = at.total;
        assert(total / cols < usize::MAX) by (nonlinear_arith)
            requires
                cols >= 2,
                total <= usize::MAX,
        ;
        self.painted_rows = total / cols + 1;
        self.painted_cursor_row = at.cursor / cols;
    }

    /// Repaint the whole edit region and place the cursor, given what the
    /// hooks answered for this buffer: the hint (as text; empty for none) and
    /// the highlighted buffer.
    pub fn paint(&mut self, history: &[String], hint: &[char], highlighted: &[char])
        requires
            old(self)@.wf(texts(history@)),
        ensures
            final(self)@ == old(self)@.painted(texts(history@), hint@, highlighted@),
            final(self)@.wf(texts(history@)),
    {
        if self.search.is_some() {
            self.paint_search(history);
        } else {
            self.paint_line(hint, highlighted);
        }
    }
}

proof fn contains_by_index(s: Seq<char>, c: char)
    ensures
        crate::text::first_index(s, 0, c) is Some <==> s.contains(c),
{
    contains_by_index_from(s, 0, c);
}

proof fn contains_by_index_from(s: Seq<char>, from: int, c: char)
    requires
        0 <= from <= s.len(),
    ensures
        crate::text::first_index(s, from, c) is Some <==> (exists|k: int|
            from <= k < s.len() && s[k] == c),
    decreases s.len() - from,
{
    if from < s.len() {
        contains_by_index_from(s, from + 1, c);
    }
}

/// The hint as painted: nothing where there is none.
pub open spec fn hint_text(answer: Answer) -> Seq<char> {
    match answer.hint() {
        Some(h) => h,
        None => Seq::empty(),
    }
}

/// A paint with what the hooks may answer: the hint is asked for only behind a
/// cursor at the end, and the highlighting is that of the buffer.
pub open spec fn rendered<H: Hooks + ?Sized>(
    before: (Line, Known),
    history: Seq<String>,
    hooks: &H,
    answer: Answer,
    highlighted: String,
    after: (Line, Known),
) -> bool {
    let (line, known) = before;
    let ask = if line.cursor == line.buffer.len() {
        Ask::Hint
    } else {
        Ask::Nothing
    };
    if line.search is Some {
        after == (line.painted_search(texts(history)), known)
    } else {
        &&& heard(hooks, line, history, ask, answer)
        &&& remembered(known, line, ask, answer, after.1)
        &&& exists|l: &str| #[trigger]
            call_ensures(H::highlight, (hooks, l), highlighted) && l@ == line.buffer
        &&& after.0 == line.painted_line(hint_text(answer), highlighted@)
    }
}

/// Repaint the whole edit region and place the cursor, asking the host for the
/// hint and the highlighting.
pub fn render<H: Hooks + ?Sized>(
    st: &mut LineState,
    history: &[String],
    hooks: &H,
    hints: &mut HintCache,
)
    requires
        old(st)@.wf(texts(history@)),
        old(hints).holds(hooks, history@),
    ensures
        final(hints).holds(hooks, history@),
        exists|answer: Answer, highlighted: String| #[trigger]
            rendered(
                (old(st)@, old(hints)@),
                history@,
                hooks,
                answer,
                highlighted,
                (final(st)@, final(hints)@),
            ),
        final(st)@.wf(texts(history@)),
{
    let ghost before = (st@, hints@);
    if st.search.is_some() {
        st.paint(history, &[], &[]);
        proof {
            let answer = Answer::Silent;
            let highlighted: String = arbitrary();
            assert(rendered(before, history@, hooks, answer, highlighted, (st@, hints@)));
        }
        return;
    }
    let ask = if st.cursor == st.buffer.len() {
        Ask::Hint
    } else {
        Ask::Nothing
    };
    let reply = consult(st, history, ask, hooks, hints);
    let ghost answer = reply@;
    let hint = match reply {
        Reply::Hint(Some(h)) => h,
        _ => Vec::new(),
    };
    assert(hint@ =~= hint_text(answer));
    let text = st.text();
    let line: &str = text.as_str();
    let highlighted = hooks.highlight(line);
    assert(call_ensures(H::highlight, (hooks, line), highlighted));
    let shown = chars_of(highlighted.as_str());
    st.paint(history, hint.as_slice(), shown.as_slice());
    assert(rendered(before, history@, hooks, answer, highlighted, (st@, hints@)));
}

/// What is shown of a text is what is shown of its first part and then of the
/// rest from there on.
pub proof fn visualized_at_add(a: Seq<char>, b: Seq<char>, col: int)
    requires
        0 <= col < 8,
    ensures
        visualized_at(a + b, col) == visualized_at(a, col) + visualized_at(
            b,
            stop_after(col, visualized_at(a, col)),
        ),
    decreases a.len(),
{
    if a.len() == 0 {
        assert(a + b =~= b);
        assert(visualized_at(a, col) =~= Seq::<char>::empty());
        assert(Seq::<char>::empty() + visualized_at(b, col) =~= visualized_at(b, col));
    } else {
        let first = shown(a[0], 8 - col);
        let next = stop_after(col, first);
        let rest = visualized_at(a.skip(1), next);
        let tail = visualized_at(b, stop_after(next, rest));
        assert(visualized_at(a + b, col) == first + visualized_at(a.skip(1) + b, next)) by {
            assert((a + b)[0] == a[0]);
            assert((a + b).skip(1) =~= a.skip(1) + b);
        }
        visualized_at_add(a.skip(1), b, next);
        assert(visualized_at(a, col) == first + rest);
        assert(stop_after(next, rest) == stop_after(col, first + rest)) by {
            stops_add(a[0], rest, col);
        }
        assert(first + (rest + tail) =~= (first + rest) + tail);
    }
}

proof fn stops_add(c: char, rest: Seq<char>, col: int)
    requires
        0 <= col < 8,
    ensures
        ({
            let first = shown(c, 8 - col);
            stop_after(stop_after(col, first), rest) == stop_after(col, first + rest)
        }),
{
    let first = shown(c, 8 - col);
    shown_is_plain(c, 8 - col);
    width_add(first, rest);
}

/// The cursor is painted inside the region: on one of its rows, and on a column
/// of the terminal.
pub proof fn cursor_is_in_the_region(
    line: Line,
    history: Seq<Seq<char>>,
    hint: Seq<char>,
    highlighted: Seq<char>,
)
    requires
        line.wf(history),
    ensures
        ({
            let l = line.painted(history, hint, highlighted);
            0 <= l.painted_cursor_row < l.painted_rows
        }),
        ({
            let at = line.layout(hint, highlighted);
            1 <= at.cursor % line.columns() + 1 <= line.columns()
        }),
{
    let cols = line.columns();
    let at = line.layout(hint, highlighted);
    let lead = width(line.lead());
    let col = (lead % 8) as int;
    let a = line.buffer.take(line.cursor);
    let b = line.buffer.skip(line.cursor);
    assert(a + b =~= line.buffer);
    visualized_at_add(a, b, col);
    let before = visualized_at(a, col);
    visualized_at_is_printable(a, col);
    assert forall|k: int| 0 <= k < before.len() implies #[trigger] before[k] != esc() by {
        assert(before[k] as u32 >= 0x20);
    }
    width_add(before, visualized_at(b, stop_after(col, before)));
    assert(at.cursor <= at.total);
    let (x, y) = (at.cursor, at.total);
    assert(x / cols <= y / cols) by {
        vstd::arithmetic::div_mod::lemma_div_is_ordered(x, y, cols);
    }
    assert(0 <= x / cols) by {
        vstd::arithmetic::div_mod::lemma_div_pos_is_pos(x, cols);
    }
    vstd::arithmetic::div_mod::lemma_mod_bound(x, cols);
    if line.search is Some {
        let total = clipped(width(line.search_prompt(history))) as int;
        vstd::arithmetic::div_mod::lemma_div_pos_is_pos(total, cols);
    }
}

/// Text and SGR markup only.
pub open spec fn harmless(s: Seq<char>) -> bool
    decreases s.len(),
{
    if s.len() == 0 {
        true
    } else {
        let n = sgr_len(s);
        if 0 < n <= s.len() {
            harmless(s.skip(n))
        } else {
            printable(s.take(1)) && harmless(s.skip(1))
        }
    }
}

/// Whatever a host's highlighting holds, what is painted of it is text and SGR
/// markup: no other control sequence reaches the terminal.
pub proof fn highlighting_is_harmless(s: Seq<char>, col: int)
    ensures
        harmless(marked(s, col)),
    decreases s.len(),
{
    if s.len() > 0 {
        let n = sgr_len(s);
        if 0 < n <= s.len() {
            let rest = marked(s.skip(n), col);
            highlighting_is_harmless(s.skip(n), col);
            sgr_len_of_prefix(s, rest);
            assert((s.take(n) + rest).skip(n) =~= rest);
        } else {
            let first = shown(s[0], 8 - col);
            let rest = marked(s.skip(1), stop_after(col, first));
            highlighting_is_harmless(s.skip(1), stop_after(col, first));
            shown_is_plain(s[0], 8 - col);
            plain_then_harmless(first, rest);
        }
    }
}

proof fn sgr_len_of_prefix(s: Seq<char>, rest: Seq<char>)
    requires
        0 < sgr_len(s) <= s.len(),
    ensures
        sgr_len(s.take(sgr_len(s)) + rest) == sgr_len(s),
{
    let n = sgr_len(s);
    let t = s.take(n) + rest;
    let k = sgr_params(s.skip(2));
    sgr_params_bounds(s.skip(2));
    sgr_params_of(t.skip(2), s.skip(2), k);
}

proof fn sgr_params_bounds(s: Seq<char>)
    ensures
        0 <= sgr_params(s) <= s.len(),
    decreases s.len(),
{
    if s.len() > 0 && ('0' <= s[0] <= '9' || s[0] == ';' || s[0] == ':') {
        sgr_params_bounds(s.skip(1));
    }
}

proof fn sgr_params_of(t: Seq<char>, s: Seq<char>, k: int)
    requires
        k == sgr_params(s),
        k < s.len(),
        k < t.len(),
        forall|i: int| 0 <= i <= k ==> #[trigger] t[i] == s[i],
    ensures
        sgr_params(t) == k,
    decreases s.len(),
{
    sgr_params_bounds(s);
    assert(t[0] == s[0]);
    if '0' <= s[0] <= '9' || s[0] == ';' || s[0] == ':' {
        assert forall|i: int| 0 <= i <= k - 1 implies #[trigger] t.skip(1)[i] == s.skip(1)[i] by {
            assert(t[i + 1] == s[i + 1]);
        }
        sgr_params_of(t.skip(1), s.skip(1), k - 1);
    }
}

proof fn plain_then_harmless(first: Seq<char>, rest: Seq<char>)
    requires
        printable(first),
        harmless(rest),
    ensures
        harmless(first + rest),
    decreases first.len(),
{
    if first.len() == 0 {
        assert(first + rest =~= rest);
    } else {
        let all = first + rest;
        assert(all[0] == first[0]);
        assert(first[0] as u32 >= 0x20);
        assert(all.skip(1) =~= first.skip(1) + rest);
        plain_then_harmless(first.skip(1), rest);
        assert(all.take(1) =~= seq![first[0]]);
    }
}

/// Text without its SGR sequences.
pub open spec fn unmarked(s: Seq<char>) -> Seq<char>
    decreases s.len(),
{
    if s.len() == 0 {
        Seq::empty()
    } else {
        let n = sgr_len(s);
        if 0 < n <= s.len() {
            unmarked(s.skip(n))
        } else {
            seq![s[0]] + unmarked(s.skip(1))
        }
    }
}

/// Highlighting does not move the cursor: a buffer with SGR sequences put into
/// it is painted as wide as the buffer itself, which the layout measures.
pub proof fn highlighting_keeps_the_width(s: Seq<char>, col: int)
    ensures
        width(marked(s, col)) == width(visualized_at(unmarked(s), col)),
    decreases s.len(),
{
    if s.len() > 0 {
        let n = sgr_len(s);
        if 0 < n <= s.len() {
            let rest = marked(s.skip(n), col);
            highlighting_keeps_the_width(s.skip(n), col);
            let params = s.subrange(2, n - 1);
            sgr_params_bounds(s.skip(2));
            sgr_params_are_parameters(s.skip(2));
            assert forall|k: int| 0 <= k < params.len() implies !csi_end(#[trigger] params[k]) by {
                assert(params[k] == s.skip(2)[k]);
            }
            sgr_has_no_width(params, rest);
            assert(s.take(n) + rest =~= seq![esc(), '['] + params + seq!['m'] + rest);
        } else {
            let first = shown(s[0], 8 - col);
            let next = stop_after(col, first);
            highlighting_keeps_the_width(s.skip(1), next);
            shown_is_plain(s[0], 8 - col);
            width_add(first, marked(s.skip(1), next));
            let plain = unmarked(s);
            assert(plain[0] == s[0]);
            assert(plain.skip(1) =~= unmarked(s.skip(1)));
            width_add(first, visualized_at(unmarked(s.skip(1)), next));
        }
    }
}

proof fn sgr_params_are_parameters(s: Seq<char>)
    ensures
        forall|k: int| 0 <= k < sgr_params(s) ==> !csi_end(#[trigger] s[k]),
    decreases s.len(),
{
    if s.len() > 0 && ('0' <= s[0] <= '9' || s[0] == ';' || s[0] == ':') {
        sgr_params_are_parameters(s.skip(1));
        sgr_params_bounds(s.skip(1));
        assert forall|k: int| 0 <= k < sgr_params(s) implies !csi_end(#[trigger] s[k]) by {
            if k > 0 {
                assert(s[k] == s.skip(1)[k - 1]);
            }
        }
    }
}

} // verus!
