//! The external editor's command line (C-x C-e, vi `v`).
use vstd::prelude::*;

use crate::text::{chars_of, push_str, string_of};

verus! {

/// A text that is not empty.
pub open spec fn given(s: Option<String>) -> Option<Seq<char>> {
    match s {
        Some(t) => if t@.len() > 0 {
            Some(t@)
        } else {
            None
        },
        None => None,
    }
}

/// The editor to run: the host's, else `$VISUAL`, else `$EDITOR` (unless they
/// are empty), else `vi`.
pub open spec fn editor_of(
    host: Option<String>,
    visual: Option<String>,
    editor: Option<String>,
) -> Seq<char> {
    match host {
        Some(h) => h@,
        None => match given(visual) {
            Some(v) => v,
            None => match given(editor) {
                Some(e) => e,
                None => "vi"@,
            },
        },
    }
}

/// How a shell is to read one character between single quotes.
pub open spec fn quoted_char(c: char) -> Seq<char> {
    if c == '\'' {
        seq!['\'', '\\', '\'', '\'']
    } else {
        seq![c]
    }
}

/// The inside of a quoted word.
pub open spec fn quoted_body(s: Seq<char>) -> Seq<char>
    decreases s.len(),
{
    if s.len() == 0 {
        Seq::empty()
    } else {
        quoted_body(s.drop_last()) + quoted_char(s.last())
    }
}

/// A text as one shell word.
pub open spec fn shell_word(s: Seq<char>) -> Seq<char> {
    seq!['\''] + quoted_body(s) + seq!['\'']
}

/// The editor to run.
pub fn editor_command(host: Option<String>, visual: Option<String>, editor: Option<String>) -> (r:
    String)
    ensures
        r@ == editor_of(host, visual, editor),
{
    if let Some(h) = host {
        return h;
    }
    if let Some(v) = visual {
        if chars_of(v.as_str()).len() > 0 {
            return v;
        }
    }
    if let Some(e) = editor {
        if chars_of(e.as_str()).len() > 0 {
            return e;
        }
    }
    "vi".to_owned()
}

/// The shell command that runs an editor on a file, whatever the path holds.
pub fn editor_invocation(editor: &str, path: &str) -> (r: String)
    ensures
        r@ == editor@ + " "@ + shell_word(path@),
{
    let mut out = chars_of(editor);
    push_str(&mut out, " ");
    out.push('\'');
    let ghost before = out@;
    let v = chars_of(path);
    let mut i: usize = 0;
    assert(before + quoted_body(v@.take(0)) =~= before);
    while i < v.len()
        invariant
            i <= v@.len(),
            out@ == before + quoted_body(v@.take(i as int)),
        decreases v@.len() - i,
    {
        let ghost so_far = out@;
        if v[i] == '\'' {
            out.push('\'');
            out.push('\\');
            out.push('\'');
            out.push('\'');
        } else {
            out.push(v[i]);
        }
        assert(out@ =~= so_far + quoted_char(v@[i as int]));
        i += 1;
        assert(v@.take(i as int).drop_last() =~= v@.take(i - 1));
        assert(out@ =~= before + quoted_body(v@.take(i as int)));
    }
    assert(v@.take(i as int) =~= v@);
    out.push('\'');
    assert(out@ =~= editor@ + " "@ + shell_word(path@));
    string_of(out.as_slice())
}

/// The word that a shell reads, from inside or outside of single quotes: quotes
/// toggle, a backslash outside takes the next character as it is, and anything
/// else outside ends the word.
pub open spec fn shell_reads(s: Seq<char>, inside: bool) -> Option<Seq<char>>
    decreases s.len(),
{
    if s.len() == 0 {
        if inside {
            None
        } else {
            Some(Seq::empty())
        }
    } else if s[0] == '\'' {
        shell_reads(s.skip(1), !inside)
    } else if inside {
        preceded(s[0], shell_reads(s.skip(1), true))
    } else if s[0] == '\\' && s.len() > 1 {
        preceded(s[1], shell_reads(s.skip(2), false))
    } else {
        None
    }
}

/// A word with a character before it.
pub open spec fn preceded(c: char, word: Option<Seq<char>>) -> Option<Seq<char>> {
    match word {
        Some(w) => Some(seq![c] + w),
        None => None,
    }
}

/// A quoted path reaches the editor as one word, as it is.
pub proof fn quoting_is_read_back(s: Seq<char>)
    ensures
        shell_reads(shell_word(s), false) == Some(s),
{
    let end = seq!['\''];
    assert(shell_reads(end, true) == Some(Seq::<char>::empty())) by {
        assert(end.skip(1).len() == 0);
        assert(shell_reads(end.skip(1), false) == Some(Seq::<char>::empty()));
    }
    body_is_read_back(s, end, Seq::empty());
    assert(shell_word(s).skip(1) =~= quoted_body(s) + end);
    assert(s + Seq::<char>::empty() =~= s);
}

proof fn body_is_read_back(s: Seq<char>, tail: Seq<char>, word: Seq<char>)
    requires
        shell_reads(tail, true) == Some(word),
    ensures
        shell_reads(quoted_body(s) + tail, true) == Some(s + word),
    decreases s.len(),
{
    if s.len() == 0 {
        assert(quoted_body(s) + tail =~= tail);
        assert(s + word =~= word);
    } else {
        let c = s.last();
        let q = quoted_char(c) + tail;
        if c == '\'' {
            let open = seq!['\''] + tail;
            assert(open.skip(1) =~= tail);
            assert(shell_reads(open, false) == Some(word));
            let escaped = seq!['\\', '\'', '\''] + tail;
            assert(escaped.skip(2) =~= open);
            assert(shell_reads(escaped, false) == Some(seq![c] + word));
            assert(q.skip(1) =~= escaped);
        } else {
            assert(q.skip(1) =~= tail);
        }
        assert(shell_reads(q, true) == Some(seq![c] + word));
        body_is_read_back(s.drop_last(), q, seq![c] + word);
        assert(quoted_body(s.drop_last()) + q =~= quoted_body(s) + tail);
        assert(s.drop_last() + (seq![c] + word) =~= s + word);
    }
}

} // verus!
