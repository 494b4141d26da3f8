//! The host application's integration points.
use vstd::prelude::*;

verus! {

/// One completion candidate: the text shown in the columned list, and the
/// text inserted into the buffer.
#[derive(Debug)]
pub struct Candidate {
    /// The text shown in the candidate list.
    pub display: String,
    /// The text inserted into the buffer when this candidate is chosen.
    pub replacement: String,
}

/// A completion candidate, as a mathematical value.
#[verifier::ext_equal]
pub ghost struct Choice {
    pub display: Seq<char>,
    pub replacement: Seq<char>,
}

impl View for Candidate {
    type V = Choice;

    open spec fn view(&self) -> Choice {
        Choice { display: self.display@, replacement: self.replacement@ }
    }
}

impl Clone for Candidate {
    fn clone(&self) -> (r: Candidate)
        ensures
            r@ == self@,
    {
        Candidate { display: self.display.clone(), replacement: self.replacement.clone() }
    }
}

/// The candidates, as mathematical values.
#[verifier::opaque]
pub open spec fn choices(v: Seq<Candidate>) -> Seq<Choice> {
    Seq::new(v.len(), |i: int| v[i]@)
}

/// The host application's integration points. Every method has a no-op
/// default, so `&NoHooks` gives plain line editing; a shell implements the lot.
pub trait Hooks {
    /// Candidates for the word at `pos`, plus the byte offset that word starts
    /// at (the editor replaces `start..pos`). An offset past the cursor or
    /// inside a UTF-8 sequence is clamped.
    fn complete(&self, _line: &str, _pos: usize) -> (r: (usize, Vec<Candidate>))
        default_ensures
            r.0 == 0,
            r.1@ == Seq::<Candidate>::empty(),
    {
        (0, Vec::new())
    }

    /// The dimmed inline suggestion shown after the buffer (fish-style);
    /// Right/End at end-of-line accepts it.
    fn hint(&self, _line: &str, _history: &[String]) -> (r: Option<String>)
        default_ensures
            r is None,
    {
        None
    }

    /// The buffer as painted: return it wrapped in ANSI SGR sequences for
    /// syntax highlighting (widths are computed ANSI-aware).
    fn highlight(&self, line: &str) -> (r: String)
        default_ensures
            r@ == line@,
    {
        line.to_owned()
    }

    /// Called when space is typed: return `Some((start, replacement))` to
    /// rewrite `start..cursor` first (fish-style abbreviations).
    fn expand_abbreviation(&self, _line: &str, _cursor: usize) -> (r: Option<(usize, String)>)
        default_ensures
            r is None,
    {
        None
    }

    /// Checked at the start of every line: true selects the vi keymap, so a
    /// `set -o vi` needs no editor rebuild.
    fn vi_mode(&self) -> (r: bool)
        default_ensures
            r == false,
    {
        false
    }

    /// The command for C-x C-e / vi `v` (edit the line in an editor). `None`
    /// falls back to `$VISUAL`, `$EDITOR`, then `vi`.
    fn external_editor(&self) -> (r: Option<String>)
        default_ensures
            r is None,
    {
        None
    }

    /// Called when a signal interrupts the blocking read: a shell fires its
    /// pending traps here. The read then resumes.
    fn on_interrupted_read(&self) {
    }

    /// Invoked for a key bound to a host command (bash's `bind -x` contract):
    /// the current buffer and cursor (byte offset) are handed over, and
    /// whatever the host leaves in them is written back. A cursor written past
    /// the end of the line (or inside a UTF-8 sequence) is clamped.
    fn host_binding(&self, _tag: &str, _line: &mut String, _cursor: &mut usize) {
    }
}

/// A no-op `Hooks`: plain editing with no completion, hints, highlighting, or
/// abbreviations.
pub struct NoHooks;

impl Hooks for NoHooks {

}

} // verus!
