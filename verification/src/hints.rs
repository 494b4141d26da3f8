//! The inline hint, asked for once per text: painting it and accepting it share
//! one answer of the host.
use vstd::prelude::*;

use crate::hooks::Hooks;
use crate::line::LineState;
use crate::text::{chars_of, copy, same};

verus! {

/// An optional string's characters.
pub open spec fn opt_text(s: Option<String>) -> Option<Seq<char>> {
    match s {
        Some(s) => Some(s@),
        None => None,
    }
}

/// Optional characters.
pub open spec fn opt_chars(v: Option<Vec<char>>) -> Option<Seq<char>> {
    match v {
        Some(v) => Some(v@),
        None => None,
    }
}

/// A hint that the host may give for a text.
pub open spec fn hinted<H: Hooks + ?Sized>(
    hooks: &H,
    text: Seq<char>,
    history: Seq<String>,
    hint: Option<Seq<char>>,
) -> bool {
    exists|l: &str, h: &[String], r: Option<String>| #[trigger]
        call_ensures(H::hint, (hooks, l, h), r) && l@ == text && h@ == history && hint == opt_text(
            r,
        )
}

/// The hint that was asked for last, and the text it was asked for.
#[derive(Debug)]
pub struct HintCache {
    /// The text and its hint, once there was one.
    pub known: Option<(Vec<char>, Option<Vec<char>>)>,
}

/// A remembered text and its hint, as a mathematical value.
pub type Known = Option<(Seq<char>, Option<Seq<char>>)>;

impl View for HintCache {
    type V = Known;

    open spec fn view(&self) -> Known {
        match self.known {
            Some((text, hint)) => Some((text@, opt_chars(hint))),
            None => None,
        }
    }
}

impl HintCache {
    /// What is remembered is what the host said.
    pub open spec fn holds<H: Hooks + ?Sized>(self, hooks: &H, history: Seq<String>) -> bool {
        self.known matches Some((text, hint)) ==> hinted(hooks, text@, history, opt_chars(hint))
    }

    /// Nothing is remembered.
    pub fn new() -> (r: HintCache)
        ensures
            r.known is None,
    {
        HintCache { known: None }
    }

    fn recall(&self, text: &[char]) -> (r: Option<Option<Vec<char>>>)
        ensures
            match r {
                Some(hint) => self.known matches Some((t, h)) && t@ == text@ && opt_chars(h)
                    == opt_chars(hint),
                None => !(self.known matches Some((t, h)) && t@ == text@),
            },
    {
        match &self.known {
            Some((t, hint)) => if same(t.as_slice(), text) {
                match hint {
                    Some(h) => Some(Some(copy(h.as_slice()))),
                    None => Some(None),
                }
            } else {
                None
            },
            None => None,
        }
    }

    /// The hint for the buffer; the host is asked only when the text has
    /// changed since.
    pub fn ask<H: Hooks + ?Sized>(&mut self, st: &LineState, history: &[String], hooks: &H) -> (r:
        Option<Vec<char>>)
        requires
            old(self).holds(hooks, history@),
        ensures
            hinted(hooks, st@.buffer, history@, opt_chars(r)),
            final(self).holds(hooks, history@),
            final(self).known matches Some((t, h)) && t@ == st@.buffer && opt_chars(h) == opt_chars(
                r,
            ),
            old(self).known matches Some((t, h)) && t@ == st@.buffer ==> *final(self) == *old(self),
    {
        if let Some(hint) = self.recall(st.buffer.as_slice()) {
            return hint;
        }
        let text = st.text();
        let l: &str = text.as_str();
        let r = hooks.hint(l, history);
        assert(call_ensures(H::hint, (hooks, l, history), r));
        let hint = match &r {
            Some(h) => Some(chars_of(h.as_str())),
            None => None,
        };
        assert(opt_chars(hint) == opt_text(r));
        let kept = match &hint {
            Some(h) => Some(copy(h.as_slice())),
            None => None,
        };
        self.known = Some((copy(st.buffer.as_slice()), kept));
        assert(opt_chars(kept) == opt_text(r));
        hint
    }
}

} // verus!
