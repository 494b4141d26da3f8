//! The named edit actions, their readline names, and the default keymap.
use vstd::prelude::*;

use crate::keys::Key;
use crate::text::{chars_of, same};

verus! {

/// A named edit action: every command in the emacs (and vi-insert) keymap,
/// using readline's command names camel-cased.
///
/// Actions may be added, so downstream name tables should match by name with a
/// fallthrough.
#[non_exhaustive]
#[derive(Debug, Clone, Copy, PartialEq, Eq, Structural)]
pub enum EditorAction {
    /// Insert the typed character (with abbreviation expansion on space).
    SelfInsert,
    /// Finish the line and return it (Enter).
    AcceptLine,
    /// Abandon the line (C-c).
    Interrupt,
    /// Delete the character under the cursor; on an empty line, end of file (C-d).
    DeleteCharOrEof,
    /// Delete the character under the cursor (Delete).
    DeleteChar,
    /// Delete the character before the cursor (Backspace).
    BackwardDeleteChar,
    /// Move to the start of the line (C-a, Home).
    BeginningOfLine,
    /// Move to the end of the line; at end, accept the hint (C-e, End).
    EndOfLine,
    /// Move forward one character; at end, accept the hint (C-f, Right).
    ForwardChar,
    /// Move back one character (C-b, Left).
    BackwardChar,
    /// Move forward one alphanumeric word; at end, accept one hint word (M-f).
    ForwardWord,
    /// Move back one alphanumeric word (M-b).
    BackwardWord,
    /// Kill to the end of the line (C-k).
    KillLine,
    /// Kill the whole line (unbound).
    KillWholeLine,
    /// Kill to the start of the line (C-u).
    UnixLineDiscard,
    /// Kill the whitespace-delimited word before the cursor (C-w).
    UnixWordRubout,
    /// Kill the alphanumeric word after the cursor (M-d).
    KillWord,
    /// Kill the alphanumeric word before the cursor (M-Backspace).
    BackwardKillWord,
    /// Delete the spaces and tabs around the cursor; nothing enters the ring (M-\).
    DeleteHorizontalSpace,
    /// Insert the top of the kill ring (C-y).
    Yank,
    /// Rotate the last yank to the previous ring entry (M-y).
    YankPop,
    /// Transpose the characters around the cursor (C-t).
    TransposeChars,
    /// Transpose the words around the cursor (M-t).
    TransposeWords,
    /// Uppercase to the end of the word (M-u).
    UpcaseWord,
    /// Lowercase to the end of the word (M-l).
    DowncaseWord,
    /// Capitalize the word (M-c).
    CapitalizeWord,
    /// Undo the last edit (C-_, C-z).
    Undo,
    /// Undo every edit to this line at once (M-r).
    RevertLine,
    /// Insert the last word of the previous history entry; repeats cycle older entries (M-., M-_).
    InsertLastArgument,
    /// Recall the previous history entry (Up, C-p).
    PreviousHistory,
    /// Recall the next history entry, or the stashed draft (Down, C-n).
    NextHistory,
    /// Jump to the oldest history entry (M-<).
    BeginningOfHistory,
    /// Back to the live draft line (M->).
    EndOfHistory,
    /// Previous history entry with the prefix before the cursor (PageUp, M-p).
    HistorySearchBackward,
    /// Next prefix match, or back to the draft (PageDown, M-n).
    HistorySearchForward,
    /// Enter incremental search, older matches (C-r).
    ReverseSearchHistory,
    /// Enter incremental search, newer matches (C-s).
    ForwardSearchHistory,
    /// Accept the line and pre-load the next read with the history entry after it (C-o).
    OperateAndGetNext,
    /// Clear the screen and repaint the line at the top (C-l).
    ClearScreen,
    /// Complete the word at the cursor: common prefix, candidate list, then menu cycling (Tab).
    Complete,
    /// Insert the first completion candidate immediately; repeats cycle through the rest.
    MenuComplete,
    /// Cycle through the completion candidates backward, from the last (Shift-Tab).
    MenuCompleteBackward,
    /// List the completion candidates without touching the buffer (M-?).
    PossibleCompletions,
    /// Insert every completion candidate, space-separated (M-*).
    InsertCompletions,
    /// Read a character and move to its next occurrence (C-]).
    CharacterSearch,
    /// Read a character and move to its previous occurrence (unbound).
    CharacterSearchBackward,
    /// Insert the next key literally (C-v, C-q).
    QuotedInsert,
    /// Edit the line in the external editor and execute the result (C-x C-e).
    EditAndExecuteCommand,
}

/// What ringing the terminal bell does (readline's `bell-style`).
#[derive(Debug, Clone, Copy, PartialEq, Eq, Structural)]
pub enum BellStyle {
    /// No feedback.
    Silent,
    /// BEL: the terminal's audible beep.
    Audible,
    /// A screen flash (reverse-video flip) instead of a beep.
    Visible,
}

impl Default for BellStyle {
    /// The audible bell, like readline.
    fn default() -> (r: BellStyle)
        ensures
            r == BellStyle::Audible,
    {
        BellStyle::Audible
    }
}

impl EditorAction {
    /// readline's name of the action.
    pub open spec fn named(self) -> Seq<char> {
        match self {
            EditorAction::SelfInsert => "self-insert"@,
            EditorAction::AcceptLine => "accept-line"@,
            EditorAction::Interrupt => "interrupt"@,
            EditorAction::DeleteCharOrEof => "delete-char-or-eof"@,
            EditorAction::DeleteChar => "delete-char"@,
            EditorAction::BackwardDeleteChar => "backward-delete-char"@,
            EditorAction::BeginningOfLine => "beginning-of-line"@,
            EditorAction::EndOfLine => "end-of-line"@,
            EditorAction::ForwardChar => "forward-char"@,
            EditorAction::BackwardChar => "backward-char"@,
            EditorAction::ForwardWord => "forward-word"@,
            EditorAction::BackwardWord => "backward-word"@,
            EditorAction::KillLine => "kill-line"@,
            EditorAction::KillWholeLine => "kill-whole-line"@,
            EditorAction::UnixLineDiscard => "unix-line-discard"@,
            EditorAction::UnixWordRubout => "unix-word-rubout"@,
            EditorAction::KillWord => "kill-word"@,
            EditorAction::BackwardKillWord => "backward-kill-word"@,
            EditorAction::DeleteHorizontalSpace => "delete-horizontal-space"@,
            EditorAction::Yank => "yank"@,
            EditorAction::YankPop => "yank-pop"@,
            EditorAction::TransposeChars => "transpose-chars"@,
            EditorAction::TransposeWords => "transpose-words"@,
            EditorAction::UpcaseWord => "upcase-word"@,
            EditorAction::DowncaseWord => "downcase-word"@,
            EditorAction::CapitalizeWord => "capitalize-word"@,
            EditorAction::Undo => "undo"@,
            EditorAction::RevertLine => "revert-line"@,
            EditorAction::InsertLastArgument => "insert-last-argument"@,
            EditorAction::PreviousHistory => "previous-history"@,
            EditorAction::NextHistory => "next-history"@,
            EditorAction::BeginningOfHistory => "beginning-of-history"@,
            EditorAction::EndOfHistory => "end-of-history"@,
            EditorAction::HistorySearchBackward => "history-search-backward"@,
            EditorAction::HistorySearchForward => "history-search-forward"@,
            EditorAction::ReverseSearchHistory => "reverse-search-history"@,
            EditorAction::ForwardSearchHistory => "forward-search-history"@,
            EditorAction::OperateAndGetNext => "operate-and-get-next"@,
            EditorAction::ClearScreen => "clear-screen"@,
            EditorAction::Complete => "complete"@,
            EditorAction::MenuComplete => "menu-complete"@,
            EditorAction::MenuCompleteBackward => "menu-complete-backward"@,
            EditorAction::PossibleCompletions => "possible-completions"@,
            EditorAction::InsertCompletions => "insert-completions"@,
            EditorAction::CharacterSearch => "character-search"@,
            EditorAction::CharacterSearchBackward => "character-search-backward"@,
            EditorAction::QuotedInsert => "quoted-insert"@,
            EditorAction::EditAndExecuteCommand => "edit-and-execute-command"@,
        }
    }

    /// readline's name of the action (`kill-line`, `menu-complete-backward`).
    pub fn name(&self) -> (r: &'static str)
        ensures
            r@ == self.named(),
    {
        match self {
            EditorAction::SelfInsert => "self-insert",
            EditorAction::AcceptLine => "accept-line",
            EditorAction::Interrupt => "interrupt",
            EditorAction::DeleteCharOrEof => "delete-char-or-eof",
            EditorAction::DeleteChar => "delete-char",
            EditorAction::BackwardDeleteChar => "backward-delete-char",
            EditorAction::BeginningOfLine => "beginning-of-line",
            EditorAction::EndOfLine => "end-of-line",
            EditorAction::ForwardChar => "forward-char",
            EditorAction::BackwardChar => "backward-char",
            EditorAction::ForwardWord => "forward-word",
            EditorAction::BackwardWord => "backward-word",
            EditorAction::KillLine => "kill-line",
            EditorAction::KillWholeLine => "kill-whole-line",
            EditorAction::UnixLineDiscard => "unix-line-discard",
            EditorAction::UnixWordRubout => "unix-word-rubout",
            EditorAction::KillWord => "kill-word",
            EditorAction::BackwardKillWord => "backward-kill-word",
            EditorAction::DeleteHorizontalSpace => "delete-horizontal-space",
            EditorAction::Yank => "yank",
            EditorAction::YankPop => "yank-pop",
            EditorAction::TransposeChars => "transpose-chars",
            EditorAction::TransposeWords => "transpose-words",
            EditorAction::UpcaseWord => "upcase-word",
            EditorAction::DowncaseWord => "downcase-word",
            EditorAction::CapitalizeWord => "capitalize-word",
            EditorAction::Undo => "undo",
            EditorAction::RevertLine => "revert-line",
            EditorAction::InsertLastArgument => "insert-last-argument",
            EditorAction::PreviousHistory => "previous-history",
            EditorAction::NextHistory => "next-history",
            EditorAction::BeginningOfHistory => "beginning-of-history",
            EditorAction::EndOfHistory => "end-of-history",
            EditorAction::HistorySearchBackward => "history-search-backward",
            EditorAction::HistorySearchForward => "history-search-forward",
            EditorAction::ReverseSearchHistory => "reverse-search-history",
            EditorAction::ForwardSearchHistory => "forward-search-history",
            EditorAction::OperateAndGetNext => "operate-and-get-next",
            EditorAction::ClearScreen => "clear-screen",
            EditorAction::Complete => "complete",
            EditorAction::MenuComplete => "menu-complete",
            EditorAction::MenuCompleteBackward => "menu-complete-backward",
            EditorAction::PossibleCompletions => "possible-completions",
            EditorAction::InsertCompletions => "insert-completions",
            EditorAction::CharacterSearch => "character-search",
            EditorAction::CharacterSearchBackward => "character-search-backward",
            EditorAction::QuotedInsert => "quoted-insert",
            EditorAction::EditAndExecuteCommand => "edit-and-execute-command",
        }
    }

    /// The action with a readline name.
    pub fn from_name(name: &str) -> (r: Option<EditorAction>)
        ensures
            match r {
                Some(action) => action.named() == name@,
                None => forall|action: EditorAction| #[trigger] action.named() != name@,
            },
            forall|action: EditorAction| #[trigger] action.named() == name@ ==> r == Some(action),
    {
        let wanted = chars_of(name);
        let all = all_actions();
        let mut i: usize = 0;
        while i < all.len()
            invariant
                i <= all@.len(),
                all@ == every_action(),
                wanted@ == name@,
                forall|k: int| 0 <= k < i ==> (#[trigger] all@[k]).named() != name@,
            decreases all@.len() - i,
        {
            let action = all[i];
            let spelt = chars_of(action.name());
            if same(spelt.as_slice(), wanted.as_slice()) {
                assert forall|other: EditorAction| #[trigger] other.named()
                    == name@ implies other == action by {
                    names_are_distinct(action, other);
                }
                return Some(action);
            }
            i += 1;
        }
        assert forall|action: EditorAction| #[trigger] action.named() != name@ by {
            every_action_listed(action);
            let k = place(action);
            assert(all@[k] == action);
        }
        None
    }
}

/// Every action there is.
pub open spec fn every_action() -> Seq<EditorAction> {
    seq![
        EditorAction::SelfInsert,
        EditorAction::AcceptLine,
        EditorAction::Interrupt,
        EditorAction::DeleteCharOrEof,
        EditorAction::DeleteChar,
        EditorAction::BackwardDeleteChar,
        EditorAction::BeginningOfLine,
        EditorAction::EndOfLine,
        EditorAction::ForwardChar,
        EditorAction::BackwardChar,
        EditorAction::ForwardWord,
        EditorAction::BackwardWord,
        EditorAction::KillLine,
        EditorAction::KillWholeLine,
        EditorAction::UnixLineDiscard,
        EditorAction::UnixWordRubout,
        EditorAction::KillWord,
        EditorAction::BackwardKillWord,
        EditorAction::DeleteHorizontalSpace,
        EditorAction::Yank,
        EditorAction::YankPop,
        EditorAction::TransposeChars,
        EditorAction::TransposeWords,
        EditorAction::UpcaseWord,
        EditorAction::DowncaseWord,
        EditorAction::CapitalizeWord,
        EditorAction::Undo,
        EditorAction::RevertLine,
        EditorAction::InsertLastArgument,
        EditorAction::PreviousHistory,
        EditorAction::NextHistory,
        EditorAction::BeginningOfHistory,
        EditorAction::EndOfHistory,
        EditorAction::HistorySearchBackward,
        EditorAction::HistorySearchForward,
        EditorAction::ReverseSearchHistory,
        EditorAction::ForwardSearchHistory,
        EditorAction::OperateAndGetNext,
        EditorAction::ClearScreen,
        EditorAction::Complete,
        EditorAction::MenuComplete,
        EditorAction::MenuCompleteBackward,
        EditorAction::PossibleCompletions,
        EditorAction::InsertCompletions,
        EditorAction::CharacterSearch,
        EditorAction::CharacterSearchBackward,
        EditorAction::QuotedInsert,
        EditorAction::EditAndExecuteCommand,
    ]
}

/// Every action there is.
pub fn all_actions() -> (r: Vec<EditorAction>)
    ensures
        r@ == every_action(),
{
    let r = vec![
        EditorAction::SelfInsert,
        EditorAction::AcceptLine,
        EditorAction::Interrupt,
        EditorAction::DeleteCharOrEof,
        EditorAction::DeleteChar,
        EditorAction::BackwardDeleteChar,
        EditorAction::BeginningOfLine,
        EditorAction::EndOfLine,
        EditorAction::ForwardChar,
        EditorAction::BackwardChar,
        EditorAction::ForwardWord,
        EditorAction::BackwardWord,
        EditorAction::KillLine,
        EditorAction::KillWholeLine,
        EditorAction::UnixLineDiscard,
        EditorAction::UnixWordRubout,
        EditorAction::KillWord,
        EditorAction::BackwardKillWord,
        EditorAction::DeleteHorizontalSpace,
        EditorAction::Yank,
        EditorAction::YankPop,
        EditorAction::TransposeChars,
        EditorAction::TransposeWords,
        EditorAction::UpcaseWord,
        EditorAction::DowncaseWord,
        EditorAction::CapitalizeWord,
        EditorAction::Undo,
        EditorAction::RevertLine,
        EditorAction::InsertLastArgument,
        EditorAction::PreviousHistory,
        EditorAction::NextHistory,
        EditorAction::BeginningOfHistory,
        EditorAction::EndOfHistory,
        EditorAction::HistorySearchBackward,
        EditorAction::HistorySearchForward,
        EditorAction::ReverseSearchHistory,
        EditorAction::ForwardSearchHistory,
        EditorAction::OperateAndGetNext,
        EditorAction::ClearScreen,
        EditorAction::Complete,
        EditorAction::MenuComplete,
        EditorAction::MenuCompleteBackward,
        EditorAction::PossibleCompletions,
        EditorAction::InsertCompletions,
        EditorAction::CharacterSearch,
        EditorAction::CharacterSearchBackward,
        EditorAction::QuotedInsert,
        EditorAction::EditAndExecuteCommand,
    ];
    assert(r@ =~= every_action());
    r
}

/// Where an action stands in [`every_action`].
spec fn place(action: EditorAction) -> int {
    match action {
        EditorAction::SelfInsert => 0,
        EditorAction::AcceptLine => 1,
        EditorAction::Interrupt => 2,
        EditorAction::DeleteCharOrEof => 3,
        EditorAction::DeleteChar => 4,
        EditorAction::BackwardDeleteChar => 5,
        EditorAction::BeginningOfLine => 6,
        EditorAction::EndOfLine => 7,
        EditorAction::ForwardChar => 8,
        EditorAction::BackwardChar => 9,
        EditorAction::ForwardWord => 10,
        EditorAction::BackwardWord => 11,
        EditorAction::KillLine => 12,
        EditorAction::KillWholeLine => 13,
        EditorAction::UnixLineDiscard => 14,
        EditorAction::UnixWordRubout => 15,
        EditorAction::KillWord => 16,
        EditorAction::BackwardKillWord => 17,
        EditorAction::DeleteHorizontalSpace => 18,
        EditorAction::Yank => 19,
        EditorAction::YankPop => 20,
        EditorAction::TransposeChars => 21,
        EditorAction::TransposeWords => 22,
        EditorAction::UpcaseWord => 23,
        EditorAction::DowncaseWord => 24,
        EditorAction::CapitalizeWord => 25,
        EditorAction::Undo => 26,
        EditorAction::RevertLine => 27,
        EditorAction::InsertLastArgument => 28,
        EditorAction::PreviousHistory => 29,
        EditorAction::NextHistory => 30,
        EditorAction::BeginningOfHistory => 31,
        EditorAction::EndOfHistory => 32,
        EditorAction::HistorySearchBackward => 33,
        EditorAction::HistorySearchForward => 34,
        EditorAction::ReverseSearchHistory => 35,
        EditorAction::ForwardSearchHistory => 36,
        EditorAction::OperateAndGetNext => 37,
        EditorAction::ClearScreen => 38,
        EditorAction::Complete => 39,
        EditorAction::MenuComplete => 40,
        EditorAction::MenuCompleteBackward => 41,
        EditorAction::PossibleCompletions => 42,
        EditorAction::InsertCompletions => 43,
        EditorAction::CharacterSearch => 44,
        EditorAction::CharacterSearchBackward => 45,
        EditorAction::QuotedInsert => 46,
        EditorAction::EditAndExecuteCommand => 47,
    }
}

proof fn every_action_listed(action: EditorAction)
    ensures
        0 <= place(action) < every_action().len(),
        every_action()[place(action)] == action,
{
}

/// The action that a readline name tells, by its length and a few letters.
spec fn told_by(s: Seq<char>) -> EditorAction {
    if s.len() == 4 {
        if s[0] == 'u' {
            EditorAction::Undo
        } else {
            EditorAction::Yank
        }
    } else if s.len() == 8 {
        if s[0] == 'c' {
            EditorAction::Complete
        } else {
            EditorAction::YankPop
        }
    } else if s.len() == 9 {
        if s[5] == 'l' {
            EditorAction::KillLine
        } else if s[5] == 'r' {
            EditorAction::Interrupt
        } else {
            EditorAction::KillWord
        }
    } else if s.len() == 11 {
        if s[0] == 'a' {
            EditorAction::AcceptLine
        } else if s[0] == 'd' {
            EditorAction::DeleteChar
        } else if s[0] == 'e' {
            EditorAction::EndOfLine
        } else if s[0] == 'r' {
            EditorAction::RevertLine
        } else if s[0] == 's' {
            EditorAction::SelfInsert
        } else {
            EditorAction::UpcaseWord
        }
    } else if s.len() == 12 {
        if s[8] == 'c' {
            EditorAction::ForwardChar
        } else if s[8] == 'r' {
            EditorAction::ClearScreen
        } else if s[8] == 't' {
            EditorAction::NextHistory
        } else {
            EditorAction::ForwardWord
        }
    } else if s.len() == 13 {
        if s[0] == 'b' {
            if s[9] == 'c' {
                EditorAction::BackwardChar
            } else {
                EditorAction::BackwardWord
            }
        } else if s[0] == 'd' {
            EditorAction::DowncaseWord
        } else if s[0] == 'm' {
            EditorAction::MenuComplete
        } else {
            EditorAction::QuotedInsert
        }
    } else if s.len() == 14 {
        EditorAction::EndOfHistory
    } else if s.len() == 15 {
        if s[11] == 'h' {
            EditorAction::TransposeChars
        } else if s[11] == 'l' {
            EditorAction::KillWholeLine
        } else if s[11] == 'o' {
            EditorAction::TransposeWords
        } else {
            EditorAction::CapitalizeWord
        }
    } else if s.len() == 16 {
        if s[0] == 'c' {
            EditorAction::CharacterSearch
        } else if s[0] == 'p' {
            EditorAction::PreviousHistory
        } else {
            EditorAction::UnixWordRubout
        }
    } else if s.len() == 17 {
        if s[0] == 'b' {
            EditorAction::BeginningOfLine
        } else {
            EditorAction::UnixLineDiscard
        }
    } else if s.len() == 18 {
        if s[0] == 'b' {
            EditorAction::BackwardKillWord
        } else if s[0] == 'd' {
            EditorAction::DeleteCharOrEof
        } else {
            EditorAction::InsertCompletions
        }
    } else if s.len() == 20 {
        if s[1] == 'a' {
            EditorAction::BackwardDeleteChar
        } else if s[1] == 'e' {
            EditorAction::BeginningOfHistory
        } else if s[1] == 'n' {
            EditorAction::InsertLastArgument
        } else if s[1] == 'o' {
            EditorAction::PossibleCompletions
        } else {
            EditorAction::OperateAndGetNext
        }
    } else if s.len() == 22 {
        if s[0] == 'f' {
            EditorAction::ForwardSearchHistory
        } else if s[0] == 'h' {
            EditorAction::HistorySearchForward
        } else if s[0] == 'm' {
            EditorAction::MenuCompleteBackward
        } else {
            EditorAction::ReverseSearchHistory
        }
    } else if s.len() == 23 {
        if s[0] == 'd' {
            EditorAction::DeleteHorizontalSpace
        } else {
            EditorAction::HistorySearchBackward
        }
    } else if s.len() == 24 {
        EditorAction::EditAndExecuteCommand
    } else {
        EditorAction::CharacterSearchBackward
    }
}

proof fn told_by_own_name(action: EditorAction)
    ensures
        told_by(action.named()) == action,
{
    match action {
        EditorAction::SelfInsert => {
            reveal_strlit("self-insert");
        },
        EditorAction::AcceptLine => {
            reveal_strlit("accept-line");
        },
        EditorAction::Interrupt => {
            reveal_strlit("interrupt");
        },
        EditorAction::DeleteCharOrEof => {
            reveal_strlit("delete-char-or-eof");
        },
        EditorAction::DeleteChar => {
            reveal_strlit("delete-char");
        },
        EditorAction::BackwardDeleteChar => {
            reveal_strlit("backward-delete-char");
        },
        EditorAction::BeginningOfLine => {
            reveal_strlit("beginning-of-line");
        },
        EditorAction::EndOfLine => {
            reveal_strlit("end-of-line");
        },
        EditorAction::ForwardChar => {
            reveal_strlit("forward-char");
        },
        EditorAction::BackwardChar => {
            reveal_strlit("backward-char");
        },
        EditorAction::ForwardWord => {
            reveal_strlit("forward-word");
        },
        EditorAction::BackwardWord => {
            reveal_strlit("backward-word");
        },
        EditorAction::KillLine => {
            reveal_strlit("kill-line");
        },
        EditorAction::KillWholeLine => {
            reveal_strlit("kill-whole-line");
        },
        EditorAction::UnixLineDiscard => {
            reveal_strlit("unix-line-discard");
        },
        EditorAction::UnixWordRubout => {
            reveal_strlit("unix-word-rubout");
        },
        EditorAction::KillWord => {
            reveal_strlit("kill-word");
        },
        EditorAction::BackwardKillWord => {
            reveal_strlit("backward-kill-word");
        },
        EditorAction::DeleteHorizontalSpace => {
            reveal_strlit("delete-horizontal-space");
        },
        EditorAction::Yank => {
            reveal_strlit("yank");
        },
        EditorAction::YankPop => {
            reveal_strlit("yank-pop");
        },
        EditorAction::TransposeChars => {
            reveal_strlit("transpose-chars");
        },
        EditorAction::TransposeWords => {
            reveal_strlit("transpose-words");
        },
        EditorAction::UpcaseWord => {
            reveal_strlit("upcase-word");
        },
        EditorAction::DowncaseWord => {
            reveal_strlit("downcase-word");
        },
        EditorAction::CapitalizeWord => {
            reveal_strlit("capitalize-word");
        },
        EditorAction::Undo => {
            reveal_strlit("undo");
        },
        EditorAction::RevertLine => {
            reveal_strlit("revert-line");
        },
        EditorAction::InsertLastArgument => {
            reveal_strlit("insert-last-argument");
        },
        EditorAction::PreviousHistory => {
            reveal_strlit("previous-history");
        },
        EditorAction::NextHistory => {
            reveal_strlit("next-history");
        },
        EditorAction::BeginningOfHistory => {
            reveal_strlit("beginning-of-history");
        },
        EditorAction::EndOfHistory => {
            reveal_strlit("end-of-history");
        },
        EditorAction::HistorySearchBackward => {
            reveal_strlit("history-search-backward");
        },
        EditorAction::HistorySearchForward => {
            reveal_strlit("history-search-forward");
        },
        EditorAction::ReverseSearchHistory => {
            reveal_strlit("reverse-search-history");
        },
        EditorAction::ForwardSearchHistory => {
            reveal_strlit("forward-search-history");
        },
        EditorAction::OperateAndGetNext => {
            reveal_strlit("operate-and-get-next");
        },
        EditorAction::ClearScreen => {
            reveal_strlit("clear-screen");
        },
        EditorAction::Complete => {
            reveal_strlit("complete");
        },
        EditorAction::MenuComplete => {
            reveal_strlit("menu-complete");
        },
        EditorAction::MenuCompleteBackward => {
            reveal_strlit("menu-complete-backward");
        },
        EditorAction::PossibleCompletions => {
            reveal_strlit("possible-completions");
        },
        EditorAction::InsertCompletions => {
            reveal_strlit("insert-completions");
        },
        EditorAction::CharacterSearch => {
            reveal_strlit("character-search");
        },
        EditorAction::CharacterSearchBackward => {
            reveal_strlit("character-search-backward");
        },
        EditorAction::QuotedInsert => {
            reveal_strlit("quoted-insert");
        },
        EditorAction::EditAndExecuteCommand => {
            reveal_strlit("edit-and-execute-command");
        },
    }
}

/// No two actions share a name, so [`EditorAction::from_name`] undoes
/// [`EditorAction::name`].
pub proof fn names_are_distinct(a: EditorAction, b: EditorAction)
    requires
        a.named() == b.named(),
    ensures
        a == b,
{
    told_by_own_name(a);
    told_by_own_name(b);
}

/// The default emacs and vi-insert keymap, in listing order. Character keys
/// (self-insert) and the C-x chord prefix are not rows.
pub open spec fn default_keymap() -> Seq<(Key, EditorAction)> {
    seq![
        (Key::Enter, EditorAction::AcceptLine),
        (Key::Ctrl('c'), EditorAction::Interrupt),
        (Key::Ctrl('d'), EditorAction::DeleteCharOrEof),
        (Key::Delete, EditorAction::DeleteChar),
        (Key::Backspace, EditorAction::BackwardDeleteChar),
        (Key::Home, EditorAction::BeginningOfLine),
        (Key::Ctrl('a'), EditorAction::BeginningOfLine),
        (Key::End, EditorAction::EndOfLine),
        (Key::Ctrl('e'), EditorAction::EndOfLine),
        (Key::Right, EditorAction::ForwardChar),
        (Key::Ctrl('f'), EditorAction::ForwardChar),
        (Key::Left, EditorAction::BackwardChar),
        (Key::Ctrl('b'), EditorAction::BackwardChar),
        (Key::WordRight, EditorAction::ForwardWord),
        (Key::Alt('f'), EditorAction::ForwardWord),
        (Key::WordLeft, EditorAction::BackwardWord),
        (Key::Alt('b'), EditorAction::BackwardWord),
        (Key::Ctrl('k'), EditorAction::KillLine),
        (Key::Ctrl('u'), EditorAction::UnixLineDiscard),
        (Key::Ctrl('w'), EditorAction::UnixWordRubout),
        (Key::Alt('d'), EditorAction::KillWord),
        (Key::AltBackspace, EditorAction::BackwardKillWord),
        (Key::Alt('\\'), EditorAction::DeleteHorizontalSpace),
        (Key::Ctrl('y'), EditorAction::Yank),
        (Key::Alt('y'), EditorAction::YankPop),
        (Key::Ctrl('t'), EditorAction::TransposeChars),
        (Key::Alt('t'), EditorAction::TransposeWords),
        (Key::Alt('u'), EditorAction::UpcaseWord),
        (Key::Alt('l'), EditorAction::DowncaseWord),
        (Key::Alt('c'), EditorAction::CapitalizeWord),
        (Key::Ctrl('_'), EditorAction::Undo),
        (Key::Ctrl('z'), EditorAction::Undo),
        (Key::Alt('r'), EditorAction::RevertLine),
        (Key::Alt('.'), EditorAction::InsertLastArgument),
        (Key::Alt('_'), EditorAction::InsertLastArgument),
        (Key::Up, EditorAction::PreviousHistory),
        (Key::Ctrl('p'), EditorAction::PreviousHistory),
        (Key::Down, EditorAction::NextHistory),
        (Key::Ctrl('n'), EditorAction::NextHistory),
        (Key::Alt('<'), EditorAction::BeginningOfHistory),
        (Key::Alt('>'), EditorAction::EndOfHistory),
        (Key::PageUp, EditorAction::HistorySearchBackward),
        (Key::Alt('p'), EditorAction::HistorySearchBackward),
        (Key::PageDown, EditorAction::HistorySearchForward),
        (Key::Alt('n'), EditorAction::HistorySearchForward),
        (Key::Ctrl('r'), EditorAction::ReverseSearchHistory),
        (Key::Ctrl('s'), EditorAction::ForwardSearchHistory),
        (Key::Ctrl('o'), EditorAction::OperateAndGetNext),
        (Key::Ctrl('l'), EditorAction::ClearScreen),
        (Key::Tab, EditorAction::Complete),
        (Key::ShiftTab, EditorAction::MenuCompleteBackward),
        (Key::Alt('?'), EditorAction::PossibleCompletions),
        (Key::Alt('*'), EditorAction::InsertCompletions),
        (Key::Ctrl(']'), EditorAction::CharacterSearch),
        (Key::Ctrl('v'), EditorAction::QuotedInsert),
        (Key::Ctrl('q'), EditorAction::QuotedInsert),
    ]
}

/// The default emacs and vi-insert keymap, in listing order.
pub fn default_bindings() -> (r: Vec<(Key, EditorAction)>)
    ensures
        r@ == default_keymap(),
{
    let r = vec![
        (Key::Enter, EditorAction::AcceptLine),
        (Key::Ctrl('c'), EditorAction::Interrupt),
        (Key::Ctrl('d'), EditorAction::DeleteCharOrEof),
        (Key::Delete, EditorAction::DeleteChar),
        (Key::Backspace, EditorAction::BackwardDeleteChar),
        (Key::Home, EditorAction::BeginningOfLine),
        (Key::Ctrl('a'), EditorAction::BeginningOfLine),
        (Key::End, EditorAction::EndOfLine),
        (Key::Ctrl('e'), EditorAction::EndOfLine),
        (Key::Right, EditorAction::ForwardChar),
        (Key::Ctrl('f'), EditorAction::ForwardChar),
        (Key::Left, EditorAction::BackwardChar),
        (Key::Ctrl('b'), EditorAction::BackwardChar),
        (Key::WordRight, EditorAction::ForwardWord),
        (Key::Alt('f'), EditorAction::ForwardWord),
        (Key::WordLeft, EditorAction::BackwardWord),
        (Key::Alt('b'), EditorAction::BackwardWord),
        (Key::Ctrl('k'), EditorAction::KillLine),
        (Key::Ctrl('u'), EditorAction::UnixLineDiscard),
        (Key::Ctrl('w'), EditorAction::UnixWordRubout),
        (Key::Alt('d'), EditorAction::KillWord),
        (Key::AltBackspace, EditorAction::BackwardKillWord),
        (Key::Alt('\\'), EditorAction::DeleteHorizontalSpace),
        (Key::Ctrl('y'), EditorAction::Yank),
        (Key::Alt('y'), EditorAction::YankPop),
        (Key::Ctrl('t'), EditorAction::TransposeChars),
        (Key::Alt('t'), EditorAction::TransposeWords),
        (Key::Alt('u'), EditorAction::UpcaseWord),
        (Key::Alt('l'), EditorAction::DowncaseWord),
        (Key::Alt('c'), EditorAction::CapitalizeWord),
        (Key::Ctrl('_'), EditorAction::Undo),
        (Key::Ctrl('z'), EditorAction::Undo),
        (Key::Alt('r'), EditorAction::RevertLine),
        (Key::Alt('.'), EditorAction::InsertLastArgument),
        (Key::Alt('_'), EditorAction::InsertLastArgument),
        (Key::Up, EditorAction::PreviousHistory),
        (Key::Ctrl('p'), EditorAction::PreviousHistory),
        (Key::Down, EditorAction::NextHistory),
        (Key::Ctrl('n'), EditorAction::NextHistory),
        (Key::Alt('<'), EditorAction::BeginningOfHistory),
        (Key::Alt('>'), EditorAction::EndOfHistory),
        (Key::PageUp, EditorAction::HistorySearchBackward),
        (Key::Alt('p'), EditorAction::HistorySearchBackward),
        (Key::PageDown, EditorAction::HistorySearchForward),
        (Key::Alt('n'), EditorAction::HistorySearchForward),
        (Key::Ctrl('r'), EditorAction::ReverseSearchHistory),
        (Key::Ctrl('s'), EditorAction::ForwardSearchHistory),
        (Key::Ctrl('o'), EditorAction::OperateAndGetNext),
        (Key::Ctrl('l'), EditorAction::ClearScreen),
        (Key::Tab, EditorAction::Complete),
        (Key::ShiftTab, EditorAction::MenuCompleteBackward),
        (Key::Alt('?'), EditorAction::PossibleCompletions),
        (Key::Alt('*'), EditorAction::InsertCompletions),
        (Key::Ctrl(']'), EditorAction::CharacterSearch),
        (Key::Ctrl('v'), EditorAction::QuotedInsert),
        (Key::Ctrl('q'), EditorAction::QuotedInsert),
    ];
    assert(r@ =~= default_keymap());
    r
}

/// The default action of a key: character keys self-insert.
pub open spec fn default_of(key: Key) -> Option<EditorAction> {
    match key {
        Key::Char(_) => Some(EditorAction::SelfInsert),
        Key::Enter => Some(EditorAction::AcceptLine),
        Key::Delete => Some(EditorAction::DeleteChar),
        Key::Backspace => Some(EditorAction::BackwardDeleteChar),
        Key::Home => Some(EditorAction::BeginningOfLine),
        Key::End => Some(EditorAction::EndOfLine),
        Key::Right => Some(EditorAction::ForwardChar),
        Key::Left => Some(EditorAction::BackwardChar),
        Key::WordRight => Some(EditorAction::ForwardWord),
        Key::WordLeft => Some(EditorAction::BackwardWord),
        Key::AltBackspace => Some(EditorAction::BackwardKillWord),
        Key::Up => Some(EditorAction::PreviousHistory),
        Key::Down => Some(EditorAction::NextHistory),
        Key::PageUp => Some(EditorAction::HistorySearchBackward),
        Key::PageDown => Some(EditorAction::HistorySearchForward),
        Key::Tab => Some(EditorAction::Complete),
        Key::ShiftTab => Some(EditorAction::MenuCompleteBackward),
        Key::Ctrl(c) => {
            if c == 'c' {
                Some(EditorAction::Interrupt)
            } else if c == 'd' {
                Some(EditorAction::DeleteCharOrEof)
            } else if c == 'a' {
                Some(EditorAction::BeginningOfLine)
            } else if c == 'e' {
                Some(EditorAction::EndOfLine)
            } else if c == 'f' {
                Some(EditorAction::ForwardChar)
            } else if c == 'b' {
                Some(EditorAction::BackwardChar)
            } else if c == 'k' {
                Some(EditorAction::KillLine)
            } else if c == 'u' {
                Some(EditorAction::UnixLineDiscard)
            } else if c == 'w' {
                Some(EditorAction::UnixWordRubout)
            } else if c == 'y' {
                Some(EditorAction::Yank)
            } else if c == 't' {
                Some(EditorAction::TransposeChars)
            } else if c == '_' {
                Some(EditorAction::Undo)
            } else if c == 'z' {
                Some(EditorAction::Undo)
            } else if c == 'p' {
                Some(EditorAction::PreviousHistory)
            } else if c == 'n' {
                Some(EditorAction::NextHistory)
            } else if c == 'r' {
                Some(EditorAction::ReverseSearchHistory)
            } else if c == 's' {
                Some(EditorAction::ForwardSearchHistory)
            } else if c == 'o' {
                Some(EditorAction::OperateAndGetNext)
            } else if c == 'l' {
                Some(EditorAction::ClearScreen)
            } else if c == ']' {
                Some(EditorAction::CharacterSearch)
            } else if c == 'v' {
                Some(EditorAction::QuotedInsert)
            } else if c == 'q' {
                Some(EditorAction::QuotedInsert)
            } else {
                None
            }
        },
        Key::Alt(c) => {
            if c == 'f' {
                Some(EditorAction::ForwardWord)
            } else if c == 'b' {
                Some(EditorAction::BackwardWord)
            } else if c == 'd' {
                Some(EditorAction::KillWord)
            } else if c == '\\' {
                Some(EditorAction::DeleteHorizontalSpace)
            } else if c == 'y' {
                Some(EditorAction::YankPop)
            } else if c == 't' {
                Some(EditorAction::TransposeWords)
            } else if c == 'u' {
                Some(EditorAction::UpcaseWord)
            } else if c == 'l' {
                Some(EditorAction::DowncaseWord)
            } else if c == 'c' {
                Some(EditorAction::CapitalizeWord)
            } else if c == 'r' {
                Some(EditorAction::RevertLine)
            } else if c == '.' {
                Some(EditorAction::InsertLastArgument)
            } else if c == '_' {
                Some(EditorAction::InsertLastArgument)
            } else if c == '<' {
                Some(EditorAction::BeginningOfHistory)
            } else if c == '>' {
                Some(EditorAction::EndOfHistory)
            } else if c == 'p' {
                Some(EditorAction::HistorySearchBackward)
            } else if c == 'n' {
                Some(EditorAction::HistorySearchForward)
            } else if c == '?' {
                Some(EditorAction::PossibleCompletions)
            } else if c == '*' {
                Some(EditorAction::InsertCompletions)
            } else {
                None
            }
        },
        _ => None,
    }
}

/// The default action for a key: character keys self-insert, everything else
/// comes from the default keymap.
pub fn default_action(key: &Key) -> (r: Option<EditorAction>)
    ensures
        r == default_of(*key),
{
    match *key {
        Key::Char(_) => Some(EditorAction::SelfInsert),
        Key::Enter => Some(EditorAction::AcceptLine),
        Key::Delete => Some(EditorAction::DeleteChar),
        Key::Backspace => Some(EditorAction::BackwardDeleteChar),
        Key::Home => Some(EditorAction::BeginningOfLine),
        Key::End => Some(EditorAction::EndOfLine),
        Key::Right => Some(EditorAction::ForwardChar),
        Key::Left => Some(EditorAction::BackwardChar),
        Key::WordRight => Some(EditorAction::ForwardWord),
        Key::WordLeft => Some(EditorAction::BackwardWord),
        Key::AltBackspace => Some(EditorAction::BackwardKillWord),
        Key::Up => Some(EditorAction::PreviousHistory),
        Key::Down => Some(EditorAction::NextHistory),
        Key::PageUp => Some(EditorAction::HistorySearchBackward),
        Key::PageDown => Some(EditorAction::HistorySearchForward),
        Key::Tab => Some(EditorAction::Complete),
        Key::ShiftTab => Some(EditorAction::MenuCompleteBackward),
        Key::Ctrl(c) => match c {
            'c' => Some(EditorAction::Interrupt),
            'd' => Some(EditorAction::DeleteCharOrEof),
            'a' => Some(EditorAction::BeginningOfLine),
            'e' => Some(EditorAction::EndOfLine),
            'f' => Some(EditorAction::ForwardChar),
            'b' => Some(EditorAction::BackwardChar),
            'k' => Some(EditorAction::KillLine),
            'u' => Some(EditorAction::UnixLineDiscard),
            'w' => Some(EditorAction::UnixWordRubout),
            'y' => Some(EditorAction::Yank),
            't' => Some(EditorAction::TransposeChars),
            '_' => Some(EditorAction::Undo),
            'z' => Some(EditorAction::Undo),
            'p' => Some(EditorAction::PreviousHistory),
            'n' => Some(EditorAction::NextHistory),
            'r' => Some(EditorAction::ReverseSearchHistory),
            's' => Some(EditorAction::ForwardSearchHistory),
            'o' => Some(EditorAction::OperateAndGetNext),
            'l' => Some(EditorAction::ClearScreen),
            ']' => Some(EditorAction::CharacterSearch),
            'v' => Some(EditorAction::QuotedInsert),
            'q' => Some(EditorAction::QuotedInsert),
            _ => None,
        },
        Key::Alt(c) => match c {
            'f' => Some(EditorAction::ForwardWord),
            'b' => Some(EditorAction::BackwardWord),
            'd' => Some(EditorAction::KillWord),
            '\\' => Some(EditorAction::DeleteHorizontalSpace),
            'y' => Some(EditorAction::YankPop),
            't' => Some(EditorAction::TransposeWords),
            'u' => Some(EditorAction::UpcaseWord),
            'l' => Some(EditorAction::DowncaseWord),
            'c' => Some(EditorAction::CapitalizeWord),
            'r' => Some(EditorAction::RevertLine),
            '.' => Some(EditorAction::InsertLastArgument),
            '_' => Some(EditorAction::InsertLastArgument),
            '<' => Some(EditorAction::BeginningOfHistory),
            '>' => Some(EditorAction::EndOfHistory),
            'p' => Some(EditorAction::HistorySearchBackward),
            'n' => Some(EditorAction::HistorySearchForward),
            '?' => Some(EditorAction::PossibleCompletions),
            '*' => Some(EditorAction::InsertCompletions),
            _ => None,
        },
        _ => None,
    }
}

/// Dispatch and listing agree: the default keymap lists exactly the keys, other
/// than characters, that have a default action, each with that action.
pub proof fn keymap_lists_defaults(key: Key, action: EditorAction)
    ensures
        default_keymap().contains((key, action)) <==> default_of(key) == Some(action)
            && !(key is Char),
{
    let all = default_keymap();
    if all.contains((key, action)) {
        let i = choose|i: int| 0 <= i < all.len() && all[i] == (key, action);
    }
    if default_of(key) == Some(action) && !(key is Char) {
        match key {
            Key::Enter => assert(all[0] == (key, action)),
            Key::Delete => assert(all[3] == (key, action)),
            Key::Backspace => assert(all[4] == (key, action)),
            Key::Home => assert(all[5] == (key, action)),
            Key::End => assert(all[7] == (key, action)),
            Key::Right => assert(all[9] == (key, action)),
            Key::Left => assert(all[11] == (key, action)),
            Key::WordRight => assert(all[13] == (key, action)),
            Key::WordLeft => assert(all[15] == (key, action)),
            Key::AltBackspace => assert(all[21] == (key, action)),
            Key::Up => assert(all[35] == (key, action)),
            Key::Down => assert(all[37] == (key, action)),
            Key::PageUp => assert(all[41] == (key, action)),
            Key::PageDown => assert(all[43] == (key, action)),
            Key::Tab => assert(all[49] == (key, action)),
            Key::ShiftTab => assert(all[50] == (key, action)),
            Key::Ctrl(c) => {
                if c == 'c' {
                    assert(all[1] == (key, action));
                }
                if c == 'd' {
                    assert(all[2] == (key, action));
                }
                if c == 'a' {
                    assert(all[6] == (key, action));
                }
                if c == 'e' {
                    assert(all[8] == (key, action));
                }
                if c == 'f' {
                    assert(all[10] == (key, action));
                }
                if c == 'b' {
                    assert(all[12] == (key, action));
                }
                if c == 'k' {
                    assert(all[17] == (key, action));
                }
                if c == 'u' {
                    assert(all[18] == (key, action));
                }
                if c == 'w' {
                    assert(all[19] == (key, action));
                }
                if c == 'y' {
                    assert(all[23] == (key, action));
                }
                if c == 't' {
                    assert(all[25] == (key, action));
                }
                if c == '_' {
                    assert(all[30] == (key, action));
                }
                if c == 'z' {
                    assert(all[31] == (key, action));
                }
                if c == 'p' {
                    assert(all[36] == (key, action));
                }
                if c == 'n' {
                    assert(all[38] == (key, action));
                }
                if c == 'r' {
                    assert(all[45] == (key, action));
                }
                if c == 's' {
                    assert(all[46] == (key, action));
                }
                if c == 'o' {
                    assert(all[47] == (key, action));
                }
                if c == 'l' {
                    assert(all[48] == (key, action));
                }
                if c == ']' {
                    assert(all[53] == (key, action));
                }
                if c == 'v' {
                    assert(all[54] == (key, action));
                }
                if c == 'q' {
                    assert(all[55] == (key, action));
                }
            },
            Key::Alt(c) => {
                if c == 'f' {
                    assert(all[14] == (key, action));
                }
                if c == 'b' {
                    assert(all[16] == (key, action));
                }
                if c == 'd' {
                    assert(all[20] == (key, action));
                }
                if c == '\\' {
                    assert(all[22] == (key, action));
                }
                if c == 'y' {
                    assert(all[24] == (key, action));
                }
                if c == 't' {
                    assert(all[26] == (key, action));
                }
                if c == 'u' {
                    assert(all[27] == (key, action));
                }
                if c == 'l' {
                    assert(all[28] == (key, action));
                }
                if c == 'c' {
                    assert(all[29] == (key, action));
                }
                if c == 'r' {
                    assert(all[32] == (key, action));
                }
                if c == '.' {
                    assert(all[33] == (key, action));
                }
                if c == '_' {
                    assert(all[34] == (key, action));
                }
                if c == '<' {
                    assert(all[39] == (key, action));
                }
                if c == '>' {
                    assert(all[40] == (key, action));
                }
                if c == 'p' {
                    assert(all[42] == (key, action));
                }
                if c == 'n' {
                    assert(all[44] == (key, action));
                }
                if c == '?' {
                    assert(all[51] == (key, action));
                }
                if c == '*' {
                    assert(all[52] == (key, action));
                }
            },
            _ => {},
        }
    }
}

/// The row of a key in the default keymap.
spec fn row_of(key: Key) -> int {
    match key {
        Key::Enter => 0,
        Key::Delete => 3,
        Key::Backspace => 4,
        Key::Home => 5,
        Key::End => 7,
        Key::Right => 9,
        Key::Left => 11,
        Key::WordRight => 13,
        Key::WordLeft => 15,
        Key::AltBackspace => 21,
        Key::Up => 35,
        Key::Down => 37,
        Key::PageUp => 41,
        Key::PageDown => 43,
        Key::Tab => 49,
        Key::ShiftTab => 50,
        Key::Ctrl(c) => {
            if c == 'c' {
                1
            } else if c == 'd' {
                2
            } else if c == 'a' {
                6
            } else if c == 'e' {
                8
            } else if c == 'f' {
                10
            } else if c == 'b' {
                12
            } else if c == 'k' {
                17
            } else if c == 'u' {
                18
            } else if c == 'w' {
                19
            } else if c == 'y' {
                23
            } else if c == 't' {
                25
            } else if c == '_' {
                30
            } else if c == 'z' {
                31
            } else if c == 'p' {
                36
            } else if c == 'n' {
                38
            } else if c == 'r' {
                45
            } else if c == 's' {
                46
            } else if c == 'o' {
                47
            } else if c == 'l' {
                48
            } else if c == ']' {
                53
            } else if c == 'v' {
                54
            } else if c == 'q' {
                55
            } else {
                -1
            }
        },
        Key::Alt(c) => {
            if c == 'f' {
                14
            } else if c == 'b' {
                16
            } else if c == 'd' {
                20
            } else if c == '\\' {
                22
            } else if c == 'y' {
                24
            } else if c == 't' {
                26
            } else if c == 'u' {
                27
            } else if c == 'l' {
                28
            } else if c == 'c' {
                29
            } else if c == 'r' {
                32
            } else if c == '.' {
                33
            } else if c == '_' {
                34
            } else if c == '<' {
                39
            } else if c == '>' {
                40
            } else if c == 'p' {
                42
            } else if c == 'n' {
                44
            } else if c == '?' {
                51
            } else if c == '*' {
                52
            } else {
                -1
            }
        },
        _ => -1,
    }
}

/// No key has two rows in the default keymap.
pub proof fn default_keys_are_distinct()
    ensures
        forall|i: int, j: int|
            0 <= i < j < default_keymap().len() ==> (#[trigger] default_keymap()[i]).0 != (
            #[trigger] default_keymap()[j]).0,
{
    let all = default_keymap();
    assert forall|i: int| 0 <= i < all.len() implies row_of((#[trigger] all[i]).0) == i by {}
}

} // verus!
