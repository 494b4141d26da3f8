//! Key specs, and the keys that commands have from the start.
use vstd::prelude::*;
use vstd::utf8::encode_utf8;

use crate::actions::{default_of, EditorAction};
use crate::editor::host_rows;
use crate::keys::Key;
use crate::keyspec::{key_named, leading_number, nameable, spec_bytes, spelling_names_key};
use crate::step::Bound;

verus! {

/// The bytes `b`, and then those of the rest, if that stands for some.
pub open spec fn begins_with_bytes(spec: Seq<char>, b: Seq<u8>, rest: Seq<char>) -> bool {
    match spec_bytes(rest) {
        Some(more) => spec_bytes(spec) == Some(b + more),
        None => spec_bytes(spec) is None,
    }
}

/// A spec is read from the left: a plain character is its encoding, `\C-` and a
/// character its control byte (`\C-?` the erase character), and `\M-` an ESC in
/// front of the rest.
pub proof fn characters_control_and_meta(c: char, rest: Seq<char>)
    requires
        c != '\\',
    ensures
        spec_bytes(Seq::empty()) == Some(Seq::<u8>::empty()),
        begins_with_bytes(seq![c] + rest, encode_utf8(seq![c]), rest),
        begins_with_bytes(seq!['\\', 'M', '-'] + rest, seq![0x1b], rest),
        c == '?' ==> begins_with_bytes(seq!['\\', 'C', '-', c] + rest, seq![0x7f], rest),
        c != '?' && (c as u32) < 0x80 ==> begins_with_bytes(
            seq!['\\', 'C', '-', c] + rest,
            seq![(c as u32 % 32) as u8],
            rest,
        ),
        c as u32 >= 0x80 ==> spec_bytes(seq!['\\', 'C', '-', c] + rest) is None,
        begins_with_bytes(seq!['\\', 'C', '-', '\\', '\\'] + rest, seq![0x1c], rest),
{
    let plain = seq![c] + rest;
    assert(plain[0] == c && plain.skip(1) =~= rest);
    let meta = seq!['\\', 'M', '-'] + rest;
    assert(meta[0] == '\\' && meta[1] == 'M' && meta[2] == '-' && meta.skip(3) =~= rest);
    let control = seq!['\\', 'C', '-', c] + rest;
    assert(control[0] == '\\' && control[1] == 'C' && control[2] == '-' && control[3] == c);
    assert(control.skip(4) =~= rest);
    let escaped = seq!['\\', 'C', '-', '\\', '\\'] + rest;
    assert(escaped[0] == '\\' && escaped[1] == 'C' && escaped[2] == '-' && escaped[3] == '\\');
    assert(escaped[4] == '\\' && escaped.skip(5) =~= rest);
}

/// The byte of a letter behind a backslash.
pub open spec fn letter_byte(c: char) -> Option<u8> {
    match c {
        'a' => Some(7),
        'b' => Some(8),
        't' => Some(9),
        'n' => Some(10),
        'v' => Some(11),
        'f' => Some(12),
        'r' => Some(13),
        'e' | 'E' => Some(27),
        '\\' => Some(92),
        'd' => Some(127),
        _ => None,
    }
}

/// A letter behind a backslash is the control character that it is for
/// elsewhere; one that is for none makes the spec no spec.
pub proof fn escapes(c: char, rest: Seq<char>)
    requires
        c != 'C' && c != 'M' && c != 'x',
        !('0' <= c <= '7'),
    ensures
        match letter_byte(c) {
            Some(b) => begins_with_bytes(seq!['\\', c] + rest, seq![b], rest),
            None => spec_bytes(seq!['\\', c] + rest) is None,
        },
        spec_bytes(seq!['\\']) is None,
{
    let spec = seq!['\\', c] + rest;
    assert(spec[0] == '\\' && spec[1] == c && spec.skip(2) =~= rest);
}

/// The value of a hexadecimal digit.
pub open spec fn hex_value(c: char) -> int {
    if '0' <= c <= '9' {
        c as int - '0' as int
    } else if 'a' <= c <= 'f' {
        c as int - 'a' as int + 10
    } else {
        c as int - 'A' as int + 10
    }
}

/// A hexadecimal digit.
pub open spec fn is_hex(c: char) -> bool {
    '0' <= c <= '9' || 'a' <= c <= 'f' || 'A' <= c <= 'F'
}

/// `\x` and one or two hexadecimal digits, or a backslash and one to three octal
/// ones, are the byte of that number; an octal number that is no byte makes the
/// spec no spec.
pub proof fn numbers(a: char, b: char, c: char, rest: Seq<char>)
    ensures
        is_hex(a) && is_hex(b) ==> begins_with_bytes(
            seq!['\\', 'x', a, b] + rest,
            seq![(hex_value(a) * 16 + hex_value(b)) as u8],
            rest,
        ),
        is_hex(a) && (rest.len() == 0 || !is_hex(rest[0])) ==> begins_with_bytes(
            seq!['\\', 'x', a] + rest,
            seq![hex_value(a) as u8],
            rest,
        ),
        '0' <= a <= '7' && '0' <= b <= '7' && '0' <= c <= '7' ==> {
            let v = (a as int - 48) * 64 + (b as int - 48) * 8 + (c as int - 48);
            if v <= 0xff {
                begins_with_bytes(seq!['\\', a, b, c] + rest, seq![v as u8], rest)
            } else {
                spec_bytes(seq!['\\', a, b, c] + rest) is None
            }
        },
        '0' <= a <= '7' && (rest.len() == 0 || !('0' <= rest[0] <= '7')) ==> begins_with_bytes(
            seq!['\\', a] + rest,
            seq![(a as int - 48) as u8],
            rest,
        ),
{
    reveal_with_fuel(leading_number, 4);
    let two = seq!['\\', 'x', a, b] + rest;
    assert(two[0] == '\\' && two[1] == 'x' && two.skip(4) =~= rest);
    assert(two.skip(2)[0] == a && two.skip(2).skip(1)[0] == b);
    let one = seq!['\\', 'x', a] + rest;
    assert(one[0] == '\\' && one[1] == 'x' && one.skip(3) =~= rest);
    assert(one.skip(2)[0] == a && one.skip(2).skip(1) =~= rest);
    let octal = seq!['\\', a, b, c] + rest;
    assert(octal[0] == '\\' && octal[1] == a && octal.skip(4) =~= rest);
    assert(octal.skip(1)[0] == a && octal.skip(1).skip(1)[0] == b && octal.skip(1).skip(1).skip(
        1,
    )[0] == c);
    let short = seq!['\\', a] + rest;
    assert(short[0] == '\\' && short[1] == a && short.skip(2) =~= rest);
    assert(short.skip(1)[0] == a && short.skip(1).skip(1) =~= rest);
}

/// The keys that a command has from the start.
pub open spec fn has_key(action: EditorAction, key: Key) -> bool {
    match action {
        EditorAction::SelfInsert => key is Char,
        EditorAction::AcceptLine => key == Key::Enter,
        EditorAction::Interrupt => key == Key::Ctrl('c'),
        EditorAction::DeleteCharOrEof => key == Key::Ctrl('d'),
        EditorAction::DeleteChar => key == Key::Delete,
        EditorAction::BackwardDeleteChar => key == Key::Backspace,
        EditorAction::BeginningOfLine => key == Key::Ctrl('a') || key == Key::Home,
        EditorAction::EndOfLine => key == Key::Ctrl('e') || key == Key::End,
        EditorAction::ForwardChar => key == Key::Ctrl('f') || key == Key::Right,
        EditorAction::BackwardChar => key == Key::Ctrl('b') || key == Key::Left,
        EditorAction::ForwardWord => key == Key::Alt('f') || key == Key::WordRight,
        EditorAction::BackwardWord => key == Key::Alt('b') || key == Key::WordLeft,
        EditorAction::KillLine => key == Key::Ctrl('k'),
        EditorAction::UnixLineDiscard => key == Key::Ctrl('u'),
        EditorAction::UnixWordRubout => key == Key::Ctrl('w'),
        EditorAction::KillWord => key == Key::Alt('d'),
        EditorAction::BackwardKillWord => key == Key::AltBackspace,
        EditorAction::DeleteHorizontalSpace => key == Key::Alt('\\'),
        EditorAction::Yank => key == Key::Ctrl('y'),
        EditorAction::YankPop => key == Key::Alt('y'),
        EditorAction::TransposeChars => key == Key::Ctrl('t'),
        EditorAction::TransposeWords => key == Key::Alt('t'),
        EditorAction::UpcaseWord => key == Key::Alt('u'),
        EditorAction::DowncaseWord => key == Key::Alt('l'),
        EditorAction::CapitalizeWord => key == Key::Alt('c'),
        EditorAction::Undo => key == Key::Ctrl('_') || key == Key::Ctrl('z'),
        EditorAction::RevertLine => key == Key::Alt('r'),
        EditorAction::InsertLastArgument => key == Key::Alt('.') || key == Key::Alt('_'),
        EditorAction::PreviousHistory => key == Key::Ctrl('p') || key == Key::Up,
        EditorAction::NextHistory => key == Key::Ctrl('n') || key == Key::Down,
        EditorAction::BeginningOfHistory => key == Key::Alt('<'),
        EditorAction::EndOfHistory => key == Key::Alt('>'),
        EditorAction::HistorySearchBackward => key == Key::Alt('p') || key == Key::PageUp,
        EditorAction::HistorySearchForward => key == Key::Alt('n') || key == Key::PageDown,
        EditorAction::ReverseSearchHistory => key == Key::Ctrl('r'),
        EditorAction::ForwardSearchHistory => key == Key::Ctrl('s'),
        EditorAction::OperateAndGetNext => key == Key::Ctrl('o'),
        EditorAction::ClearScreen => key == Key::Ctrl('l'),
        EditorAction::Complete => key == Key::Tab,
        EditorAction::MenuCompleteBackward => key == Key::ShiftTab,
        EditorAction::PossibleCompletions => key == Key::Alt('?'),
        EditorAction::InsertCompletions => key == Key::Alt('*'),
        EditorAction::CharacterSearch => key == Key::Ctrl(']'),
        EditorAction::QuotedInsert => key == Key::Ctrl('v') || key == Key::Ctrl('q'),
        _ => false,
    }
}

/// A key that no binding touches runs the command that has it from the start,
/// and no other.
pub proof fn keys_from_the_start(key: Key, action: EditorAction)
    ensures
        default_of(key) == Some(action) <==> has_key(action, key),
{
}

/// The keys bound to host commands are listed, each with its command, in the
/// order of the bindings, and no others are. The spelling that a key is listed
/// under names that key.
pub proof fn host_commands_are_listed(b: Seq<(Key, Bound)>)
    requires
        forall|i: int| 0 <= i < b.len() ==> nameable((#[trigger] b[i]).0),
    ensures
        host_rows(b).len() == b.filter(|x: (Key, Bound)| x.1 is Host).len(),
        forall|j: int|
            0 <= j < host_rows(b).len() ==> {
                let x = b.filter(|x: (Key, Bound)| x.1 is Host)[j];
                &&& key_named((#[trigger] host_rows(b)[j]).0) == Some(x.0)
                &&& x.1 == Bound::Host(host_rows(b)[j].1)
            },
    decreases b.len(),
{
    let only = |x: (Key, Bound)| x.1 is Host;
    reveal(Seq::filter);
    if b.len() > 0 {
        let front = b.drop_last();
        assert forall|i: int| 0 <= i < front.len() implies nameable((#[trigger] front[i]).0) by {
            assert(front[i] == b[i]);
        }
        host_commands_are_listed(front);
        assert(b[b.len() - 1] == b.last());
        spelling_names_key(b.last().0);
        let rows = host_rows(b);
        let kept = b.filter(only);
        assert forall|j: int| 0 <= j < rows.len() implies {
            &&& key_named((#[trigger] rows[j]).0) == Some(kept[j].0)
            &&& kept[j].1 == Bound::Host(rows[j].1)
        } by {
            if j < host_rows(front).len() {
                assert(rows[j] == host_rows(front)[j]);
                assert(kept[j] == front.filter(only)[j]);
            }
        }
    }
}

} // verus!
