//! Keys, the byte sequences that terminals send for them, and the readline
//! spellings that name them in bindings.
use vstd::prelude::*;
use vstd::utf8::{decode_utf8, encode_utf8, valid_utf8};

use crate::text::{chars_of, same, string_of, utf8_text};

verus! {

/// One decoded key.
#[derive(Debug, Clone, Copy, PartialEq, Eq, Structural)]
pub enum Key {
    /// A character key.
    Char(char),
    /// `Ctrl('a')` for ^A, `Ctrl('_')` for ^_.
    Ctrl(char),
    /// An ESC-prefixed character.
    Alt(char),
    /// ESC DEL: backward-kill-word.
    AltBackspace,
    /// Carriage return or line feed.
    Enter,
    /// Tab.
    Tab,
    /// Shift-Tab (`CSI Z`).
    ShiftTab,
    /// DEL or C-h.
    Backspace,
    /// Delete.
    Delete,
    /// Up arrow.
    Up,
    /// Down arrow.
    Down,
    /// Left arrow.
    Left,
    /// Right arrow.
    Right,
    /// Home.
    Home,
    /// End.
    End,
    /// Ctrl- or Alt-Left.
    WordLeft,
    /// Ctrl- or Alt-Right.
    WordRight,
    /// Page up.
    PageUp,
    /// Page down.
    PageDown,
    /// A lone ESC.
    Esc,
    /// A sequence that stands for no known key.
    Other,
}

/// The key of a CSI sequence with the given parameters and final character.
/// Modifier parameters `1;5` (Ctrl) and `1;3` (Alt) on the left and right
/// arrows make them word motions.
pub open spec fn csi(params: Seq<char>, last: char) -> Key {
    let word = params == "1;5"@ || params == "1;3"@;
    if last == 'A' {
        Key::Up
    } else if last == 'B' {
        Key::Down
    } else if last == 'C' {
        if word {
            Key::WordRight
        } else {
            Key::Right
        }
    } else if last == 'D' {
        if word {
            Key::WordLeft
        } else {
            Key::Left
        }
    } else if last == 'H' {
        Key::Home
    } else if last == 'F' {
        Key::End
    } else if last == 'Z' {
        Key::ShiftTab
    } else if last == '~' {
        if params == "1"@ || params == "7"@ {
            Key::Home
        } else if params == "4"@ || params == "8"@ {
            Key::End
        } else if params == "3"@ {
            Key::Delete
        } else if params == "5"@ {
            Key::PageUp
        } else if params == "6"@ {
            Key::PageDown
        } else {
            Key::Other
        }
    } else {
        Key::Other
    }
}

/// Whether some characters spell a string.
fn spells(s: &[char], t: &str) -> (r: bool)
    ensures
        r == (s@ == t@),
{
    let t = chars_of(t);
    same(s, t.as_slice())
}

/// Map a CSI escape sequence's final byte (plus parameters) to a key.
pub fn csi_key(params: &str, final_byte: u8) -> (r: Key)
    ensures
        r == csi(params@, final_byte as char),
{
    let p = chars_of(params);
    let p = p.as_slice();
    let last = final_byte as char;
    match last {
        'A' => Key::Up,
        'B' => Key::Down,
        'C' => if spells(p, "1;5") || spells(p, "1;3") {
            Key::WordRight
        } else {
            Key::Right
        },
        'D' => if spells(p, "1;5") || spells(p, "1;3") {
            Key::WordLeft
        } else {
            Key::Left
        },
        'H' => Key::Home,
        'F' => Key::End,
        'Z' => Key::ShiftTab,
        '~' => if spells(p, "1") || spells(p, "7") {
            Key::Home
        } else if spells(p, "4") || spells(p, "8") {
            Key::End
        } else if spells(p, "3") {
            Key::Delete
        } else if spells(p, "5") {
            Key::PageUp
        } else if spells(p, "6") {
            Key::PageDown
        } else {
            Key::Other
        },
        _ => Key::Other,
    }
}

/// A parameter or intermediate byte of a CSI sequence (ECMA-48).
pub open spec fn csi_body(b: u8) -> bool {
    0x20 <= b <= 0x3f
}

/// A parameter byte of the plain kind: a digit or a semicolon.
pub open spec fn csi_plain(b: u8) -> bool {
    0x30 <= b <= 0x39 || b == 0x3b
}

/// Bytes read as ASCII characters.
pub open spec fn ascii(bytes: Seq<u8>) -> Seq<char> {
    Seq::new(bytes.len(), |i: int| bytes[i] as char)
}

/// The key of a CSI sequence with the given body and final byte: one whose
/// body is more than plain parameters (a private mode, a mouse report) stands
/// for no known key.
pub open spec fn csi_of(body: Seq<u8>, last: u8) -> Key {
    if forall|i: int| 0 <= i < body.len() ==> csi_plain(#[trigger] body[i]) {
        csi(ascii(body), last as char)
    } else {
        Key::Other
    }
}

/// The key of a CSI sequence with the given body and final byte.
pub fn csi_sequence(body: &[u8], last: u8) -> (r: Key)
    ensures
        r == csi_of(body@, last),
{
    let mut params: Vec<char> = Vec::new();
    let mut i: usize = 0;
    while i < body.len()
        invariant
            i <= body@.len(),
            params@ == ascii(body@.take(i as int)),
            forall|k: int| 0 <= k < i ==> csi_plain(#[trigger] body@[k]),
        decreases body@.len() - i,
    {
        let b = body[i];
        if !(0x30 <= b && b <= 0x39 || b == 0x3b) {
            assert(!csi_plain(body@[i as int]));
            return Key::Other;
        }
        params.push(b as char);
        i += 1;
        assert(params@ =~= ascii(body@.take(i as int)));
    }
    assert(body@.take(i as int) =~= body@);
    let params = string_of(params.as_slice());
    csi_key(params.as_str(), last)
}

/// The character that some bytes are the whole UTF-8 encoding of.
pub open spec fn sole_char(bytes: Seq<u8>) -> Option<char> {
    if valid_utf8(bytes) && decode_utf8(bytes).len() == 1 {
        Some(decode_utf8(bytes)[0])
    } else {
        None
    }
}

/// The bytes that encode a character encode that character alone.
pub proof fn sole_char_of_encoding(c: char)
    ensures
        sole_char(encode_utf8(seq![c])) == Some(c),
{
    vstd::utf8::encode_utf8_valid_utf8(seq![c]);
    vstd::utf8::encode_utf8_decode_utf8(seq![c]);
}

/// Bytes that hold one character are its encoding.
pub proof fn encoding_of_sole_char(bytes: Seq<u8>)
    ensures
        sole_char(bytes) matches Some(c) ==> bytes == encode_utf8(seq![c]),
{
    if let Some(c) = sole_char(bytes) {
        vstd::utf8::decode_utf8_encode_utf8(bytes);
        assert(decode_utf8(bytes) =~= seq![c]);
    }
}

/// How an encoding begins: an ASCII character is its own byte, the encoding of
/// any other character begins with a byte from 0xC0 on.
pub proof fn encoding_head(c: char)
    ensures
        encode_utf8(seq![c]).len() >= 1,
        (c as u32) < 0x80 ==> encode_utf8(seq![c]) == seq![c as u8],
        (c as u32) >= 0x80 ==> encode_utf8(seq![c])[0] >= 0xc0,
{
    let s = seq![c];
    let v = c as u32;
    vstd::utf8::char_is_scalar(c);
    vstd::utf8::encode_utf8_first_scalar(s);
    vstd::utf8::encode_utf8_valid_utf8(s);
    reveal_with_fuel(encode_utf8, 2);
    assert(encode_utf8(s) =~= vstd::utf8::encode_scalar(v));
    if v < 0x80 {
        assert((v & 0x7f) as u8 == v as u8) by (bit_vector)
            requires
                v < 0x80,
        ;
        assert(encode_utf8(s) =~= seq![c as u8]);
    } else if vstd::utf8::has_width_2_encoding(v) {
        assert(0xC0u8 | ((v >> 6) & 0x1F) as u8 >= 0xc0) by (bit_vector);
    } else if vstd::utf8::has_width_3_encoding(v) {
        assert(0xE0u8 | ((v >> 12) & 0x0F) as u8 >= 0xc0) by (bit_vector);
    } else {
        assert(0xF0u8 | ((v >> 18) & 0x7) as u8 >= 0xc0) by (bit_vector);
    }
}

/// The character that some bytes are the whole encoding of.
pub fn whole_char(bytes: &[u8]) -> (r: Option<char>)
    ensures
        r == sole_char(bytes@),
{
    match utf8_text(bytes) {
        Some(s) => {
            let v = chars_of(s.as_str());
            if v.len() == 1 {
                Some(v[0])
            } else {
                None
            }
        },
        None => None,
    }
}

/// `key`, when nothing is left over.
pub open spec fn alone(rest: Seq<u8>, key: Key) -> Option<Key> {
    if rest.len() == 0 {
        Some(key)
    } else {
        None
    }
}

/// The control key of a byte below 0x20 that has no key of its own.
pub open spec fn control_key(b: u8) -> Key {
    if b == 0 {
        Key::Ctrl('@')
    } else if b == 0x1c {
        Key::Ctrl('\\')
    } else if b == 0x1d {
        Key::Ctrl(']')
    } else if b == 0x1e {
        Key::Ctrl('^')
    } else if b == 0x1f {
        Key::Ctrl('_')
    } else {
        Key::Ctrl(((b + 0x60) as u8) as char)
    }
}

/// The control key of a byte below 0x20 that has no key of its own.
pub fn ctrl_key(b: u8) -> (r: Key)
    requires
        b < 0x20,
    ensures
        r == control_key(b),
{
    match b {
        0 => Key::Ctrl('@'),
        0x1c => Key::Ctrl('\\'),
        0x1d => Key::Ctrl(']'),
        0x1e => Key::Ctrl('^'),
        0x1f => Key::Ctrl('_'),
        _ => Key::Ctrl((b + 0x60) as char),
    }
}

/// The single key that a complete byte sequence decodes to.
pub open spec fn key_of_bytes(bytes: Seq<u8>) -> Option<Key> {
    if bytes.len() == 0 {
        None
    } else {
        let b = bytes[0];
        let rest = bytes.skip(1);
        if b == 0x0d || b == 0x0a {
            alone(rest, Key::Enter)
        } else if b == 0x09 {
            alone(rest, Key::Tab)
        } else if b == 0x7f || b == 0x08 {
            alone(rest, Key::Backspace)
        } else if b == 0x1b {
            key_of_escape(rest)
        } else if b < 0x20 {
            alone(rest, control_key(b))
        } else {
            match sole_char(bytes) {
                Some(c) => Some(Key::Char(c)),
                None => None,
            }
        }
    }
}

/// The key of an SS3 sequence (`ESC O` and one byte).
pub open spec fn ss3(b: u8) -> Key {
    let c = b as char;
    if c == 'H' {
        Key::Home
    } else if c == 'F' {
        Key::End
    } else if c == 'A' {
        Key::Up
    } else if c == 'B' {
        Key::Down
    } else if c == 'C' {
        Key::Right
    } else if c == 'D' {
        Key::Left
    } else {
        Key::Other
    }
}

/// The key of an SS3 sequence (`ESC O` and one byte).
pub fn ss3_key(b: u8) -> (r: Key)
    ensures
        r == ss3(b),
{
    match b as char {
        'H' => Key::Home,
        'F' => Key::End,
        'A' => Key::Up,
        'B' => Key::Down,
        'C' => Key::Right,
        'D' => Key::Left,
        _ => Key::Other,
    }
}

/// A key, unless it is no known one.
pub open spec fn known(key: Key) -> Option<Key> {
    if key == Key::Other {
        None
    } else {
        Some(key)
    }
}

/// The single key that the bytes after an ESC complete.
pub open spec fn key_of_escape(rest: Seq<u8>) -> Option<Key> {
    if rest.len() == 0 {
        Some(Key::Esc)
    } else {
        let b = rest[0];
        let more = rest.skip(1);
        if b == 0x5b {
            // `[`: a CSI sequence, up to its one final byte.
            if more.len() >= 1 && !csi_body(more.last()) && (forall|i: int|
                0 <= i < more.len() - 1 ==> csi_body(#[trigger] more[i])) {
                known(csi_of(more.drop_last(), more.last()))
            } else {
                None
            }
        } else if b == 0x4f {
            // `O`: an SS3 sequence.
            if more.len() == 1 {
                known(ss3(more[0]))
            } else {
                None
            }
        } else if b == 0x7f {
            alone(more, Key::AltBackspace)
        } else if b == 0x1b {
            alone(more, Key::Esc)
        } else if b > 0x20 {
            match sole_char(rest) {
                Some(c) => Some(Key::Alt(c)),
                None => None,
            }
        } else {
            None
        }
    }
}

/// A copy of the bytes from `a` up to `b`.
pub fn byte_slice(v: &[u8], a: usize, b: usize) -> (r: Vec<u8>)
    requires
        a <= b <= v@.len(),
    ensures
        r@ == v@.subrange(a as int, b as int),
{
    let mut r: Vec<u8> = Vec::new();
    let mut i: usize = a;
    while i < b
        invariant
            a <= i <= b <= v@.len(),
            r@ == v@.subrange(a as int, i as int),
        decreases b - i,
    {
        r.push(v[i]);
        i += 1;
        assert(v@.subrange(a as int, i as int) =~= v@.subrange(a as int, i - 1).push(v@[i - 1]));
    }
    r
}

fn if_alone(left: usize, key: Key) -> (r: Option<Key>)
    ensures
        forall|rest: Seq<u8>| rest.len() == left ==> r == #[trigger] alone(rest, key),
{
    if left == 0 {
        Some(key)
    } else {
        None
    }
}

fn if_known(key: Key) -> (r: Option<Key>)
    ensures
        r == known(key),
{
    match key {
        Key::Other => None,
        k => Some(k),
    }
}

/// Decode a complete byte sequence into exactly one key, as the streaming
/// [`Decoder`](crate::decoder::Decoder) does, for the binding parser. `None`
/// when the bytes are empty, leave a remainder, or decode to nothing
/// recognizable.
pub fn decode_key_bytes(bytes: &[u8]) -> (r: Option<Key>)
    ensures
        r == key_of_bytes(bytes@),
{
    if bytes.len() == 0 {
        return None;
    }
    let b = bytes[0];
    let left = bytes.len() - 1;
    assert(bytes@.skip(1).len() == left);
    match b {
        0x0d | 0x0a => if_alone(left, Key::Enter),
        0x09 => if_alone(left, Key::Tab),
        0x7f | 0x08 => if_alone(left, Key::Backspace),
        0x1b => {
            let rest = byte_slice(bytes, 1, bytes.len());
            assert(rest@ =~= bytes@.skip(1));
            decode_escape_bytes(rest.as_slice())
        },
        _ => if b < 0x20 {
            if_alone(left, ctrl_key(b))
        } else {
            match whole_char(bytes) {
                Some(c) => Some(Key::Char(c)),
                None => None,
            }
        },
    }
}

/// The post-ESC half of [`decode_key_bytes`].
pub fn decode_escape_bytes(rest: &[u8]) -> (r: Option<Key>)
    ensures
        r == key_of_escape(rest@),
{
    if rest.len() == 0 {
        return Some(Key::Esc);
    }
    let b = rest[0];
    let left = rest.len() - 1;
    let ghost more = rest@.skip(1);
    assert(more.len() == left);
    match b {
        0x5b => {
            if left == 0 {
                return None;
            }
            let last = rest[rest.len() - 1];
            assert(more.last() == last);
            if 0x20 <= last && last <= 0x3f {
                return None;
            }
            let mut i: usize = 1;
            while i < rest.len() - 1
                invariant
                    1 <= i <= rest@.len() - 1,
                    more == rest@.skip(1),
                    rest@[0] == 0x5b,
                    forall|k: int| 0 <= k < i - 1 ==> csi_body(#[trigger] more[k]),
                decreases rest@.len() - i,
            {
                if !(0x20 <= rest[i] && rest[i] <= 0x3f) {
                    assert(!csi_body(more[i - 1]));
                    return None;
                }
                i += 1;
            }
            let body = byte_slice(rest, 1, rest.len() - 1);
            assert(body@ =~= more.drop_last());
            if_known(csi_sequence(body.as_slice(), last))
        },
        0x4f => if left == 1 {
            if_known(ss3_key(rest[1]))
        } else {
            None
        },
        0x7f => if_alone(left, Key::AltBackspace),
        0x1b => if_alone(left, Key::Esc),
        _ => if b > 0x20 {
            match whole_char(rest) {
                Some(c) => Some(Key::Alt(c)),
                None => None,
            }
        } else {
            None
        },
    }
}

} // verus!
