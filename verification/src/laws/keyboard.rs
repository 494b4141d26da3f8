//! What the terminal's bytes are as keys.
use vstd::prelude::*;
use vstd::utf8::encode_utf8;

use crate::decoder::{
    decoded, encoding_len, expired, ground, quoted, stream, stream_last, stream_step, Decoding,
    Event, Mode,
};
use crate::keys::{
    ascii, csi_of, encoding_head, encoding_of_sole_char, key_of_bytes, sole_char,
    sole_char_of_encoding, Key,
};

verus! {

/// The bytes are one key: they stream out as it and leave nothing behind, and
/// whole they are read as it.
pub open spec fn are_the_key(bytes: Seq<u8>, key: Key) -> bool {
    &&& stream(ground(), bytes) == (ground(), seq![Event::Key(key)])
    &&& key_of_bytes(bytes) == Some(key)
}

/// The bytes of some ASCII text.
pub open spec fn bytes_of(s: Seq<char>) -> Seq<u8> {
    Seq::new(s.len(), |i: int| s[i] as u8)
}

/// A control character is the control key of the letter or sign that stands
/// above it in ASCII; return, tab, and the two that erase have keys of their
/// own.
pub proof fn control_characters(b: u8, c: char)
    requires
        b < 0x20 || b == 0x7f,
        b != 0x1b,
        c as u32 == (if 1 <= b <= 26 {
            b + 0x60
        } else {
            b + 0x40
        }),
    ensures
        are_the_key(
            seq![b],
            if b == 0x0d || b == 0x0a {
                Key::Enter
            } else if b == 0x09 {
                Key::Tab
            } else if b == 0x7f || b == 0x08 {
                Key::Backspace
            } else {
                Key::Ctrl(c)
            },
        ),
{
    let key = key_of_bytes(seq![b])->0;
    assert(key_of_bytes(seq![b]) == Some(key));
    crate::decoder::streams_as_decoded(seq![b], key);
    assert(seq![b][0] == b);
    assert(seq![b] != seq![0x1bu8]) by {
        assert(seq![0x1bu8][0] == 0x1b);
    }
    if 1 <= b <= 26 {
        assert(((b + 0x60) as u8) as u32 == c as u32);
    }
}

/// The arrow keys, Home and End come as `ESC [` or `ESC O` and a letter.
pub open spec fn letter_key(c: char) -> Key {
    match c {
        'A' => Key::Up,
        'B' => Key::Down,
        'C' => Key::Right,
        'D' => Key::Left,
        'H' => Key::Home,
        _ => Key::End,
    }
}

/// The keys that come as `ESC [`, a digit and `~`.
pub open spec fn digit_key(c: char) -> Key {
    match c {
        '1' | '7' => Key::Home,
        '3' => Key::Delete,
        '4' | '8' => Key::End,
        '5' => Key::PageUp,
        _ => Key::PageDown,
    }
}

proof fn the_parameters()
    ensures
        "1;5"@ =~= seq!['1', ';', '5'],
        "1;3"@ =~= seq!['1', ';', '3'],
        "1"@ =~= seq!['1'],
        "7"@ =~= seq!['7'],
        "4"@ =~= seq!['4'],
        "8"@ =~= seq!['8'],
        "3"@ =~= seq!['3'],
        "5"@ =~= seq!['5'],
        "6"@ =~= seq!['6'],
{
    reveal_strlit("1;5");
    reveal_strlit("1;3");
    reveal_strlit("1");
    reveal_strlit("7");
    reveal_strlit("4");
    reveal_strlit("8");
    reveal_strlit("3");
    reveal_strlit("5");
    reveal_strlit("6");
}

proof fn a_sequence_is_its_key(body: Seq<char>, last: char)
    requires
        last as u32 >= 0x40,
        (last as u32) < 0x80,
        forall|k: int| 0 <= k < body.len() ==> '0' <= #[trigger] body[k] <= '9' || body[k] == ';',
    ensures
        ({
            let key = crate::keys::csi(body, last);
            key != Key::Other ==> are_the_key(
                seq![0x1b, 0x5b] + bytes_of(body) + seq![last as u8],
                key,
            )
        }),
{
    let b = bytes_of(body);
    let all = seq![0x1b, 0x5b] + b + seq![last as u8];
    let rest = all.skip(1);
    let more = rest.skip(1);
    assert(all[0] == 0x1b && rest[0] == 0x5b);
    assert(more =~= b + seq![last as u8]);
    assert(more.drop_last() =~= b);
    assert forall|i: int| 0 <= i < b.len() implies crate::keys::csi_plain(#[trigger] b[i])
        && crate::keys::csi_body(b[i]) by {
        assert('0' <= body[i] <= '9' || body[i] == ';');
    }
    assert(ascii(b) =~= body) by {
        assert forall|i: int| 0 <= i < b.len() implies #[trigger] ascii(b)[i] == body[i] by {
            assert('0' <= body[i] <= '9' || body[i] == ';');
        }
    }
    assert forall|i: int| 0 <= i < more.len() - 1 implies crate::keys::csi_body(
        #[trigger] more[i],
    ) by {
        assert(more[i] == b[i]);
    }
    assert(more.last() == last as u8);
    assert((last as u8) as char == last);
    let key = crate::keys::csi(body, last);
    assert(csi_of(b, last as u8) == key);
    if key != Key::Other {
        assert(key_of_bytes(all) == Some(key));
        crate::decoder::streams_as_decoded(all, key);
        assert(all != seq![0x1bu8]) by {
            assert(all.len() >= 3);
        }
    }
}

/// The named keys: `ESC [` or `ESC O` and a letter, `ESC [`, a digit and `~`,
/// and with Ctrl or Alt, `ESC [ 1 ; 5` or `3` and an arrow's letter.
pub proof fn named_keys(c: char, m: char)
    ensures
        c == 'A' || c == 'B' || c == 'C' || c == 'D' || c == 'H' || c == 'F' ==> are_the_key(
            seq![0x1b, 0x5b, c as u8],
            letter_key(c),
        ) && are_the_key(seq![0x1b, 0x4f, c as u8], letter_key(c)),
        c == '1' || '3' <= c <= '8' ==> are_the_key(
            seq![0x1b, 0x5b, c as u8, 0x7e],
            digit_key(c),
        ),
        m == '5' || m == '3' ==> are_the_key(
            seq![0x1b, 0x5b, 0x31, 0x3b, m as u8, 0x43],
            Key::WordRight,
        ) && are_the_key(seq![0x1b, 0x5b, 0x31, 0x3b, m as u8, 0x44], Key::WordLeft),
        are_the_key(seq![0x1b, 0x5b, 0x5a], Key::ShiftTab),
        are_the_key(seq![0x1b, 0x7f], Key::AltBackspace),
{
    the_parameters();
    let none = Seq::<char>::empty();
    assert(none.len() != seq!['1', ';', '5'].len());
    a_sequence_is_its_key(none, 'Z');
    assert(seq![0x1b, 0x5b] + bytes_of(none) + seq![0x5au8] =~= seq![0x1b, 0x5b, 0x5a]);
    let erase = seq![0x1bu8, 0x7f];
    assert(erase.skip(1)[0] == 0x7f && erase.skip(1).skip(1).len() == 0);
    crate::decoder::streams_as_decoded(erase, Key::AltBackspace);
    assert(erase.len() != seq![0x1bu8].len());
    if c == 'A' || c == 'B' || c == 'C' || c == 'D' || c == 'H' || c == 'F' {
        a_sequence_is_its_key(none, c);
        assert(seq![0x1b, 0x5b] + bytes_of(none) + seq![c as u8] =~= seq![0x1b, 0x5b, c as u8]);
        let other = seq![0x1bu8, 0x4f, c as u8];
        assert(other.skip(1)[0] == 0x4f && other.skip(1).skip(1) =~= seq![c as u8]);
        assert((c as u8) as char == c);
        assert(key_of_bytes(other) == Some(letter_key(c)));
        crate::decoder::streams_as_decoded(other, letter_key(c));
        assert(other.len() != seq![0x1bu8].len());
    }
    if c == '1' || '3' <= c <= '8' {
        a_sequence_is_its_key(seq![c], '~');
        assert(seq![0x1b, 0x5b] + bytes_of(seq![c]) + seq![0x7eu8] =~= seq![
            0x1b,
            0x5b,
            c as u8,
            0x7e,
        ]);
        assert(seq![c][0] == c);
        assert(crate::keys::csi(seq![c], '~') == digit_key(c));
    }
    if m == '5' || m == '3' {
        let p = seq!['1', ';', m];
        a_sequence_is_its_key(p, 'C');
        a_sequence_is_its_key(p, 'D');
        assert(seq![0x1b, 0x5b] + bytes_of(p) + seq![0x43u8] =~= seq![
            0x1b,
            0x5b,
            0x31,
            0x3b,
            m as u8,
            0x43,
        ]);
        assert(seq![0x1b, 0x5b] + bytes_of(p) + seq![0x44u8] =~= seq![
            0x1b,
            0x5b,
            0x31,
            0x3b,
            m as u8,
            0x44,
        ]);
    }
}

/// A printing character's encoding is that character's key, and behind an ESC
/// its Alt key, but for the two that begin longer sequences.
pub proof fn characters(c: char)
    requires
        c as u32 > 0x20,
        c as u32 != 0x7f,
    ensures
        are_the_key(encode_utf8(seq![c]), Key::Char(c)),
        c != '[' && c != 'O' ==> are_the_key(seq![0x1b] + encode_utf8(seq![c]), Key::Alt(c)),
{
    let bytes = encode_utf8(seq![c]);
    sole_char_of_encoding(c);
    encoding_head(c);
    assert(bytes != seq![0x1bu8]) by {
        assert(seq![0x1bu8][0] == 0x1b);
        if (c as u32) < 0x80 {
            assert(bytes[0] == c as u8);
        }
    }
    crate::decoder::streams_as_decoded(bytes, Key::Char(c));
    if c != '[' && c != 'O' {
        let all = seq![0x1bu8] + bytes;
        assert(all.skip(1) =~= bytes);
        if (c as u32) < 0x80 {
            assert(bytes[0] == c as u8);
        }
        assert(key_of_bytes(all) == Some(Key::Alt(c)));
        crate::decoder::streams_as_decoded(all, Key::Alt(c));
        assert(all.len() != seq![0x1bu8].len());
    }
}

/// A byte that begins no character is one replacement character.
pub proof fn stray_bytes(b: u8)
    requires
        0x80 <= b < 0xc0 || b >= 0xf8,
    ensures
        stream(ground(), seq![b]) == (ground(), seq![Event::Key(Key::Char('\u{fffd}'))]),
        key_of_bytes(seq![b]) is None,
{
    stream_last(ground(), seq![b], Event::Key(Key::Char('\u{fffd}')));
    if let Some(c) = sole_char(seq![b]) {
        encoding_of_sole_char(seq![b]);
        encoding_head(c);
        encoding_len(seq![b], c);
    }
}

/// A lone ESC is a key only once no byte has followed it for a while; an
/// unfinished sequence is then given up, and a paste taken as far as it came.
pub proof fn waiting(d: Decoding)
    ensures
        stream(ground(), seq![0x1bu8]).1.len() == 0,
        expired(stream(ground(), seq![0x1bu8]).0) == (ground(), Some(Event::Key(Key::Esc))),
        expired(ground()) == (ground(), None::<Event>),
        expired(d).0 == (if d.mode == Mode::Ground {
            d
        } else {
            ground()
        }),
        d.mode == Mode::Ground <==> expired(d).1 is None,
        d.mode == Mode::Csi || d.mode == Mode::Ss3 ==> expired(d).1 == Some(
            Event::Key(Key::Other),
        ),
        d.mode == Mode::Text && sole_char(d.buf) is None ==> expired(d).1 == Some(
            Event::Key(Key::Char('\u{fffd}')),
        ),
        d.mode == Mode::Paste ==> expired(d).1 == Some(
            Event::Paste(crate::text::lossy_utf8(d.buf)),
        ),
{
    crate::decoder::streams_as_decoded(seq![0x1bu8], Key::Esc);
}

proof fn quoting_goes_on(head: Seq<u8>, rest: Seq<u8>, c: char)
    requires
        sole_char(head + rest) == Some(c),
        head.len() > 0,
        rest.len() > 0,
    ensures
        stream(Decoding { mode: Mode::Quoted, buf: head }, rest) == (
            ground(),
            seq![Event::Literal(c)],
        ),
    decreases rest.len(),
{
    let d = Decoding { mode: Mode::Quoted, buf: head };
    encoding_len(head + rest, c);
    let buf = head.push(rest[0]);
    assert((head + rest)[0] == buf[0]);
    if rest.len() == 1 {
        assert(head + rest =~= buf);
        assert(decoded(d, rest[0]) == (ground(), Some(Event::Literal(c))));
        stream_last(d, rest, Event::Literal(c));
    } else {
        assert(buf + rest.skip(1) =~= head + rest);
        stream_step(d, rest, Decoding { mode: Mode::Quoted, buf });
        quoting_goes_on(buf, rest.skip(1), c);
    }
}

/// A quoted character is taken as it is, whatever key it would be: a control
/// character, an ESC, or one of several bytes.
pub proof fn quoting(c: char)
    ensures
        ({
            let bytes = encode_utf8(seq![c]);
            let (d, e) = quoted(ground(), bytes[0]);
            &&& bytes.len() == 1 ==> d == ground() && e == Some(Event::Literal(c))
            &&& bytes.len() > 1 ==> e is None && stream(d, bytes.skip(1)) == (
                ground(),
                seq![Event::Literal(c)],
            )
        }),
{
    let bytes = encode_utf8(seq![c]);
    sole_char_of_encoding(c);
    encoding_head(c);
    encoding_len(bytes, c);
    encoding_of_sole_char(bytes);
    if (c as u32) < 0x80 {
        assert(bytes[0] == c as u8);
        assert((c as u8) as char == c);
    } else {
        assert(bytes.len() > 1);
        assert(seq![bytes[0]] + bytes.skip(1) =~= bytes);
        quoting_goes_on(seq![bytes[0]], bytes.skip(1), c);
    }
}

} // verus!
