//! readline key specs: `\C-x`, `\M-f`, `\e[1;5C` and the usual backslash
//! escapes, read into keys and written back.
use vstd::prelude::*;
use vstd::utf8::encode_utf8;

use crate::keys::{
    ascii, csi_body, csi_plain, decode_key_bytes, encoding_head, encoding_of_sole_char,
    key_of_bytes, key_of_escape, sole_char, sole_char_of_encoding, Key,
};
use crate::text::{chars_of, slice, string_of};

verus! {

/// The value of a digit in a radix of at most 16 (either case).
pub open spec fn digit_in(c: char, radix: int) -> Option<int> {
    let v = if '0' <= c <= '9' {
        c as int - '0' as int
    } else if 'a' <= c <= 'f' {
        c as int - 'a' as int + 10
    } else if 'A' <= c <= 'F' {
        c as int - 'A' as int + 10
    } else {
        16
    };
    if v < radix {
        Some(v)
    } else {
        None
    }
}

/// The number that at most `max` leading digits of `s` add to `value`, and
/// how many there are.
pub open spec fn leading_number(s: Seq<char>, radix: int, max: nat, value: int) -> (int, int)
    decreases max,
{
    if max == 0 || s.len() == 0 {
        (value, 0)
    } else {
        match digit_in(s[0], radix) {
            Some(d) => {
                let (v, n) = leading_number(
                    s.skip(1),
                    radix,
                    (max - 1) as nat,
                    value * radix + d,
                );
                (v, n + 1)
            },
            None => (value, 0),
        }
    }
}

/// The byte of a one-letter escape.
pub open spec fn escape_byte(c: char) -> Option<u8> {
    if c == 'e' || c == 'E' {
        Some(0x1b)
    } else if c == '\\' {
        Some(0x5c)
    } else if c == 'a' {
        Some(0x07)
    } else if c == 'b' {
        Some(0x08)
    } else if c == 'd' {
        Some(0x7f)
    } else if c == 'f' {
        Some(0x0c)
    } else if c == 'n' {
        Some(0x0a)
    } else if c == 'r' {
        Some(0x0d)
    } else if c == 't' {
        Some(0x09)
    } else if c == 'v' {
        Some(0x0b)
    } else {
        None
    }
}

/// The byte that Ctrl makes of an ASCII character.
pub open spec fn control_byte(t: char) -> Option<u8> {
    if t == '?' {
        Some(0x7f)
    } else if (t as u32) < 0x80 {
        Some((t as u32 % 32) as u8)
    } else {
        None
    }
}

/// One byte, and how many characters of a spec it took.
pub open spec fn one_byte(b: Option<u8>, n: int) -> Option<(Seq<u8>, int)> {
    match b {
        Some(b) => Some((seq![b], n)),
        None => None,
    }
}

/// The bytes that the first element of a spec stands for, and how many
/// characters it takes: a plain character, or a backslash escape.
pub open spec fn element(s: Seq<char>) -> Option<(Seq<u8>, int)> {
    if s.len() == 0 {
        None
    } else if s[0] != '\\' {
        Some((encode_utf8(seq![s[0]]), 1))
    } else if s.len() < 2 {
        None
    } else if s[1] == 'C' {
        // `\C-t`; the target may itself be escaped (`\C-\\`).
        if s.len() < 4 || s[2] != '-' {
            None
        } else if s[3] != '\\' {
            one_byte(control_byte(s[3]), 4)
        } else if s.len() < 5 {
            None
        } else {
            one_byte(control_byte(s[4]), 5)
        }
    } else if s[1] == 'M' {
        // Meta is an ESC prefix; the rest of the spec reads as usual.
        if s.len() >= 3 && s[2] == '-' {
            Some((seq![0x1b], 3))
        } else {
            None
        }
    } else if s[1] == 'x' {
        let (v, n) = leading_number(s.skip(2), 16, 2, 0);
        if n > 0 {
            Some((seq![v as u8], n + 2))
        } else {
            None
        }
    } else if '0' <= s[1] <= '7' {
        let (v, n) = leading_number(s.skip(1), 8, 3, 0);
        if v <= 0xff {
            Some((seq![v as u8], n + 1))
        } else {
            None
        }
    } else {
        one_byte(escape_byte(s[1]), 2)
    }
}

/// The bytes that a spec stands for.
pub open spec fn spec_bytes(s: Seq<char>) -> Option<Seq<u8>>
    decreases s.len(),
{
    if s.len() == 0 {
        Some(Seq::empty())
    } else {
        match element(s) {
            Some((bytes, n)) => if 0 < n <= s.len() {
                preceded(bytes, spec_bytes(s.skip(n)))
            } else {
                None
            },
            None => None,
        }
    }
}

/// `bytes`, and then the rest if there is one.
pub open spec fn preceded(bytes: Seq<u8>, rest: Option<Seq<u8>>) -> Option<Seq<u8>> {
    match rest {
        Some(rest) => Some(bytes + rest),
        None => None,
    }
}

/// The key that a spec names.
pub open spec fn key_named(s: Seq<char>) -> Option<Key> {
    match spec_bytes(s) {
        Some(bytes) => key_of_bytes(bytes),
        None => None,
    }
}

fn digit_value(c: char, radix: u32) -> (r: Option<u32>)
    requires
        radix <= 16,
    ensures
        match r {
            Some(d) => digit_in(c, radix as int) == Some(d as int),
            None => digit_in(c, radix as int) is None,
        },
        r matches Some(d) ==> d < radix,
{
    let v: u32 = match c {
        '0'..='9' => c as u32 - 48,
        'a'..='f' => c as u32 - 87,
        'A'..='F' => c as u32 - 55,
        _ => 16,
    };
    if v < radix {
        Some(v)
    } else {
        None
    }
}

/// Read at most `max` leading digits.
fn read_number(s: &[char], from: usize, radix: u32, max: usize) -> (r: (u32, usize))
    requires
        from <= s@.len(),
        2 <= radix <= 16,
        max <= 3,
    ensures
        ({
            let (v, n) = leading_number(s@.skip(from as int), radix as int, max as nat, 0);
            r.0 == v && r.1 == n
        }),
        r.1 <= max,
        from + r.1 <= s@.len(),
        radix == 16 && max == 2 ==> r.0 <= 0xff,
{
    let mut v: u32 = 0;
    let mut n: usize = 0;
    let len = s.len();
    let ghost all = leading_number(s@.skip(from as int), radix as int, max as nat, 0);
    while n < max && from + n < len
        invariant
            n <= max <= 3,
            from + n <= len == s@.len(),
            2 <= radix <= 16,
            n == 0 ==> v == 0,
            n == 1 ==> v < radix,
            n == 2 ==> v < radix * radix,
            n == 3 ==> v < radix * radix * radix,
            all == leading_number(s@.skip(from as int), radix as int, max as nat, 0),
            ({
                let (w, m) = leading_number(
                    s@.skip(from + n),
                    radix as int,
                    (max - n) as nat,
                    v as int,
                );
                all.0 == w && all.1 == m + n
            }),
        decreases max - n,
    {
        assert(s@.skip(from + n)[0] == s@[from + n]);
        assert(s@.skip(from + n).skip(1) =~= s@.skip(from + n + 1));
        match digit_value(s[from + n], radix) {
            Some(d) => {
                assert(v * radix + d <= 4095 && (n == 1 ==> v * radix + d < radix * radix) && (n
                    == 2 ==> v * radix + d < radix * radix * radix)) by (nonlinear_arith)
                    requires
                        2 <= radix <= 16,
                        d < radix,
                        n <= 2,
                        n == 0 ==> v == 0,
                        n == 1 ==> v < radix,
                        n == 2 ==> v < radix * radix,
                ;
                v = v * radix + d;
                n += 1;
            },
            None => {
                assert(radix == 16 && max == 2 ==> v <= 0xff) by (nonlinear_arith)
                    requires
                        n <= max,
                        n == 0 ==> v == 0,
                        n == 1 ==> v < radix,
                        n == 2 ==> v < radix * radix,
                ;
                return (v, n);
            },
        }
    }
    assert(radix == 16 && max == 2 ==> v <= 0xff) by (nonlinear_arith)
        requires
            n <= max,
            n == 0 ==> v == 0,
            n == 1 ==> v < radix,
            n == 2 ==> v < radix * radix,
    ;
    (v, n)
}

fn one(b: u8) -> (r: Vec<u8>)
    ensures
        r@ == seq![b],
{
    let mut r: Vec<u8> = Vec::new();
    r.push(b);
    assert(r@ =~= seq![b]);
    r
}

/// The UTF-8 encoding of a character.
pub fn encode_char(c: char) -> (r: Vec<u8>)
    ensures
        r@ == encode_utf8(seq![c]),
{
    let mut text = String::new();
    text.push(c);
    assert(text@ =~= seq![c]);
    let bytes = text.as_str().as_bytes();
    crate::keys::byte_slice(bytes, 0, bytes.len())
}

fn control_of(t: char) -> (r: Option<u8>)
    ensures
        r == control_byte(t),
{
    if t == '?' {
        Some(0x7f)
    } else if (t as u32) < 0x80 {
        Some((t as u32 % 32) as u8)
    } else {
        None
    }
}

/// Read the first element of a spec.
fn read_element(s: &[char]) -> (r: Option<(Vec<u8>, usize)>)
    requires
        s@.len() > 0,
    ensures
        match r {
            Some((bytes, n)) => element(s@) == Some((bytes@, n as int)) && 0 < n <= s@.len(),
            None => element(s@) is None,
        },
{
    if s[0] != '\\' {
        return Some((encode_char(s[0]), 1));
    }
    if s.len() < 2 {
        return None;
    }
    match s[1] {
        'C' => {
            if s.len() < 4 || s[2] != '-' {
                return None;
            }
            let at: usize = if s[3] == '\\' {
                4
            } else {
                3
            };
            if at >= s.len() {
                return None;
            }
            match control_of(s[at]) {
                Some(b) => Some((one(b), at + 1)),
                None => None,
            }
        },
        'M' => if s.len() >= 3 && s[2] == '-' {
            Some((one(0x1b), 3))
        } else {
            None
        },
        'x' => {
            let (v, n) = read_number(s, 2, 16, 2);
            if n > 0 {
                Some((one(v as u8), n + 2))
            } else {
                None
            }
        },
        '0'..='7' => {
            let (v, n) = read_number(s, 1, 8, 3);
            if v <= 0xff {
                Some((one(v as u8), n + 1))
            } else {
                None
            }
        },
        'e' | 'E' => Some((one(0x1b), 2)),
        '\\' => Some((one(0x5c), 2)),
        'a' => Some((one(0x07), 2)),
        'b' => Some((one(0x08), 2)),
        'd' => Some((one(0x7f), 2)),
        'f' => Some((one(0x0c), 2)),
        'n' => Some((one(0x0a), 2)),
        'r' => Some((one(0x0d), 2)),
        't' => Some((one(0x09), 2)),
        'v' => Some((one(0x0b), 2)),
        _ => None,
    }
}

/// Parse a readline key spec (`\C-x`, `\M-f`, `\e[1;5C`, backslash escapes
/// `\e \t \r \n \a \d \\ \xHH \NNN`, plain characters) into the single key it
/// decodes to. `None` for anything unparseable, including multi-key chords.
pub fn parse_key_spec(spec: &str) -> (r: Option<Key>)
    ensures
        r == key_named(spec@),
{
    let mut rest: Vec<char> = chars_of(spec);
    let mut bytes: Vec<u8> = Vec::new();
    assert(preceded(bytes@, spec_bytes(spec@)) =~= spec_bytes(spec@)) by {
        if let Some(b) = spec_bytes(spec@) {
            assert(Seq::<u8>::empty() + b =~= b);
        }
    }
    while rest.len() > 0
        invariant
            spec_bytes(spec@) == preceded(bytes@, spec_bytes(rest@)),
        decreases rest@.len(),
    {
        match read_element(rest.as_slice()) {
            Some((mut more, n)) => {
                let ghost head = bytes@;
                let ghost tail = spec_bytes(rest@.skip(n as int));
                assert(preceded(head, preceded(more@, tail)) =~= preceded(head + more@, tail)) by {
                    if let Some(t) = tail {
                        assert(head + (more@ + t) =~= (head + more@) + t);
                    }
                }
                bytes.append(&mut more);
                let next = slice(rest.as_slice(), n, rest.len());
                assert(next@ =~= rest@.skip(n as int));
                rest = next;
            },
            None => {
                return None;
            },
        }
    }
    assert(bytes@ + Seq::<u8>::empty() =~= bytes@);
    decode_key_bytes(bytes.as_slice())
}

/// A character as a spec writes it: a backslash is doubled.
pub open spec fn escaped(c: char) -> Seq<char> {
    if c == '\\' {
        "\\\\"@
    } else {
        seq![c]
    }
}

/// The spelling of a key.
pub open spec fn name_of_key(key: Key) -> Seq<char> {
    match key {
        Key::Char(c) => escaped(c),
        Key::Ctrl(c) => "\\C-"@ + escaped(c),
        Key::Alt(c) => "\\M-"@ + escaped(c),
        Key::AltBackspace => "\\M-\\C-?"@,
        Key::Enter => "\\C-m"@,
        Key::Tab => "\\C-i"@,
        Key::ShiftTab => "\\e[Z"@,
        Key::Backspace => "\\C-?"@,
        Key::Delete => "\\e[3~"@,
        Key::Up => "\\e[A"@,
        Key::Down => "\\e[B"@,
        Key::Right => "\\e[C"@,
        Key::Left => "\\e[D"@,
        Key::Home => "\\e[H"@,
        Key::End => "\\e[F"@,
        Key::WordLeft => "\\e[1;5D"@,
        Key::WordRight => "\\e[1;5C"@,
        Key::PageUp => "\\e[5~"@,
        Key::PageDown => "\\e[6~"@,
        Key::Esc => "\\e"@,
        Key::Other => ""@,
    }
}

fn escape_char(prefix: &str, c: char) -> (r: String)
    ensures
        r@ == prefix@ + escaped(c),
{
    let mut v = chars_of(prefix);
    if c == '\\' {
        crate::text::push_str(&mut v, "\\\\");
    } else {
        v.push(c);
        assert(v@ =~= prefix@ + seq![c]);
    }
    string_of(v.as_slice())
}

/// Render a key back to a readline-style spec, as [`parse_key_spec`] reads it.
pub fn key_spec(key: &Key) -> (r: String)
    ensures
        r@ == name_of_key(*key),
{
    match *key {
        Key::Char(c) => {
            let r = escape_char("", c);
            proof {
                reveal_strlit("");
                assert(""@ + escaped(c) =~= escaped(c));
            }
            r
        },
        Key::Ctrl(c) => escape_char("\\C-", c),
        Key::Alt(c) => escape_char("\\M-", c),
        Key::AltBackspace => "\\M-\\C-?".to_owned(),
        Key::Enter => "\\C-m".to_owned(),
        Key::Tab => "\\C-i".to_owned(),
        Key::ShiftTab => "\\e[Z".to_owned(),
        Key::Backspace => "\\C-?".to_owned(),
        Key::Delete => "\\e[3~".to_owned(),
        Key::Up => "\\e[A".to_owned(),
        Key::Down => "\\e[B".to_owned(),
        Key::Right => "\\e[C".to_owned(),
        Key::Left => "\\e[D".to_owned(),
        Key::Home => "\\e[H".to_owned(),
        Key::End => "\\e[F".to_owned(),
        Key::WordLeft => "\\e[1;5D".to_owned(),
        Key::WordRight => "\\e[1;5C".to_owned(),
        Key::PageUp => "\\e[5~".to_owned(),
        Key::PageDown => "\\e[6~".to_owned(),
        Key::Esc => "\\e".to_owned(),
        Key::Other => "".to_owned(),
    }
}

/// The keys that a spec can name: what one complete byte sequence can decode
/// to. (C-h, C-i, C-j, C-m and C-[ have keys of their own; ESC `[` and ESC `O`
/// open longer sequences.)
pub open spec fn nameable(key: Key) -> bool {
    match key {
        Key::Char(c) => c as u32 >= 0x20 && c as u32 != 0x7f,
        Key::Ctrl(c) => {
            ||| 'a' <= c <= 'z' && c != 'h' && c != 'i' && c != 'j' && c != 'm'
            ||| c == '@' || c == '\\' || c == ']' || c == '^' || c == '_'
        },
        Key::Alt(c) => c as u32 > 0x20 && c as u32 != 0x7f && c != '[' && c != 'O',
        Key::Other => false,
        _ => true,
    }
}

/// The bytes of ASCII text.
pub open spec fn ascii_bytes(t: Seq<char>) -> Seq<u8> {
    Seq::new(t.len(), |i: int| t[i] as u8)
}

/// ASCII text that holds no backslash.
pub open spec fn plain(t: Seq<char>) -> bool {
    forall|i: int| 0 <= i < t.len() ==> #[trigger] t[i] != '\\' && (t[i] as u32) < 0x80
}

/// Plain text stands for its own bytes.
proof fn plain_bytes(t: Seq<char>)
    requires
        plain(t),
    ensures
        spec_bytes(t) == Some(ascii_bytes(t)),
    decreases t.len(),
{
    if t.len() == 0 {
        assert(ascii_bytes(t) =~= Seq::<u8>::empty());
    } else {
        plain_bytes(t.skip(1));
        encoding_head(t[0]);
        assert(seq![t[0] as u8] + ascii_bytes(t.skip(1)) =~= ascii_bytes(t));
    }
}

/// A spec of a single element.
proof fn sole_element(s: Seq<char>, bytes: Seq<u8>)
    requires
        s.len() > 0,
        element(s) == Some((bytes, s.len() as int)),
    ensures
        spec_bytes(s) == Some(bytes),
{
    let rest = s.skip(s.len() as int);
    assert(rest.len() == 0);
    assert(spec_bytes(rest) == Some(Seq::<u8>::empty()));
    assert(bytes + Seq::<u8>::empty() =~= bytes);
}

/// An escape, and then plain text.
proof fn element_then_plain(s: Seq<char>, t: Seq<char>)
    requires
        plain(t),
        element(s + t) == element(s),
        element(s) matches Some((_, n)) && n == s.len() && n > 0,
    ensures
        spec_bytes(s + t) == Some((element(s)->0).0 + ascii_bytes(t)),
{
    plain_bytes(t);
    assert((s + t).skip(s.len() as int) =~= t);
}

/// An ASCII character survives the trip through its byte.
proof fn ascii_char(c: char)
    requires
        (c as u32) < 0x80,
    ensures
        (c as u8) as char == c,
{
}

/// A CSI sequence named by its literal text.
proof fn csi_named(s: Seq<char>, params: Seq<char>, last: char)
    requires
        s == seq!['\\', 'e', '['] + params + seq![last],
        forall|i: int|
            0 <= i < params.len() ==> (#[trigger] params[i] as u32) < 0x80 && csi_plain(
                params[i] as u8,
            ),
        0x40 <= last as u32 <= 0x7e,
        last != '\\',
        crate::keys::csi(params, last) != Key::Other,
    ensures
        key_named(s) == Some(crate::keys::csi(params, last)),
{
    let head = seq!['\\', 'e'];
    let t = seq!['['] + params + seq![last];
    assert(head + t =~= s);
    assert forall|i: int| 0 <= i < t.len() implies #[trigger] t[i] != '\\' && (t[i] as u32)
        < 0x80 by {
        if 0 < i && i <= params.len() {
            assert(t[i] == params[i - 1]);
            assert(csi_plain(params[i - 1] as u8));
        }
    }
    element_then_plain(head, t);
    let bytes = seq![0x1bu8] + ascii_bytes(t);
    let rest = bytes.skip(1);
    assert(rest =~= ascii_bytes(t));
    let more = rest.skip(1);
    assert(more.last() == last as u8);
    assert forall|i: int| 0 <= i < more.len() - 1 implies csi_body(#[trigger] more[i]) by {
        assert(more[i] == params[i] as u8);
        assert(csi_plain(params[i] as u8));
    }
    let body = more.drop_last();
    assert forall|i: int| 0 <= i < body.len() implies csi_plain(#[trigger] body[i]) by {
        assert(body[i] == params[i] as u8);
        assert(csi_plain(params[i] as u8));
    }
    assert forall|i: int| 0 <= i < params.len() implies ascii(body)[i] == params[i] by {
        ascii_char(params[i]);
    }
    assert(ascii(body) =~= params);
    assert(rest[0] == 0x5b);
    assert(key_of_escape(rest) == Some(crate::keys::csi(params, last)));
}

/// A control key named `\C-c`.
proof fn control_named(c: char)
    requires
        nameable(Key::Ctrl(c)),
    ensures
        key_named(name_of_key(Key::Ctrl(c))) == Some(Key::Ctrl(c)),
{
    reveal_strlit("\\C-");
    reveal_strlit("\\\\");
    let s = name_of_key(Key::Ctrl(c));
    let b = (c as u32 % 32) as u8;
    let n = s.len() as int;
    assert(element(s) == Some((seq![b], n)));
    sole_element(s, seq![b]);
    assert(seq![b].skip(1).len() == 0);
    assert(0x60 <= c as u32 <= 0x7f ==> b == c as u32 - 0x60);
}

/// A character, after a Meta prefix or not.
proof fn char_named(c: char, meta: bool)
    requires
        meta ==> nameable(Key::Alt(c)),
        !meta ==> nameable(Key::Char(c)),
    ensures
        !meta ==> key_named(name_of_key(Key::Char(c))) == Some(Key::Char(c)),
        meta ==> key_named(name_of_key(Key::Alt(c))) == Some(Key::Alt(c)),
{
    reveal_strlit("\\M-");
    reveal_strlit("\\\\");
    let t = escaped(c);
    let code = encode_utf8(seq![c]);
    encoding_head(c);
    sole_char_of_encoding(c);
    let n = t.len() as int;
    assert(element(t) == Some((code, n))) by {
        if c == '\\' {
            assert(seq![0x5cu8] =~= code);
        }
    }
    sole_element(t, code);
    if meta {
        let s = name_of_key(Key::Alt(c));
        assert(element(s) == Some((seq![0x1bu8], 3int)));
        assert(s.skip(3) =~= t);
        let bytes = seq![0x1bu8] + code;
        assert(spec_bytes(s) == Some(bytes));
        assert(bytes.skip(1) =~= code);
    }
}

/// Every key that a spec names is one that a spec can name.
pub proof fn named_is_nameable(s: Seq<char>)
    ensures
        key_named(s) matches Some(key) ==> nameable(key),
{
    if let Some(bytes) = spec_bytes(s) {
        encoding_of_sole_char(bytes);
        if let Some(c) = sole_char(bytes) {
            encoding_head(c);
        }
        if bytes.len() > 0 {
            let rest = bytes.skip(1);
            encoding_of_sole_char(rest);
            if let Some(c) = sole_char(rest) {
                encoding_head(c);
            }
        }
    }
}

/// The spelling of a key reads back as that key: for every key that some spec
/// names, the listing's spelling names it again.
pub proof fn key_spec_round_trip(spec: Seq<char>, key: Key)
    requires
        key_named(spec) == Some(key),
    ensures
        key_named(name_of_key(key)) == Some(key),
{
    named_is_nameable(spec);
    spelling_names_key(key);
}

/// The spelling of every key that can be named reads back as that key.
pub proof fn spelling_names_key(key: Key)
    requires
        nameable(key),
    ensures
        key_named(name_of_key(key)) == Some(key),
{
    let s = name_of_key(key);
    let none = Seq::<char>::empty();
    match key {
        Key::Char(c) => char_named(c, false),
        Key::Alt(c) => char_named(c, true),
        Key::Ctrl(c) => control_named(c),
        Key::AltBackspace => {
            reveal_strlit("\\M-\\C-?");
            assert(element(s) == Some((seq![0x1bu8], 3int)));
            let t = s.skip(3);
            assert(element(t) == Some((seq![0x7fu8], 4int)));
            sole_element(t, seq![0x7fu8]);
            assert((seq![0x1bu8] + seq![0x7fu8]).skip(1) =~= seq![0x7fu8]);
            assert(seq![0x7fu8].skip(1).len() == 0);
        },
        Key::Enter | Key::Tab | Key::Backspace => {
            reveal_strlit("\\C-m");
            reveal_strlit("\\C-i");
            reveal_strlit("\\C-?");
            let b: u8 = if key == Key::Enter {
                0x0d
            } else if key == Key::Tab {
                0x09
            } else {
                0x7f
            };
            assert(element(s) == Some((seq![b], 4int)));
            sole_element(s, seq![b]);
            assert(seq![b].skip(1).len() == 0);
        },
        Key::Esc => {
            reveal_strlit("\\e");
            assert(element(s) == Some((seq![0x1bu8], 2int)));
            sole_element(s, seq![0x1bu8]);
            assert(seq![0x1bu8].skip(1).len() == 0);
        },
        Key::ShiftTab => {
            reveal_strlit("\\e[Z");
            assert(s =~= seq!['\\', 'e', '['] + none + seq!['Z']);
            csi_named(s, none, 'Z');
        },
        Key::Up => {
            reveal_strlit("\\e[A");
            assert(s =~= seq!['\\', 'e', '['] + none + seq!['A']);
            csi_named(s, none, 'A');
        },
        Key::Down => {
            reveal_strlit("\\e[B");
            assert(s =~= seq!['\\', 'e', '['] + none + seq!['B']);
            csi_named(s, none, 'B');
        },
        Key::Right | Key::Left => {
            reveal_strlit("\\e[C");
            reveal_strlit("\\e[D");
            reveal_strlit("1;5");
            reveal_strlit("1;3");
            let last = if key == Key::Right {
                'C'
            } else {
                'D'
            };
            assert(s =~= seq!['\\', 'e', '['] + none + seq![last]);
            csi_named(s, none, last);
        },
        Key::Home => {
            reveal_strlit("\\e[H");
            assert(s =~= seq!['\\', 'e', '['] + none + seq!['H']);
            csi_named(s, none, 'H');
        },
        Key::End => {
            reveal_strlit("\\e[F");
            assert(s =~= seq!['\\', 'e', '['] + none + seq!['F']);
            csi_named(s, none, 'F');
        },
        Key::WordLeft | Key::WordRight => {
            reveal_strlit("\\e[1;5D");
            reveal_strlit("\\e[1;5C");
            reveal_strlit("1;5");
            let last = if key == Key::WordRight {
                'C'
            } else {
                'D'
            };
            let params = seq!['1', ';', '5'];
            assert(params =~= "1;5"@);
            assert(s =~= seq!['\\', 'e', '['] + params + seq![last]);
            csi_named(s, params, last);
        },
        Key::Delete | Key::PageUp | Key::PageDown => {
            reveal_strlit("\\e[3~");
            reveal_strlit("\\e[5~");
            reveal_strlit("\\e[6~");
            reveal_strlit("1");
            reveal_strlit("3");
            reveal_strlit("4");
            reveal_strlit("5");
            reveal_strlit("6");
            reveal_strlit("7");
            reveal_strlit("8");
            let d = if key == Key::Delete {
                '3'
            } else if key == Key::PageUp {
                '5'
            } else {
                '6'
            };
            let params = seq![d];
            assert("1"@[0] == '1' && "3"@[0] == '3' && "4"@[0] == '4' && "5"@[0] == '5');
            assert("6"@[0] == '6' && "7"@[0] == '7' && "8"@[0] == '8');
            assert(d == '3' ==> params =~= "3"@);
            assert(d == '5' ==> params =~= "5"@);
            assert(d == '6' ==> params =~= "6"@);
            assert(s =~= seq!['\\', 'e', '['] + params + seq!['~']);
            csi_named(s, params, '~');
        },
        Key::Other => {},
    }
}

} // verus!
