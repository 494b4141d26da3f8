//! The streaming key decoder: bytes in, one event at a time out.
//!
//! The decoder never waits. Whoever reads the terminal pushes each byte, and
//! reports with [`Decoder::expire`] that no further byte came in time: that is
//! how a lone ESC is told from the start of a sequence, and how a sequence
//! that was never finished is given up.
use vstd::prelude::*;

use crate::keys::{
    byte_slice, control_key, csi_body, csi_of, csi_sequence, ctrl_key, encoding_head,
    encoding_of_sole_char, key_of_bytes, sole_char, ss3, ss3_key, whole_char, Key,
};
use crate::text::{chars_of, lossy_utf8, utf8_text_lossy};

verus! {

/// One input event.
#[derive(Debug, PartialEq, Eq)]
pub enum Input {
    /// A key.
    Key(Key),
    /// A bracketed paste: the whole pasted text as one event, so tabs and
    /// escape bytes inside it insert literally instead of firing bindings.
    Paste(Vec<char>),
    /// A character read literally, for quoted insert.
    Literal(char),
}

/// An input event, as a mathematical value.
#[verifier::ext_equal]
pub ghost enum Event {
    Key(Key),
    Paste(Seq<char>),
    Literal(char),
}

impl View for Input {
    type V = Event;

    open spec fn view(&self) -> Event {
        match self {
            Input::Key(key) => Event::Key(*key),
            Input::Paste(text) => Event::Paste(text@),
            Input::Literal(c) => Event::Literal(*c),
        }
    }
}

/// The event of an optional input.
pub open spec fn event(input: Option<Input>) -> Option<Event> {
    match input {
        Some(i) => Some(i@),
        None => None,
    }
}

/// What the decoder is in the middle of.
#[derive(Debug, Clone, Copy, PartialEq, Eq, Structural)]
pub enum Mode {
    /// Nothing.
    Ground,
    /// After ESC.
    Escape,
    /// After ESC `[`.
    Csi,
    /// After ESC `O`.
    Ss3,
    /// In a UTF-8 sequence.
    Text,
    /// In a UTF-8 sequence after ESC.
    AltText,
    /// In a UTF-8 sequence that is read literally.
    Quoted,
    /// In a bracketed paste.
    Paste,
}

/// The decoder's state, as a mathematical value.
#[verifier::ext_equal]
pub ghost struct Decoding {
    pub mode: Mode,
    pub buf: Seq<u8>,
}

/// The streaming decoder.
#[derive(Debug)]
pub struct Decoder {
    /// What it is in the middle of.
    pub mode: Mode,
    /// The bytes of it so far.
    pub buf: Vec<u8>,
}

impl View for Decoder {
    type V = Decoding;

    open spec fn view(&self) -> Decoding {
        Decoding { mode: self.mode, buf: self.buf@ }
    }
}

/// Between two events.
pub open spec fn ground() -> Decoding {
    Decoding { mode: Mode::Ground, buf: Seq::empty() }
}

/// How many continuation bytes a UTF-8 lead byte calls for; `None` for a byte
/// that leads nothing.
pub open spec fn tail_len(b: u8) -> Option<nat> {
    if b < 0x80 {
        Some(0)
    } else if b < 0xc0 {
        None
    } else if b < 0xe0 {
        Some(1)
    } else if b < 0xf0 {
        Some(2)
    } else if b < 0xf8 {
        Some(3)
    } else {
        None
    }
}

/// The character that a UTF-8 sequence stands for, U+FFFD for a broken one.
pub open spec fn char_of(bytes: Seq<u8>) -> char {
    match sole_char(bytes) {
        Some(c) => c,
        None => '\u{fffd}',
    }
}

/// What closes a bracketed paste: `ESC [ 201 ~`.
pub open spec fn paste_end() -> Seq<u8> {
    seq![0x1b, 0x5b, 0x32, 0x30, 0x31, 0x7e]
}

/// The paste has been closed.
pub open spec fn closed_by_end(buf: Seq<u8>) -> bool {
    buf.len() >= 6 && buf.skip(buf.len() - 6) == paste_end()
}

/// The parameters that open a bracketed paste: `200`.
pub open spec fn paste_params() -> Seq<u8> {
    seq![0x32, 0x30, 0x30]
}

/// Into a mode, with the bytes so far.
pub open spec fn into_mode(mode: Mode, buf: Seq<u8>) -> (Decoding, Option<Event>) {
    (Decoding { mode, buf }, None)
}

/// Done, with a key.
pub open spec fn gives(key: Key) -> (Decoding, Option<Event>) {
    (ground(), Some(Event::Key(key)))
}

/// What one byte does.
pub open spec fn decoded(d: Decoding, b: u8) -> (Decoding, Option<Event>) {
    match d.mode {
        Mode::Ground => if b == 0x0d || b == 0x0a {
            gives(Key::Enter)
        } else if b == 0x09 {
            gives(Key::Tab)
        } else if b == 0x7f || b == 0x08 {
            gives(Key::Backspace)
        } else if b == 0x1b {
            into_mode(Mode::Escape, Seq::empty())
        } else if b < 0x20 {
            gives(control_key(b))
        } else if b < 0x80 {
            gives(Key::Char(b as char))
        } else if tail_len(b) is Some {
            into_mode(Mode::Text, seq![b])
        } else {
            gives(Key::Char('\u{fffd}'))
        },
        Mode::Escape => if b == 0x5b {
            into_mode(Mode::Csi, Seq::empty())
        } else if b == 0x4f {
            into_mode(Mode::Ss3, Seq::empty())
        } else if b == 0x7f {
            gives(Key::AltBackspace)
        } else if b == 0x1b {
            gives(Key::Esc)
        } else if b <= 0x20 {
            gives(Key::Other)
        } else if b < 0x80 {
            gives(Key::Alt(b as char))
        } else if tail_len(b) is Some {
            into_mode(Mode::AltText, seq![b])
        } else {
            gives(Key::Other)
        },
        Mode::Csi => if csi_body(b) {
            into_mode(Mode::Csi, d.buf.push(b))
        } else if d.buf == paste_params() && b == 0x7e {
            into_mode(Mode::Paste, Seq::empty())
        } else {
            gives(csi_of(d.buf, b))
        },
        Mode::Ss3 => gives(ss3(b)),
        Mode::Text | Mode::AltText | Mode::Quoted => {
            let buf = d.buf.push(b);
            if tail_len(buf[0]) == Some((buf.len() - 1) as nat) || buf.len() >= 4 {
                finished_text(d.mode, buf)
            } else {
                into_mode(d.mode, buf)
            }
        },
        Mode::Paste => {
            let buf = d.buf.push(b);
            if closed_by_end(buf) {
                (ground(), Some(Event::Paste(lossy_utf8(buf.take(buf.len() - 6)))))
            } else {
                into_mode(Mode::Paste, buf)
            }
        },
    }
}

/// Done with a UTF-8 sequence.
pub open spec fn finished_text(mode: Mode, buf: Seq<u8>) -> (Decoding, Option<Event>) {
    let c = char_of(buf);
    match mode {
        Mode::Text => gives(Key::Char(c)),
        Mode::AltText => gives(Key::Alt(c)),
        _ => (ground(), Some(Event::Literal(c))),
    }
}

/// What the passing of time does: a lone ESC is the Esc key, and an unfinished
/// sequence is given up.
pub open spec fn expired(d: Decoding) -> (Decoding, Option<Event>) {
    match d.mode {
        Mode::Ground => (d, None),
        Mode::Escape => gives(Key::Esc),
        Mode::Csi | Mode::Ss3 => gives(Key::Other),
        Mode::Text | Mode::AltText | Mode::Quoted => finished_text(d.mode, d.buf),
        Mode::Paste => (ground(), Some(Event::Paste(lossy_utf8(d.buf)))),
    }
}

/// What one byte does when the next character is wanted as it is.
pub open spec fn quoted(d: Decoding, b: u8) -> (Decoding, Option<Event>) {
    if d.mode != Mode::Ground {
        decoded(d, b)
    } else if b < 0x80 {
        (ground(), Some(Event::Literal(b as char)))
    } else if tail_len(b) is Some {
        into_mode(Mode::Quoted, seq![b])
    } else {
        (ground(), Some(Event::Literal('\u{fffd}')))
    }
}

fn tail_bytes(b: u8) -> (r: Option<usize>)
    ensures
        match r {
            Some(n) => tail_len(b) == Some(n as nat),
            None => tail_len(b) is None,
        },
{
    if b < 0x80 {
        Some(0)
    } else if b < 0xc0 {
        None
    } else if b < 0xe0 {
        Some(1)
    } else if b < 0xf0 {
        Some(2)
    } else if b < 0xf8 {
        Some(3)
    } else {
        None
    }
}

fn same_bytes(a: &[u8], from: usize, b: &[u8]) -> (r: bool)
    requires
        from <= a@.len(),
    ensures
        r == (a@.skip(from as int) == b@),
{
    let len = a.len();
    if len - from != b.len() {
        return false;
    }
    let mut i: usize = 0;
    while i < b.len()
        invariant
            i <= b@.len(),
            len == a@.len(),
            len - from == b@.len(),
            forall|k: int| 0 <= k < i ==> a@.skip(from as int)[k] == b@[k],
        decreases b@.len() - i,
    {
        if a[from + i] != b[i] {
            assert(a@.skip(from as int)[i as int] != b@[i as int]);
            return false;
        }
        i += 1;
    }
    assert(a@.skip(from as int) =~= b@);
    true
}

impl Decoder {
    /// A decoder between two events.
    pub fn new() -> (r: Decoder)
        ensures
            r@ == ground(),
    {
        Decoder { mode: Mode::Ground, buf: Vec::new() }
    }

    fn enter(&mut self, mode: Mode) -> (r: Option<Input>)
        ensures
            final(self)@ == (Decoding { mode, buf: Seq::empty() }),
            r is None,
    {
        self.mode = mode;
        self.buf = Vec::new();
        None
    }

    fn enter_with(&mut self, mode: Mode, b: u8) -> (r: Option<Input>)
        ensures
            final(self)@ == (Decoding { mode, buf: seq![b] }),
            r is None,
    {
        self.mode = mode;
        let mut buf: Vec<u8> = Vec::new();
        buf.push(b);
        self.buf = buf;
        None
    }

    fn give(&mut self, input: Input) -> (r: Option<Input>)
        ensures
            final(self)@ == ground(),
            r == Some(input),
    {
        self.mode = Mode::Ground;
        self.buf = Vec::new();
        Some(input)
    }

    fn give_text(&mut self) -> (r: Option<Input>)
        ensures
            (final(self)@, event(r)) == finished_text(old(self)@.mode, old(self)@.buf),
    {
        let c = match whole_char(self.buf.as_slice()) {
            Some(c) => c,
            None => '\u{fffd}',
        };
        match self.mode {
            Mode::Text => self.give(Input::Key(Key::Char(c))),
            Mode::AltText => self.give(Input::Key(Key::Alt(c))),
            _ => self.give(Input::Literal(c)),
        }
    }

    /// Take one byte off the terminal.
    pub fn push(&mut self, b: u8) -> (r: Option<Input>)
        ensures
            (final(self)@, event(r)) == decoded(old(self)@, b),
    {
        match self.mode {
            Mode::Ground => match b {
                0x0d | 0x0a => self.give(Input::Key(Key::Enter)),
                0x09 => self.give(Input::Key(Key::Tab)),
                0x7f | 0x08 => self.give(Input::Key(Key::Backspace)),
                0x1b => self.enter(Mode::Escape),
                _ => if b < 0x20 {
                    self.give(Input::Key(ctrl_key(b)))
                } else if b < 0x80 {
                    self.give(Input::Key(Key::Char(b as char)))
                } else if tail_bytes(b).is_some() {
                    self.enter_with(Mode::Text, b)
                } else {
                    self.give(Input::Key(Key::Char('\u{fffd}')))
                },
            },
            Mode::Escape => match b {
                0x5b => self.enter(Mode::Csi),
                0x4f => self.enter(Mode::Ss3),
                0x7f => self.give(Input::Key(Key::AltBackspace)),
                0x1b => self.give(Input::Key(Key::Esc)),
                _ => if b <= 0x20 {
                    self.give(Input::Key(Key::Other))
                } else if b < 0x80 {
                    self.give(Input::Key(Key::Alt(b as char)))
                } else if tail_bytes(b).is_some() {
                    self.enter_with(Mode::AltText, b)
                } else {
                    self.give(Input::Key(Key::Other))
                },
            },
            Mode::Csi => if 0x20 <= b && b <= 0x3f {
                self.buf.push(b);
                None
            } else {
                let opening: [u8; 3] = [0x32, 0x30, 0x30];
                assert(opening@ =~= paste_params());
                assert(self.buf@.skip(0) =~= self.buf@);
                if b == 0x7e && same_bytes(self.buf.as_slice(), 0, opening.as_slice()) {
                    self.enter(Mode::Paste)
                } else {
                    let key = csi_sequence(self.buf.as_slice(), b);
                    self.give(Input::Key(key))
                }
            },
            Mode::Ss3 => self.give(Input::Key(ss3_key(b))),
            Mode::Text | Mode::AltText | Mode::Quoted => {
                self.buf.push(b);
                let n = self.buf.len();
                let whole = n >= 4 || (match tail_bytes(self.buf[0]) {
                    Some(t) => t == n - 1,
                    None => false,
                });
                if whole {
                    self.give_text()
                } else {
                    None
                }
            },
            Mode::Paste => {
                self.buf.push(b);
                let closing: [u8; 6] = [0x1b, 0x5b, 0x32, 0x30, 0x31, 0x7e];
                assert(closing@ =~= paste_end());
                let n = self.buf.len();
                if n >= 6 && same_bytes(self.buf.as_slice(), n - 6, closing.as_slice()) {
                    let body = byte_slice(self.buf.as_slice(), 0, n - 6);
                    assert(body@ =~= self.buf@.take(n - 6));
                    let text = utf8_text_lossy(body.as_slice());
                    self.give(Input::Paste(chars_of(text.as_str())))
                } else {
                    None
                }
            },
        }
    }

    /// Take one byte off the terminal when the next character is wanted as it
    /// is (quoted insert): a tab, an ESC or a ^C is then no key.
    pub fn push_quoted(&mut self, b: u8) -> (r: Option<Input>)
        ensures
            (final(self)@, event(r)) == quoted(old(self)@, b),
    {
        match self.mode {
            Mode::Ground => if b < 0x80 {
                self.give(Input::Literal(b as char))
            } else if tail_bytes(b).is_some() {
                self.enter_with(Mode::Quoted, b)
            } else {
                self.give(Input::Literal('\u{fffd}'))
            },
            _ => self.push(b),
        }
    }

    /// No further byte came in time.
    pub fn expire(&mut self) -> (r: Option<Input>)
        ensures
            (final(self)@, event(r)) == expired(old(self)@),
    {
        match self.mode {
            Mode::Ground => None,
            Mode::Escape => self.give(Input::Key(Key::Esc)),
            Mode::Csi | Mode::Ss3 => self.give(Input::Key(Key::Other)),
            Mode::Text | Mode::AltText | Mode::Quoted => self.give_text(),
            Mode::Paste => {
                let text = utf8_text_lossy(self.buf.as_slice());
                self.give(Input::Paste(chars_of(text.as_str())))
            },
        }
    }
}

/// The events of a byte sequence, and the state it leaves.
pub open spec fn stream(d: Decoding, bytes: Seq<u8>) -> (Decoding, Seq<Event>)
    decreases bytes.len(),
{
    if bytes.len() == 0 {
        (d, Seq::empty())
    } else {
        let (next, e) = decoded(d, bytes[0]);
        let (end, more) = stream(next, bytes.skip(1));
        match e {
            Some(e) => (end, seq![e] + more),
            None => (end, more),
        }
    }
}

/// Bytes that only change the state are followed by the rest.
pub(crate) proof fn stream_step(d: Decoding, bytes: Seq<u8>, next: Decoding)
    requires
        bytes.len() > 0,
        decoded(d, bytes[0]) == (next, None::<Event>),
    ensures
        stream(d, bytes) == stream(next, bytes.skip(1)),
{
}

/// A last byte that gives an event.
pub(crate) proof fn stream_last(d: Decoding, bytes: Seq<u8>, e: Event)
    requires
        bytes.len() == 1,
        decoded(d, bytes[0]) == (ground(), Some(e)),
    ensures
        stream(d, bytes) == (ground(), seq![e]),
{
    let rest = bytes.skip(1);
    assert(rest.len() == 0);
    assert(stream(ground(), rest) == (ground(), Seq::<Event>::empty()));
    assert(seq![e] + Seq::<Event>::empty() =~= seq![e]);
}

/// The encoding of a character has as many bytes as its lead byte calls for.
pub(crate) proof fn encoding_len(bytes: Seq<u8>, c: char)
    requires
        sole_char(bytes) == Some(c),
    ensures
        1 <= bytes.len() <= 4,
        tail_len(bytes[0]) == Some((bytes.len() - 1) as nat),
{
    encoding_of_sole_char(bytes);
    encoding_head(c);
    vstd::utf8::encode_utf8_first_scalar(seq![c]);
    vstd::utf8::char_is_scalar(c);
    reveal_with_fuel(vstd::utf8::encode_utf8, 2);
    assert(bytes =~= vstd::utf8::encode_scalar(c as u32));
}

/// The rest of a UTF-8 sequence.
proof fn stream_text(mode: Mode, head: Seq<u8>, rest: Seq<u8>, c: char)
    requires
        mode == Mode::Text || mode == Mode::AltText,
        sole_char(head + rest) == Some(c),
        head.len() > 0,
        rest.len() > 0,
    ensures
        stream(Decoding { mode, buf: head }, rest) == (
            ground(),
            seq![
                Event::Key(
                    if mode == Mode::Text {
                        Key::Char(c)
                    } else {
                        Key::Alt(c)
                    },
                ),
            ],
        ),
    decreases rest.len(),
{
    let d = Decoding { mode, buf: head };
    encoding_len(head + rest, c);
    let buf = head.push(rest[0]);
    assert((head + rest)[0] == buf[0]);
    if rest.len() == 1 {
        assert(head + rest =~= buf);
        let e = Event::Key(
            if mode == Mode::Text {
                Key::Char(c)
            } else {
                Key::Alt(c)
            },
        );
        assert(decoded(d, rest[0]) == (ground(), Some(e)));
        stream_last(d, rest, e);
    } else {
        assert(buf + rest.skip(1) =~= head + rest);
        stream_step(d, rest, Decoding { mode, buf });
        stream_text(mode, buf, rest.skip(1), c);
    }
}

/// The rest of a CSI sequence that is no paste.
proof fn stream_csi(buf: Seq<u8>, rest: Seq<u8>)
    requires
        rest.len() > 0,
        !csi_body(rest.last()),
        forall|i: int| 0 <= i < rest.len() - 1 ==> csi_body(#[trigger] rest[i]),
        !(buf + rest.drop_last() == paste_params() && rest.last() == 0x7e),
    ensures
        stream(Decoding { mode: Mode::Csi, buf }, rest) == (
            ground(),
            seq![Event::Key(csi_of(buf + rest.drop_last(), rest.last()))],
        ),
    decreases rest.len(),
{
    let d = Decoding { mode: Mode::Csi, buf };
    if rest.len() == 1 {
        assert(buf + rest.drop_last() =~= buf);
        stream_last(d, rest, Event::Key(csi_of(buf, rest[0])));
    } else {
        let next = buf.push(rest[0]);
        assert(csi_body(rest[0]));
        stream_step(d, rest, Decoding { mode: Mode::Csi, buf: next });
        let tail = rest.skip(1);
        assert(tail.last() == rest.last());
        assert(next + tail.drop_last() =~= buf + rest.drop_last());
        assert forall|i: int| 0 <= i < tail.len() - 1 implies csi_body(#[trigger] tail[i]) by {
            assert(tail[i] == rest[i + 1]);
        }
        stream_csi(next, tail);
    }
}

/// The streaming decoder and the binding parser agree: a complete byte
/// sequence that stands for one key streams out as that key, and leaves nothing
/// behind. A lone ESC is the one sequence that only time completes.
pub proof fn streams_as_decoded(bytes: Seq<u8>, key: Key)
    requires
        key_of_bytes(bytes) == Some(key),
    ensures
        bytes != seq![0x1bu8] ==> stream(ground(), bytes) == (ground(), seq![Event::Key(key)]),
        bytes == seq![0x1bu8] ==> stream(ground(), bytes).1.len() == 0 && expired(
            stream(ground(), bytes).0,
        ) == (ground(), Some(Event::Key(key))),
{
    let b = bytes[0];
    let rest = bytes.skip(1);
    if b == 0x1b {
        let esc = Decoding { mode: Mode::Escape, buf: Seq::empty() };
        stream_step(ground(), bytes, esc);
        if rest.len() == 0 {
            assert(bytes =~= seq![0x1bu8]);
        } else {
            let b = rest[0];
            let more = rest.skip(1);
            assert(rest == seq![b] + more) by {
                assert(rest =~= seq![b] + more);
            }
            if b == 0x5b {
                let csi = Decoding { mode: Mode::Csi, buf: Seq::empty() };
                stream_step(esc, rest, csi);
                assert(Seq::<u8>::empty() + more.drop_last() =~= more.drop_last());
                if more.drop_last() == paste_params() && more.last() == 0x7e {
                    let body = more.drop_last();
                    assert(crate::keys::ascii(body).len() == 3);
                    reveal_strlit("1");
                    reveal_strlit("3");
                    reveal_strlit("4");
                    reveal_strlit("5");
                    reveal_strlit("6");
                    reveal_strlit("7");
                    reveal_strlit("8");
                    assert("1"@.len() == 1 && "3"@.len() == 1 && "4"@.len() == 1 && "5"@.len() == 1);
                    assert("6"@.len() == 1 && "7"@.len() == 1 && "8"@.len() == 1);
                    assert(csi_of(body, 0x7e) == Key::Other);
                }
                stream_csi(Seq::empty(), more);
            } else if b == 0x4f {
                let state = Decoding { mode: Mode::Ss3, buf: Seq::empty() };
                stream_step(esc, rest, state);
                stream_last(state, more, Event::Key(key));
            } else if b < 0x80 {
                if b > 0x20 && b != 0x7f {
                    encoding_of_sole_char(rest);
                    encoding_head(sole_char(rest)->0);
                }
                assert(rest.len() == 1);
                stream_last(esc, rest, Event::Key(key));
            } else {
                let c = sole_char(rest)->0;
                encoding_len(rest, c);
                encoding_of_sole_char(rest);
                encoding_head(c);
                stream_step(esc, rest, Decoding { mode: Mode::AltText, buf: seq![b] });
                stream_text(Mode::AltText, seq![b], more, c);
            }
        }
    } else if b < 0x80 {
        if b >= 0x20 && b != 0x7f {
            encoding_of_sole_char(bytes);
            encoding_head(sole_char(bytes)->0);
        }
        assert(bytes.len() == 1);
        stream_last(ground(), bytes, Event::Key(key));
    } else {
        let c = sole_char(bytes)->0;
        encoding_len(bytes, c);
        encoding_of_sole_char(bytes);
        encoding_head(c);
        stream_step(ground(), bytes, Decoding { mode: Mode::Text, buf: seq![b] });
        assert(seq![b] + rest =~= bytes);
        stream_text(Mode::Text, seq![b], rest, c);
    }
}

/// The rest of a paste.
proof fn stream_paste(buf: Seq<u8>, rest: Seq<u8>)
    requires
        rest.len() > 0,
        closed_by_end(buf + rest),
        forall|k: int| 0 < k < rest.len() ==> !closed_by_end(#[trigger] (buf + rest.take(k))),
    ensures
        stream(Decoding { mode: Mode::Paste, buf }, rest) == (
            ground(),
            seq![Event::Paste(lossy_utf8((buf + rest).take(buf.len() + rest.len() - 6)))],
        ),
    decreases rest.len(),
{
    let d = Decoding { mode: Mode::Paste, buf };
    let next = buf.push(rest[0]);
    if rest.len() == 1 {
        assert(next =~= buf + rest);
        stream_last(d, rest, Event::Paste(lossy_utf8(next.take(next.len() - 6))));
    } else {
        assert(buf + rest.take(1) =~= next);
        stream_step(d, rest, Decoding { mode: Mode::Paste, buf: next });
        let tail = rest.skip(1);
        assert(next + tail =~= buf + rest);
        assert forall|k: int| 0 < k < tail.len() implies !closed_by_end(
            #[trigger] (next + tail.take(k)),
        ) by {
            assert(next + tail.take(k) =~= buf + rest.take(k + 1));
        }
        stream_paste(next, tail);
    }
}

/// A bracketed paste arrives as one event, whatever keys its bytes would be:
/// `ESC [ 200 ~`, a text in which the closing sequence does not show up early,
/// `ESC [ 201 ~`.
pub proof fn paste_is_one_event(text: Seq<u8>)
    requires
        forall|k: int|
            0 <= k < text.len() + 6 ==> !closed_by_end(#[trigger] (text + paste_end()).take(k)),
    ensures
        stream(ground(), seq![0x1b, 0x5b, 0x32, 0x30, 0x30, 0x7e] + text + paste_end()) == (
            ground(),
            seq![Event::Paste(lossy_utf8(text))],
        ),
{
    let none = Seq::<u8>::empty();
    let body = text + paste_end();
    let b6 = seq![0x1b, 0x5b, 0x32, 0x30, 0x30, 0x7e] + text + paste_end();
    stream_step(ground(), b6, Decoding { mode: Mode::Escape, buf: none });
    let b5 = b6.skip(1);
    stream_step(Decoding { mode: Mode::Escape, buf: none }, b5, Decoding { mode: Mode::Csi, buf: none });
    let b4 = b5.skip(1);
    let p1 = none.push(0x32);
    stream_step(Decoding { mode: Mode::Csi, buf: none }, b4, Decoding { mode: Mode::Csi, buf: p1 });
    let b3 = b4.skip(1);
    let p2 = p1.push(0x30);
    stream_step(Decoding { mode: Mode::Csi, buf: p1 }, b3, Decoding { mode: Mode::Csi, buf: p2 });
    let b2 = b3.skip(1);
    let p3 = p2.push(0x30);
    stream_step(Decoding { mode: Mode::Csi, buf: p2 }, b2, Decoding { mode: Mode::Csi, buf: p3 });
    let b1 = b2.skip(1);
    assert(p3 =~= paste_params());
    stream_step(Decoding { mode: Mode::Csi, buf: p3 }, b1, Decoding { mode: Mode::Paste, buf: none });
    assert(b1.skip(1) =~= body);
    assert(none + body =~= body);
    assert(body.skip(body.len() - 6) =~= paste_end());
    assert forall|k: int| 0 < k < body.len() implies !closed_by_end(#[trigger] (none + body.take(k))) by {
        assert(none + body.take(k) =~= body.take(k));
    }
    stream_paste(none, body);
    assert(body.take(body.len() - 6) =~= text);
}

/// What two byte sequences stream to, one after the other.
proof fn stream_add(d: Decoding, a: Seq<u8>, b: Seq<u8>)
    ensures
        ({
            let (mid, first) = stream(d, a);
            let (end, second) = stream(mid, b);
            stream(d, a + b) == (end, first + second)
        }),
    decreases a.len(),
{
    if a.len() == 0 {
        assert(a + b =~= b);
        let (end, second) = stream(d, b);
        assert(Seq::<Event>::empty() + second =~= second);
    } else {
        let (next, e) = decoded(d, a[0]);
        assert((a + b)[0] == a[0]);
        assert((a + b).skip(1) =~= a.skip(1) + b);
        stream_add(next, a.skip(1), b);
        let (mid, first) = stream(next, a.skip(1));
        let (end, second) = stream(mid, b);
        if let Some(e) = e {
            assert(seq![e] + (first + second) =~= (seq![e] + first) + second);
        }
    }
}

/// One key for each character of a text.
pub open spec fn keys_of(text: Seq<char>) -> Seq<Event>
    decreases text.len(),
{
    if text.len() == 0 {
        Seq::empty()
    } else {
        seq![Event::Key(Key::Char(text[0]))] + keys_of(text.skip(1))
    }
}

/// Text that the terminal sends in UTF-8 arrives as its characters, one key
/// each, however long it is, and leaves nothing behind.
pub proof fn text_streams_as_its_characters(text: Seq<char>)
    requires
        forall|i: int|
            0 <= i < text.len() ==> (#[trigger] text[i]) as u32 >= 0x20 && text[i] as u32 != 0x7f,
    ensures
        stream(ground(), vstd::utf8::encode_utf8(text)) == (ground(), keys_of(text)),
    decreases text.len(),
{
    if text.len() > 0 {
        let rest = text.skip(1);
        let head = vstd::utf8::encode_utf8(seq![text[0]]);
        assert(seq![text[0]].drop_first() =~= Seq::<char>::empty());
        assert(text.drop_first() =~= rest);
        assert(vstd::utf8::encode_utf8(text) =~= head + vstd::utf8::encode_utf8(rest)) by {
            reveal_with_fuel(vstd::utf8::encode_utf8, 2);
        }
        assert forall|i: int| 0 <= i < rest.len() implies (#[trigger] rest[i]) as u32 >= 0x20
            && rest[i] as u32 != 0x7f by {
            assert(rest[i] == text[i + 1]);
        }
        text_streams_as_its_characters(rest);
        one_character_streams(text[0]);
        stream_add(ground(), head, vstd::utf8::encode_utf8(rest));
    }
}

proof fn one_character_streams(c: char)
    requires
        c as u32 >= 0x20,
        c as u32 != 0x7f,
    ensures
        stream(ground(), vstd::utf8::encode_utf8(seq![c])) == (
            ground(),
            seq![Event::Key(Key::Char(c))],
        ),
{
    let bytes = vstd::utf8::encode_utf8(seq![c]);
    crate::keys::sole_char_of_encoding(c);
    encoding_head(c);
    assert(key_of_bytes(bytes) == Some(Key::Char(c)));
    assert(bytes[0] != 0x1b);
    streams_as_decoded(bytes, Key::Char(c));
}

/// A CSI sequence is consumed whole, whatever it means: its parameters and
/// intermediates never leak as typed text. One that means nothing here is one
/// `Other` key.
pub proof fn csi_is_consumed_whole(body: Seq<u8>, last: u8)
    requires
        forall|i: int| 0 <= i < body.len() ==> csi_body(#[trigger] body[i]),
        !csi_body(last),
        !(body == paste_params() && last == 0x7e),
    ensures
        stream(ground(), seq![0x1b, 0x5b] + body + seq![last]) == (
            ground(),
            seq![Event::Key(csi_of(body, last))],
        ),
{
    let none = Seq::<u8>::empty();
    let all = seq![0x1b, 0x5b] + body + seq![last];
    let rest = body + seq![last];
    stream_step(ground(), all, Decoding { mode: Mode::Escape, buf: none });
    let b1 = all.skip(1);
    stream_step(
        Decoding { mode: Mode::Escape, buf: none },
        b1,
        Decoding { mode: Mode::Csi, buf: none },
    );
    assert(b1.skip(1) =~= rest);
    assert(rest.drop_last() =~= body);
    assert(none + body =~= body);
    assert forall|i: int| 0 <= i < rest.len() - 1 implies csi_body(#[trigger] rest[i]) by {
        assert(rest[i] == body[i]);
    }
    stream_csi(none, rest);
}

} // verus!
