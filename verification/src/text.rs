//! Text as sequences of characters: conversions between strings, character
//! vectors and UTF-8 byte offsets, and the small searches the editor needs.
use vstd::prelude::*;
use vstd::utf8::{decode_utf8, encode_utf8, valid_utf8};

use crate::unicode::{lower_mapping, to_lower};

verus! {

/// `String::push`: the character is appended.
pub assume_specification[ String::push ](s: &mut String, c: char)
    ensures
        final(s)@ == old(s)@.push(c),
;

/// What `String::from_utf8_lossy` makes of a byte sequence.
pub uninterp spec fn lossy_utf8(bytes: Seq<u8>) -> Seq<char>;

/// `std::str::from_utf8`: the string that the bytes encode, or an error when
/// they are not valid UTF-8.
#[verifier::external_body]
pub(crate) fn utf8_text(bytes: &[u8]) -> (r: Option<String>)
    ensures
        r is Some <==> valid_utf8(bytes@),
        r matches Some(s) ==> s@ == decode_utf8(bytes@),
{
    match std::str::from_utf8(bytes) {
        Ok(s) => Some(s.to_string()),
        Err(_) => None,
    }
}

/// `String::from_utf8_lossy`: valid UTF-8 is decoded as it is; what becomes of
/// invalid bytes depends on the bytes alone.
#[verifier::external_body]
pub(crate) fn utf8_text_lossy(bytes: &[u8]) -> (r: String)
    ensures
        r@ == lossy_utf8(bytes@),
        valid_utf8(bytes@) ==> r@ == decode_utf8(bytes@),
{
    String::from_utf8_lossy(bytes).into_owned()
}

/// The characters of each string.
pub open spec fn texts(v: Seq<String>) -> Seq<Seq<char>> {
    Seq::new(v.len(), |i: int| v[i]@)
}

/// The characters of each row.
pub open spec fn rows(v: Seq<Vec<char>>) -> Seq<Seq<char>> {
    Seq::new(v.len(), |i: int| v[i]@)
}

/// `s` with the characters from `a` up to `b` replaced by `t`.
pub open spec fn spliced(s: Seq<char>, a: int, b: int, t: Seq<char>) -> Seq<char> {
    s.take(a) + t + s.skip(b)
}

/// `p` is how `s` begins.
pub open spec fn begins_with(s: Seq<char>, p: Seq<char>) -> bool {
    p.len() <= s.len() && s.take(p.len() as int) == p
}

/// The characters of a string.
pub fn chars_of(s: &str) -> (r: Vec<char>)
    ensures
        r@ == s@,
{
    let mut r: Vec<char> = Vec::new();
    for c in it: s.chars()
        invariant
            r@ == s@.take(it.index() as int),
            it.seq() == s@,
    {
        r.push(c);
    }
    r
}

/// The string made of some characters.
pub fn string_of(v: &[char]) -> (r: String)
    ensures
        r@ == v@,
{
    let mut r = String::new();
    let mut i: usize = 0;
    while i < v.len()
        invariant
            i <= v@.len(),
            r@ == v@.take(i as int),
        decreases v@.len() - i,
    {
        r.push(v[i]);
        i += 1;
        assert(v@.take(i as int) =~= v@.take(i - 1).push(v@[i - 1]));
    }
    assert(v@.take(i as int) =~= v@);
    r
}

/// A copy of the characters from `a` up to `b`.
pub fn slice(v: &[char], a: usize, b: usize) -> (r: Vec<char>)
    requires
        a <= b <= v@.len(),
    ensures
        r@ == v@.subrange(a as int, b as int),
{
    let mut r: Vec<char> = Vec::new();
    let mut i: usize = a;
    while i < b
        invariant
            a <= i <= b <= v@.len(),
            r@ == v@.subrange(a as int, i as int),
        decreases b - i,
    {
        r.push(v[i]);
        i += 1;
        assert(v@.subrange(a as int, i as int) =~= v@.subrange(a as int, i - 1).push(v@[i - 1]));
    }
    r
}

/// A copy of some characters.
pub fn copy(v: &[char]) -> (r: Vec<char>)
    ensures
        r@ == v@,
{
    let r = slice(v, 0, v.len());
    assert(r@ =~= v@);
    r
}

/// Append the characters of `t`.
pub fn push_chars(v: &mut Vec<char>, t: &[char])
    ensures
        final(v)@ == old(v)@ + t@,
{
    let mut i: usize = 0;
    assert(old(v)@ + t@.take(0) =~= old(v)@);
    while i < t.len()
        invariant
            i <= t@.len(),
            v@ == old(v)@ + t@.take(i as int),
        decreases t@.len() - i,
    {
        v.push(t[i]);
        i += 1;
        assert(old(v)@ + t@.take(i as int) =~= (old(v)@ + t@.take(i - 1)).push(t@[i - 1]));
    }
    assert(t@.take(i as int) =~= t@);
}

/// Append the characters of a string.
pub fn push_str(v: &mut Vec<char>, t: &str)
    ensures
        final(v)@ == old(v)@ + t@,
{
    let t = chars_of(t);
    push_chars(v, t.as_slice());
}

/// The characters with those from `a` up to `b` replaced by `t`.
pub fn splice(v: &[char], a: usize, b: usize, t: &[char]) -> (r: Vec<char>)
    requires
        a <= b <= v@.len(),
    ensures
        r@ == spliced(v@, a as int, b as int, t@),
{
    let mut r = slice(v, 0, a);
    push_chars(&mut r, t);
    let tail = slice(v, b, v.len());
    push_chars(&mut r, tail.as_slice());
    assert(r@ =~= spliced(v@, a as int, b as int, t@));
    r
}

/// Whether two character sequences are equal.
pub fn same(a: &[char], b: &[char]) -> (r: bool)
    ensures
        r == (a@ == b@),
{
    if a.len() != b.len() {
        return false;
    }
    let mut i: usize = 0;
    while i < a.len()
        invariant
            i <= a@.len(),
            a@.len() == b@.len(),
            forall|k: int| 0 <= k < i ==> a@[k] == b@[k],
        decreases a@.len() - i,
    {
        if a[i] != b[i] {
            return false;
        }
        i += 1;
    }
    assert(a@ =~= b@);
    true
}

/// Two characters that are the same, or the same but for case when
/// `ignore_case` is set (their lowercase mappings agree).
pub open spec fn alike(a: char, b: char, ignore_case: bool) -> bool {
    a == b || ignore_case && lower_mapping(a) == lower_mapping(b)
}

/// Whether two characters are [`alike`].
pub fn chars_alike(a: char, b: char, ignore_case: bool) -> (r: bool)
    ensures
        r == alike(a, b, ignore_case),
{
    if a == b {
        true
    } else if ignore_case {
        let x = to_lower(a);
        let y = to_lower(b);
        same(x.as_slice(), y.as_slice())
    } else {
        false
    }
}

/// A text with each character in lowercase: the mappings one after another.
pub open spec fn folded(s: Seq<char>) -> Seq<char>
    decreases s.len(),
{
    if s.len() == 0 {
        Seq::empty()
    } else {
        folded(s.drop_last()) + lower_mapping(s.last())
    }
}

/// What is compared of a text: its characters, or those of its lowercase form
/// when `ignore_case` is set.
pub open spec fn compared(s: Seq<char>, ignore_case: bool) -> Seq<char> {
    if ignore_case {
        folded(s)
    } else {
        s
    }
}

/// Texts one after another are compared one after another.
proof fn compared_add(a: Seq<char>, b: Seq<char>, ignore_case: bool)
    ensures
        compared(a + b, ignore_case) == compared(a, ignore_case) + compared(b, ignore_case),
    decreases b.len(),
{
    if b.len() == 0 {
        assert(a + b =~= a);
        assert(compared(a, ignore_case) + compared(b, ignore_case) =~= compared(a, ignore_case));
    } else {
        compared_add(a, b.drop_last(), ignore_case);
        assert((a + b).drop_last() =~= a + b.drop_last());
        assert(compared(a + b, ignore_case) =~= compared(a, ignore_case) + compared(
            b,
            ignore_case,
        ));
    }
}

/// One character is compared as itself, or as its lowercase mapping.
proof fn compared_one(c: char, ignore_case: bool)
    ensures
        compared(seq![c], ignore_case) == (if ignore_case {
            lower_mapping(c)
        } else {
            seq![c]
        }),
{
    reveal_with_fuel(folded, 2);
    assert(seq![c].drop_last() =~= Seq::<char>::empty());
    assert(Seq::<char>::empty() + lower_mapping(c) =~= lower_mapping(c));
}

/// `q` stands in `s` at index `i`: what is compared of `s` from there on begins
/// with what is compared of `q`.
pub open spec fn occurs_at(s: Seq<char>, q: Seq<char>, i: int, ignore_case: bool) -> bool {
    &&& 0 <= i <= s.len()
    &&& compared(q, ignore_case).is_prefix_of(compared(s.skip(i), ignore_case))
}

/// `q` stands somewhere in `s`.
#[verifier::opaque]
pub open spec fn occurs(s: Seq<char>, q: Seq<char>, ignore_case: bool) -> bool {
    exists|i: int| occurs_at(s, q, i, ignore_case)
}

/// Where `q` first stands in `s`.
pub open spec fn first_occurrence(s: Seq<char>, q: Seq<char>, i: int, ignore_case: bool) -> bool {
    &&& occurs_at(s, q, i, ignore_case)
    &&& forall|j: int| 0 <= j < i ==> !occurs_at(s, q, j, ignore_case)
}

/// What is compared of a character.
fn compared_char(c: char, ignore_case: bool) -> (r: Vec<char>)
    ensures
        r@ == compared(seq![c], ignore_case),
{
    proof {
        compared_one(c, ignore_case);
    }
    if ignore_case {
        to_lower(c)
    } else {
        let r = vec![c];
        assert(r@ =~= seq![c]);
        r
    }
}

/// What is compared of a text.
fn compared_text(s: &[char], ignore_case: bool) -> (r: Vec<char>)
    ensures
        r@ == compared(s@, ignore_case),
{
    let mut r: Vec<char> = Vec::new();
    let mut i: usize = 0;
    assert(s@.take(0) =~= Seq::<char>::empty());
    while i < s.len()
        invariant
            i <= s@.len(),
            r@ == compared(s@.take(i as int), ignore_case),
        decreases s@.len() - i,
    {
        let c = compared_char(s[i], ignore_case);
        push_chars(&mut r, c.as_slice());
        proof {
            compared_add(s@.take(i as int), seq![s@[i as int]], ignore_case);
            assert(s@.take(i + 1) =~= s@.take(i as int) + seq![s@[i as int]]);
        }
        i += 1;
    }
    assert(s@.take(i as int) =~= s@);
    r
}

/// Whether `part` agrees with `want` from `base` on, as far as both go.
fn agrees(want: &[char], base: usize, part: &[char]) -> (r: bool)
    requires
        base <= want@.len(),
    ensures
        r == (forall|t: int|
            0 <= t < part@.len() && base + t < want@.len() ==> #[trigger] part@[t] == want@[base
                + t]),
{
    let mut t: usize = 0;
    while t < part.len() && t < want.len() - base
        invariant
            t <= part@.len(),
            t <= want@.len() - base,
            forall|u: int| 0 <= u < t ==> #[trigger] part@[u] == want@[base + u],
        decreases part@.len() - t,
    {
        if part[t] != want[base + t] {
            return false;
        }
        t += 1;
    }
    true
}

/// Whether what is compared of `s` from `i` on begins with `want`.
fn begins_at(s: &[char], want: &[char], i: usize, ignore_case: bool) -> (r: bool)
    requires
        i <= s@.len(),
    ensures
        r == want@.is_prefix_of(compared(s@.skip(i as int), ignore_case)),
{
    let ghost all = compared(s@.skip(i as int), ignore_case);
    let mut j: usize = i;
    let mut pos: usize = 0;
    proof {
        assert(s@.subrange(i as int, i as int) =~= Seq::<char>::empty());
        assert(want@.take(0) =~= compared(Seq::<char>::empty(), ignore_case));
        assert(all =~= want@.take(0) + compared(s@.skip(j as int), ignore_case));
    }
    while j < s.len() && pos < want.len()
        invariant
            i <= j <= s@.len(),
            pos <= want@.len(),
            all == compared(s@.skip(i as int), ignore_case),
            all == want@.take(pos as int) + compared(s@.skip(j as int), ignore_case),
        decreases s@.len() - j,
    {
        let part = compared_char(s[j], ignore_case);
        let ghost rest = compared(s@.skip(j + 1), ignore_case);
        proof {
            compared_add(seq![s@[j as int]], s@.skip(j + 1), ignore_case);
            assert(s@.skip(j as int) =~= seq![s@[j as int]] + s@.skip(j + 1));
            assert(all == want@.take(pos as int) + (part@ + rest));
            assert forall|t: int| 0 <= t < part@.len() implies all[pos + t]
                == #[trigger] part@[t] by {}
        }
        if !agrees(want, pos, part.as_slice()) {
            proof {
                let t = choose|t: int|
                    0 <= t < part@.len() && pos + t < want@.len() && #[trigger] part@[t]
                        != want@[pos + t];
                assert(all[pos + t] == part@[t]);
                if want@.is_prefix_of(all) {
                    assert(all.subrange(0, want@.len() as int)[pos + t] == all[pos + t]);
                }
            }
            return false;
        }
        if part.len() >= want.len() - pos {
            proof {
                assert forall|k: int| 0 <= k < want@.len() implies want@[k] == all[k] by {
                    if k >= pos {
                        assert(part@[k - pos] == want@[pos + (k - pos)]);
                    }
                }
                assert(want@ =~= all.subrange(0, want@.len() as int));
            }
            return true;
        }
        proof {
            assert(want@.take(pos + part@.len()) =~= want@.take(pos as int) + part@);
            assert(all =~= want@.take(pos + part@.len()) + rest);
        }
        pos += part.len();
        j += 1;
    }
    proof {
        if pos == want@.len() {
            assert(want@ =~= all.subrange(0, want@.len() as int));
        } else {
            assert(s@.skip(j as int) =~= Seq::<char>::empty());
            assert(all.len() == pos);
        }
    }
    pos == want.len()
}

/// Whether `q` stands in `s` at index `i`.
pub fn stands_at(s: &[char], q: &[char], i: usize, ignore_case: bool) -> (r: bool)
    ensures
        r == occurs_at(s@, q@, i as int, ignore_case),
{
    if i > s.len() {
        return false;
    }
    let want = compared_text(q, ignore_case);
    begins_at(s, want.as_slice(), i, ignore_case)
}

/// The index at which `q` first stands in `s`.
pub fn find_sub(s: &[char], q: &[char], ignore_case: bool) -> (r: Option<usize>)
    ensures
        r is Some <==> occurs(s@, q@, ignore_case),
        r matches Some(i) ==> first_occurrence(s@, q@, i as int, ignore_case),
{
    proof {
        reveal(occurs);
    }
    let want = compared_text(q, ignore_case);
    let mut i: usize = 0;
    while i < s.len()
        invariant
            i <= s@.len(),
            want@ == compared(q@, ignore_case),
            forall|j: int| 0 <= j < i ==> !occurs_at(s@, q@, j, ignore_case),
        decreases s@.len() - i,
    {
        if begins_at(s, want.as_slice(), i, ignore_case) {
            assert(occurs_at(s@, q@, i as int, ignore_case));
            assert(occurs(s@, q@, ignore_case)) by {
                reveal(occurs);
            }
            return Some(i);
        }
        i += 1;
    }
    if begins_at(s, want.as_slice(), i, ignore_case) {
        assert(occurs_at(s@, q@, i as int, ignore_case));
        return Some(i);
    }
    assert forall|j: int| !occurs_at(s@, q@, j, ignore_case) by {
        if occurs_at(s@, q@, j, ignore_case) {
            assert(j == s@.len());
        }
    }
    None
}

/// The first index from `from` on at which `c` stands.
pub open spec fn first_index(s: Seq<char>, from: int, c: char) -> Option<int>
    decreases s.len() - from,
{
    if from < 0 || from >= s.len() {
        None
    } else if s[from] == c {
        Some(from)
    } else {
        first_index(s, from + 1, c)
    }
}

/// The last index before `to` at which `c` stands.
pub open spec fn last_index(s: Seq<char>, to: int, c: char) -> Option<int>
    decreases to,
{
    if to <= 0 || to > s.len() {
        None
    } else if s[to - 1] == c {
        Some(to - 1)
    } else {
        last_index(s, to - 1, c)
    }
}

/// An index found in a character sequence, as a mathematical integer.
pub open spec fn as_index(i: Option<usize>) -> Option<int> {
    match i {
        Some(i) => Some(i as int),
        None => None,
    }
}

/// The first index from `from` on at which `c` stands.
pub fn index_from(s: &[char], from: usize, c: char) -> (r: Option<usize>)
    ensures
        as_index(r) == first_index(s@, from as int, c),
        r matches Some(i) ==> from <= i < s@.len() && s@[i as int] == c,
        r is None ==> forall|k: int| from <= k < s@.len() ==> #[trigger] s@[k] != c,
{
    let mut i: usize = from;
    while i < s.len()
        invariant
            from <= i,
            first_index(s@, from as int, c) == first_index(s@, i as int, c),
            forall|k: int| from <= k < i && k < s@.len() ==> #[trigger] s@[k] != c,
        decreases s@.len() - i,
    {
        if s[i] == c {
            return Some(i);
        }
        i += 1;
    }
    None
}

/// The last index before `to` at which `c` stands.
pub fn index_before(s: &[char], to: usize, c: char) -> (r: Option<usize>)
    requires
        to <= s@.len(),
    ensures
        as_index(r) == last_index(s@, to as int, c),
        r matches Some(i) ==> i < to && s@[i as int] == c,
{
    let mut i: usize = to;
    while i > 0
        invariant
            i <= to <= s@.len(),
            last_index(s@, to as int, c) == last_index(s@, i as int, c),
        decreases i,
    {
        if s[i - 1] == c {
            return Some(i - 1);
        }
        i -= 1;
    }
    None
}

/// The number of bytes that a character takes in UTF-8.
pub open spec fn utf8_len(c: char) -> nat {
    if (c as u32) < 0x80 {
        1
    } else if (c as u32) < 0x800 {
        2
    } else if (c as u32) < 0x10000 {
        3
    } else {
        4
    }
}

/// The number of bytes that a character takes in UTF-8.
pub fn char_bytes(c: char) -> (r: usize)
    ensures
        r == utf8_len(c),
{
    let v = c as u32;
    if v < 0x80 {
        1
    } else if v < 0x800 {
        2
    } else if v < 0x10000 {
        3
    } else {
        4
    }
}

/// The number of bytes that a text takes in UTF-8.
pub open spec fn byte_len(s: Seq<char>) -> nat
    decreases s.len(),
{
    if s.len() == 0 {
        0
    } else {
        utf8_len(s[0]) + byte_len(s.drop_first())
    }
}

/// The length counted by [`byte_len`] is that of the UTF-8 encoding.
pub proof fn byte_len_is_encoded_len(s: Seq<char>)
    ensures
        byte_len(s) == encode_utf8(s).len(),
    decreases s.len(),
{
    if s.len() > 0 {
        byte_len_is_encoded_len(s.drop_first());
        vstd::utf8::char_is_scalar(s[0]);
    }
}

/// Whether one text takes more bytes in UTF-8 than another.
pub fn longer(a: &[char], b: &[char]) -> (r: bool)
    ensures
        r == (byte_len(a@) > byte_len(b@)),
{
    let n = a.len();
    let m = b.len();
    let mut i: usize = 0;
    let mut lead: i128 = 0;
    assert(a@.skip(0) =~= a@);
    while i < n
        invariant
            i <= n == a@.len(),
            0 <= lead <= 4 * i,
            byte_len(a@) == lead + byte_len(a@.skip(i as int)),
        decreases a@.len() - i,
    {
        assert(a@.skip(i as int)[0] == a@[i as int]);
        lead = lead + char_bytes(a[i]) as i128;
        i += 1;
        assert(a@.skip(i - 1).drop_first() =~= a@.skip(i as int));
    }
    let mut k: usize = 0;
    assert(b@.skip(0) =~= b@);
    while k < m
        invariant
            k <= m == b@.len(),
            -4 * k <= lead <= 4 * n,
            byte_len(a@) + byte_len(b@.skip(k as int)) == lead + byte_len(b@),
        decreases b@.len() - k,
    {
        assert(b@.skip(k as int)[0] == b@[k as int]);
        lead = lead - char_bytes(b[k]) as i128;
        k += 1;
        assert(b@.skip(k - 1).drop_first() =~= b@.skip(k as int));
    }
    lead > 0
}

/// Byte lengths add up.
pub proof fn byte_len_add(a: Seq<char>, b: Seq<char>)
    ensures
        byte_len(a + b) == byte_len(a) + byte_len(b),
    decreases a.len(),
{
    if a.len() == 0 {
        assert(a + b =~= b);
    } else {
        byte_len_add(a.drop_first(), b);
        assert((a + b).drop_first() =~= a.drop_first() + b);
    }
}

/// The number of whole characters of `s` that fit in its first `bytes` bytes:
/// a byte offset, moved back to a character boundary, as a character index.
pub open spec fn char_index(s: Seq<char>, bytes: int) -> int
    decreases s.len(),
{
    if s.len() == 0 || utf8_len(s[0]) > bytes {
        0
    } else {
        1 + char_index(s.drop_first(), bytes - utf8_len(s[0]))
    }
}

/// A character index survives the trip through its byte offset.
pub proof fn char_index_of_byte_len(s: Seq<char>, k: int)
    requires
        0 <= k <= s.len(),
    ensures
        char_index(s, byte_len(s.take(k)) as int) == k,
    decreases s.len(),
{
    if k == 0 {
        assert(s.take(0) =~= Seq::<char>::empty());
    } else {
        char_index_of_byte_len(s.drop_first(), k - 1);
        assert(s.take(k).drop_first() =~= s.drop_first().take(k - 1));
    }
}

/// A character index never leaves the text.
pub proof fn char_index_bounds(s: Seq<char>, bytes: int)
    ensures
        0 <= char_index(s, bytes) <= s.len(),
        bytes >= 0 ==> byte_len(s.take(char_index(s, bytes))) <= bytes,
    decreases s.len(),
{
    if s.len() == 0 || utf8_len(s[0]) > bytes {
        assert(s.take(0) =~= Seq::<char>::empty());
    } else {
        let rest = bytes - utf8_len(s[0]);
        char_index_bounds(s.drop_first(), rest);
        let k = char_index(s.drop_first(), rest);
        assert(s.take(k + 1).drop_first() =~= s.drop_first().take(k));
    }
}

/// The character index of a byte offset, moved back to a boundary.
pub fn index_of_byte(s: &[char], bytes: usize) -> (r: usize)
    ensures
        r == char_index(s@, bytes as int),
        r <= s@.len(),
{
    let mut i: usize = 0;
    let mut left: usize = bytes;
    assert(s@.skip(0) =~= s@);
    while i < s.len()
        invariant
            i <= s@.len(),
            char_index(s@, bytes as int) == i + char_index(s@.skip(i as int), left as int),
        decreases s@.len() - i,
    {
        let n = char_bytes(s[i]);
        assert(s@.skip(i as int)[0] == s@[i as int]);
        if n > left {
            return i;
        }
        left -= n;
        i += 1;
        assert(s@.skip(i - 1).drop_first() =~= s@.skip(i as int));
    }
    i
}

/// The byte offset of a character index.
pub fn byte_of_index(s: &[char], i: usize) -> (r: usize)
    requires
        i <= s@.len(),
    ensures
        r == byte_len(s@.take(i as int)) as usize,
{
    let head = slice(s, 0, i);
    assert(head@ =~= s@.take(i as int));
    let text = string_of(head.as_slice());
    proof {
        byte_len_is_encoded_len(s@.take(i as int));
    }
    text.as_str().len()
}

/// The decimal digits of a number.
pub open spec fn decimal(n: nat) -> Seq<char>
    decreases n,
{
    if n < 10 {
        seq![digit(n)]
    } else {
        decimal(n / 10).push(digit(n % 10))
    }
}

/// The character of a decimal digit.
pub open spec fn digit(d: nat) -> char {
    (('0' as u32) + d) as char
}

/// Append the decimal digits of a number.
pub fn push_decimal(v: &mut Vec<char>, n: u64)
    ensures
        final(v)@ == old(v)@ + decimal(n as nat),
    decreases n,
{
    if n >= 10 {
        push_decimal(v, n / 10);
    }
    let d = (n % 10) as u8;
    v.push((48 + d) as char);
    assert(v@ =~= old(v)@ + decimal(n as nat));
}

} // verus!
