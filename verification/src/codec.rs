//! Byte framing for cache payloads: little-endian integers, length-prefixed
//! character data, and lists. Every value the cache stores is encoded with
//! these primitives, and decoding is proved to invert encoding, so a cache
//! entry that fails to decode can only be a corrupted or foreign payload.
use vstd::prelude::*;
use vstd::utf8::is_scalar;

verus! {

/// A value the cache can hold: it can frame itself as bytes and read
/// itself back, and reading back what was framed returns a value with the
/// same content.
pub trait Cacheable: Sized {
    /// The mathematical content of the value.
    type Repr;

    /// The content of this value.
    spec fn repr(&self) -> Self::Repr;

    /// Bounds under which the encoding is faithful; every value built by
    /// executable code satisfies them, as `encode` itself shows.
    spec fn bounded(&self) -> bool;

    /// The byte image of the value.
    spec fn encoding(&self) -> Seq<u8>;

    /// The content a byte image decodes to, if any.
    spec fn decoded(bytes: Seq<u8>) -> Option<Self::Repr>;

    /// Decoding inverts encoding.
    proof fn lemma_round_trip(&self)
        requires
            self.bounded(),
        ensures
            Self::decoded(self.encoding()) == Some(self.repr()),
    ;

    /// Frames the value as bytes.
    fn encode(&self) -> (r: Vec<u8>)
        ensures
            r@ == self.encoding(),
            self.bounded(),
    ;

    /// Reads a value back from bytes.
    fn decode(bytes: &Vec<u8>) -> (r: Option<Self>)
        ensures
            match r {
                Some(v) => Self::decoded(bytes@) == Some(v.repr()),
                None => Self::decoded(bytes@) is None,
            },
    ;
}

/// The little-endian image of a 64-bit integer.
pub open spec fn enc_u64(v: u64) -> Seq<u8> {
    seq![
        (v & 0xff) as u8,
        ((v >> 8) & 0xff) as u8,
        ((v >> 16) & 0xff) as u8,
        ((v >> 24) & 0xff) as u8,
        ((v >> 32) & 0xff) as u8,
        ((v >> 40) & 0xff) as u8,
        ((v >> 48) & 0xff) as u8,
        ((v >> 56) & 0xff) as u8,
    ]
}

/// The 64-bit integer eight little-endian bytes hold.
pub open spec fn u64_of_le(
    b0: u8,
    b1: u8,
    b2: u8,
    b3: u8,
    b4: u8,
    b5: u8,
    b6: u8,
    b7: u8,
) -> u64 {
    (b0 as u64) | ((b1 as u64) << 8) | ((b2 as u64) << 16) | ((b3 as u64) << 24) | ((b4 as u64)
        << 32) | ((b5 as u64) << 40) | ((b6 as u64) << 48) | ((b7 as u64) << 56)
}

proof fn lemma_u64_le_round_trip(v: u64)
    ensures
        u64_of_le(
            (v & 0xff) as u8,
            ((v >> 8) & 0xff) as u8,
            ((v >> 16) & 0xff) as u8,
            ((v >> 24) & 0xff) as u8,
            ((v >> 32) & 0xff) as u8,
            ((v >> 40) & 0xff) as u8,
            ((v >> 48) & 0xff) as u8,
            ((v >> 56) & 0xff) as u8,
        ) == v,
{
    assert((((v & 0xff) as u8) as u64) | ((((v >> 8) & 0xff) as u8) as u64) << 8 | ((((v >> 16)
        & 0xff) as u8) as u64) << 16 | ((((v >> 24) & 0xff) as u8) as u64) << 24 | ((((v >> 32)
        & 0xff) as u8) as u64) << 32 | ((((v >> 40) & 0xff) as u8) as u64) << 40 | ((((v >> 48)
        & 0xff) as u8) as u64) << 48 | ((((v >> 56) & 0xff) as u8) as u64) << 56 == v)
        by (bit_vector);
}

/// What parsing a 64-bit integer at `i` yields: the value and the position
/// after it, or nothing if fewer than eight bytes remain.
pub open spec fn sparse_u64(b: Seq<u8>, i: int) -> Option<(u64, int)> {
    if 0 <= i && i + 8 <= b.len() {
        Some(
            (
                u64_of_le(
                    b[i],
                    b[i + 1],
                    b[i + 2],
                    b[i + 3],
                    b[i + 4],
                    b[i + 5],
                    b[i + 6],
                    b[i + 7],
                ),
                i + 8,
            ),
        )
    } else {
        None
    }
}

/// Parsing right after an encoded integer returns that integer.
pub proof fn lemma_sparse_enc_u64(b: Seq<u8>, i: int, v: u64)
    requires
        0 <= i,
        i + 8 <= b.len(),
        b.subrange(i, i + 8) == enc_u64(v),
    ensures
        sparse_u64(b, i) == Some((v, i + 8)),
{
    assert(b[i] == enc_u64(v)[0]);
    assert(b[i + 1] == enc_u64(v)[1]);
    assert(b[i + 2] == enc_u64(v)[2]);
    assert(b[i + 3] == enc_u64(v)[3]);
    assert(b[i + 4] == enc_u64(v)[4]);
    assert(b[i + 5] == enc_u64(v)[5]);
    assert(b[i + 6] == enc_u64(v)[6]);
    assert(b[i + 7] == enc_u64(v)[7]);
    lemma_u64_le_round_trip(v);
}

/// Appends the little-endian image of `v` to `out`.
pub fn push_u64(v: u64, out: &mut Vec<u8>)
    ensures
        final(out)@ == old(out)@ + enc_u64(v),
{
    out.push((v & 0xff) as u8);
    out.push(((v >> 8) & 0xff) as u8);
    out.push(((v >> 16) & 0xff) as u8);
    out.push(((v >> 24) & 0xff) as u8);
    out.push(((v >> 32) & 0xff) as u8);
    out.push(((v >> 40) & 0xff) as u8);
    out.push(((v >> 48) & 0xff) as u8);
    out.push(((v >> 56) & 0xff) as u8);
    proof {
        assert(final(out)@ =~= old(out)@ + enc_u64(v));
    }
}

/// Parses a 64-bit integer at `i`.
pub fn parse_u64(b: &Vec<u8>, i: usize) -> (r: Option<(u64, usize)>)
    requires
        i <= b@.len(),
    ensures
        sparse_u64(b@, i as int) == match r {
            Some((v, j)) => Some((v, j as int)),
            None => None::<(u64, int)>,
        },
{
    if b.len() - i < 8 {
        return None;
    }
    let v = (b[i] as u64) | ((b[i + 1] as u64) << 8) | ((b[i + 2] as u64) << 16) | ((b[i + 3]
        as u64) << 24) | ((b[i + 4] as u64) << 32) | ((b[i + 5] as u64) << 40) | ((b[i + 6] as u64)
        << 48) | ((b[i + 7] as u64) << 56);
    Some((v, i + 8))
}

/// The image of one character: its code point, little-endian.
pub open spec fn enc_char(c: char) -> Seq<u8> {
    enc_u64((c as u32) as u64)
}

/// What parsing one character at `i` yields: the integer there must be a
/// Unicode scalar value.
pub open spec fn sparse_char(b: Seq<u8>, i: int) -> Option<(char, int)> {
    match sparse_u64(b, i) {
        Some((v, j)) => if v <= u32::MAX && is_scalar(v as u32) {
            Some(((v as u32) as char, j))
        } else {
            None
        },
        None => None,
    }
}

/// Turns a Unicode scalar value into the character it denotes.
/// Relies on char::from_u32, which returns the character for every valid
/// scalar value.
#[verifier::external_body]
fn char_of_scalar(v: u32) -> (c: char)
    requires
        is_scalar(v),
    ensures
        c == v as char,
{
    char::from_u32(v).unwrap_or(' ')
}

/// Parses one character at `i`.
pub fn parse_char(b: &Vec<u8>, i: usize) -> (r: Option<(char, usize)>)
    requires
        i <= b@.len(),
    ensures
        sparse_char(b@, i as int) == match r {
            Some((c, j)) => Some((c, j as int)),
            None => None::<(char, int)>,
        },
{
    match parse_u64(b, i) {
        Some((v, j)) => {
            if v > u32::MAX as u64 {
                return None;
            }
            let u = v as u32;
            let ok = if u < 0xD800 {
                true
            } else if u < 0xE000 {
                false
            } else {
                u <= 0x10FFFF
            };
            if !ok {
                return None;
            }
            proof {
                assert(is_scalar(u));
            }
            Some((char_of_scalar(u), j))
        },
        None => None,
    }
}

/// Parsing right after an encoded character returns that character.
pub proof fn lemma_sparse_enc_char(b: Seq<u8>, i: int, c: char)
    requires
        0 <= i,
        i + 8 <= b.len(),
        b.subrange(i, i + 8) == enc_char(c),
    ensures
        sparse_char(b, i) == Some((c, i + 8)),
{
    let v = (c as u32) as u64;
    lemma_sparse_enc_u64(b, i, v);
    vstd::utf8::char_is_scalar(c);
    assert(v <= u32::MAX);
    assert(v as u32 == c as u32);
    vstd::utf8::char_u32_cast(c, c as u32);
}

/// The image of a character sequence: each character in order.
pub open spec fn enc_chars(s: Seq<char>) -> Seq<u8>
    decreases s.len(),
{
    if s.len() == 0 {
        Seq::empty()
    } else {
        enc_chars(s.drop_last()) + enc_char(s.last())
    }
}

/// The image of a character sequence has eight bytes per character.
pub proof fn lemma_enc_chars_len(s: Seq<char>)
    ensures
        enc_chars(s).len() == 8 * s.len(),
    decreases s.len(),
{
    if s.len() > 0 {
        lemma_enc_chars_len(s.drop_last());
    }
}

/// The image of a string: its length, then its characters.
pub open spec fn enc_str(s: Seq<char>) -> Seq<u8> {
    enc_u64(s.len() as u64) + enc_chars(s)
}

/// What parsing `count` characters at `i` yields.
pub open spec fn sparse_chars(b: Seq<u8>, i: int, count: int) -> Option<(Seq<char>, int)>
    decreases count,
{
    if count <= 0 {
        Some((Seq::empty(), i))
    } else {
        match sparse_char(b, i) {
            Some((c, j)) => match sparse_chars(b, j, count - 1) {
                Some((s, k)) => Some((seq![c] + s, k)),
                None => None,
            },
            None => None,
        }
    }
}

/// Splitting a character sequence parse after its first character.
proof fn lemma_sparse_chars_step(b: Seq<u8>, i: int, count: int, c: char, j: int)
    requires
        count > 0,
        sparse_char(b, i) == Some((c, j)),
    ensures
        sparse_chars(b, i, count) == match sparse_chars(b, j, count - 1) {
            Some((s, k)) => Some((seq![c] + s, k)),
            None => None::<(Seq<char>, int)>,
        },
{
}

/// Parses `count` characters at `i`.
pub fn parse_chars(b: &Vec<u8>, i: usize, count: usize) -> (r: Option<(Vec<char>, usize)>)
    requires
        i <= b@.len(),
    ensures
        sparse_chars(b@, i as int, count as int) == match r {
            Some((s, j)) => Some((s@, j as int)),
            None => None::<(Seq<char>, int)>,
        },
        r matches Some(p) ==> p.1 <= b@.len(),
{
    let mut out: Vec<char> = Vec::new();
    let mut cur: usize = i;
    let mut done: usize = 0;
    proof {
        match sparse_chars(b@, i as int, count as int) {
            Some(p) => {
                assert(Seq::<char>::empty() + p.0 =~= p.0);
            },
            None => {},
        }
    }
    while done < count
        invariant
            i <= b@.len(),
            cur <= b@.len(),
            done <= count,
            out@.len() == done,
            match sparse_chars(b@, cur as int, (count - done) as int) {
                Some((s, k)) => sparse_chars(b@, i as int, count as int) == Some((out@ + s, k)),
                None => sparse_chars(b@, i as int, count as int) is None,
            },
        decreases count - done,
    {
        let parsed = parse_char(b, cur);
        match parsed {
            Some((c, j)) => {
                proof {
                    lemma_sparse_chars_step(b@, cur as int, (count - done) as int, c, j as int);
                    match sparse_chars(b@, j as int, (count - done - 1) as int) {
                        Some(p) => {
                            assert(out@ + (seq![c] + p.0) =~= out@.push(c) + p.0);
                        },
                        None => {},
                    }
                }
                out.push(c);
                cur = j;
                done = done + 1;
            },
            None => {
                return None;
            },
        }
    }
    proof {
        assert(out@ + Seq::<char>::empty() =~= out@);
    }
    Some((out, cur))
}

/// What parsing a string at `i` yields: a length, then that many
/// characters.
pub open spec fn sparse_str(b: Seq<u8>, i: int) -> Option<(Seq<char>, int)> {
    match sparse_u64(b, i) {
        Some((n, j)) => if n <= usize::MAX {
            sparse_chars(b, j, n as int)
        } else {
            None
        },
        None => None,
    }
}

/// Parses a string at `i`.
pub fn parse_str(b: &Vec<u8>, i: usize) -> (r: Option<(Vec<char>, usize)>)
    requires
        i <= b@.len(),
    ensures
        sparse_str(b@, i as int) == match r {
            Some((s, j)) => Some((s@, j as int)),
            None => None::<(Seq<char>, int)>,
        },
        r matches Some(p) ==> p.1 <= b@.len(),
{
    match parse_u64(b, i) {
        Some((n, j)) => {
            if n > usize::MAX as u64 {
                return None;
            }
            // More characters than eight bytes each can ever fit the
            // remaining space; reject early so the count fits a usize.
            if n > (b.len() as u64) {
                proof {
                    lemma_sparse_chars_none(b@, j as int, n as int);
                }
                return None;
            }
            parse_chars(b, j, n as usize)
        },
        None => None,
    }
}

/// Parsing more characters than there are bytes left always fails.
proof fn lemma_sparse_chars_none(b: Seq<u8>, i: int, count: int)
    requires
        0 <= i,
        0 < count,
        b.len() < i + count,
    ensures
        sparse_chars(b, i, count) is None,
    decreases count,
{
    if count > 0 {
        match sparse_char(b, i) {
            Some(p) => {
                assert(p.1 == i + 8);
                lemma_sparse_chars_none(b, p.1, count - 1);
                assert(sparse_chars(b, p.1, count - 1) is None);
                assert(sparse_chars(b, i, count) is None);
            },
            None => {
                assert(sparse_chars(b, i, count) is None);
            },
        }
    }
}

/// A subrange of a subrange reads the same bytes as the corresponding
/// subrange of the whole.
proof fn lemma_subrange_split(b: Seq<u8>, i: int, mid: int, j: int)
    requires
        0 <= i,
        0 <= mid,
        i + mid <= j <= b.len(),
    ensures
        b.subrange(i, j).subrange(0, mid) == b.subrange(i, i + mid),
        b.subrange(i, j).subrange(mid, j - i) == b.subrange(i + mid, j),
{
    assert(b.subrange(i, j).subrange(0, mid) =~= b.subrange(i, i + mid));
    assert(b.subrange(i, j).subrange(mid, j - i) =~= b.subrange(i + mid, j));
}

/// Parsing right after an encoded character sequence returns it.
pub proof fn lemma_sparse_enc_chars(b: Seq<u8>, i: int, s: Seq<char>)
    requires
        0 <= i,
        i + enc_chars(s).len() <= b.len(),
        b.subrange(i, i + enc_chars(s).len() as int) == enc_chars(s),
    ensures
        sparse_chars(b, i, s.len() as int) == Some((s, i + enc_chars(s).len())),
    decreases s.len(),
{
    lemma_enc_chars_len(s);
    if s.len() == 0 {
        assert(sparse_chars(b, i, 0) == Some((Seq::<char>::empty(), i)));
        assert(Seq::<char>::empty() =~= s);
    } else {
        let head = s.first();
        let rest = s.drop_first();
        let len = enc_chars(s).len() as int;
        lemma_enc_chars_len(rest);
        lemma_enc_chars_front(s);
        lemma_subrange_split(b, i, 8, i + len);
        assert(enc_chars(s).subrange(0, 8) =~= enc_char(head));
        assert(b.subrange(i, i + 8) == enc_chars(s).subrange(0, 8));
        lemma_sparse_enc_char(b, i, head);
        assert(enc_chars(s).subrange(8, len) =~= enc_chars(rest));
        assert(b.subrange(i + 8, i + len) == enc_chars(s).subrange(8, len));
        lemma_sparse_enc_chars(b, i + 8, rest);
        lemma_sparse_chars_step(b, i, s.len() as int, head, i + 8);
        assert(seq![head] + rest =~= s);
    }
}

/// The character-sequence image can also be split at the front.
proof fn lemma_enc_chars_front(s: Seq<char>)
    requires
        s.len() > 0,
    ensures
        enc_chars(s) == enc_char(s.first()) + enc_chars(s.drop_first()),
    decreases s.len(),
{
    if s.len() == 1 {
        assert(s.drop_last() =~= Seq::<char>::empty());
        assert(s.drop_first() =~= Seq::<char>::empty());
        assert(enc_chars(s) =~= enc_char(s.first()) + enc_chars(s.drop_first()));
    } else {
        let inner = s.drop_last();
        lemma_enc_chars_front(inner);
        assert(s.drop_first().drop_last() =~= inner.drop_first());
        assert(s.drop_first().last() == s.last());
        assert(inner.first() == s.first());
        assert(enc_chars(s.drop_first()) == enc_chars(inner.drop_first()) + enc_char(s.last()));
        assert(enc_chars(s) =~= enc_char(s.first()) + enc_chars(s.drop_first()));
    }
}

/// Parsing right after an encoded string returns it.
pub proof fn lemma_sparse_enc_str(b: Seq<u8>, i: int, s: Seq<char>)
    requires
        0 <= i,
        s.len() <= usize::MAX,
        i + enc_str(s).len() <= b.len(),
        b.subrange(i, i + enc_str(s).len() as int) == enc_str(s),
    ensures
        sparse_str(b, i) == Some((s, i + enc_str(s).len())),
{
    lemma_enc_chars_len(s);
    let len = enc_str(s).len() as int;
    lemma_subrange_split(b, i, 8, i + len);
    assert(enc_str(s).subrange(0, 8) =~= enc_u64(s.len() as u64));
    assert(b.subrange(i, i + 8) == enc_str(s).subrange(0, 8));
    lemma_sparse_enc_u64(b, i, s.len() as u64);
    assert(enc_str(s).subrange(8, len) =~= enc_chars(s));
    assert(b.subrange(i + 8, i + len) == enc_str(s).subrange(8, len));
    lemma_sparse_enc_chars(b, i + 8, s);
}

/// Appends the image of the characters of `s` to `out`.
pub fn push_chars(s: &Vec<char>, out: &mut Vec<u8>)
    ensures
        final(out)@ == old(out)@ + enc_chars(s@),
{
    let mut k: usize = 0;
    proof {
        assert(old(out)@ + enc_chars(s@.take(0)) =~= old(out)@);
    }
    while k < s.len()
        invariant
            k <= s.len(),
            out@ == old(out)@ + enc_chars(s@.take(k as int)),
        decreases s.len() - k,
    {
        let c = s[k];
        push_u64((c as u32) as u64, out);
        k = k + 1;
        proof {
            assert(s@.take(k as int).drop_last() =~= s@.take(k - 1));
            assert(out@ =~= old(out)@ + enc_chars(s@.take(k as int)));
        }
    }
    proof {
        assert(s@.take(s@.len() as int) =~= s@);
    }
}

/// Appends the image of string `s` to `out`.
pub fn push_str_enc(s: &str, out: &mut Vec<u8>)
    ensures
        final(out)@ == old(out)@ + enc_str(s@),
        s@.len() <= usize::MAX,
{
    let cs = crate::text::chars_of(s);
    push_u64(cs.len() as u64, out);
    push_chars(&cs, out);
    proof {
        assert(final(out)@ =~= old(out)@ + enc_str(s@));
    }
}

/// The image of a single byte.
pub open spec fn enc_u8(v: u8) -> Seq<u8> {
    seq![v]
}

/// What parsing a single byte at `i` yields.
pub open spec fn sparse_u8(b: Seq<u8>, i: int) -> Option<(u8, int)> {
    if 0 <= i && i + 1 <= b.len() {
        Some((b[i], i + 1))
    } else {
        None
    }
}

/// Parses a single byte at `i`.
pub fn parse_u8(b: &Vec<u8>, i: usize) -> (r: Option<(u8, usize)>)
    requires
        i <= b@.len(),
    ensures
        sparse_u8(b@, i as int) == match r {
            Some((v, j)) => Some((v, j as int)),
            None => None::<(u8, int)>,
        },
{
    if b.len() - i < 1 {
        return None;
    }
    Some((b[i], i + 1))
}

/// Reading a concatenation takes its first part, then its second.
pub proof fn lemma_peel(b: Seq<u8>, i: int, x: Seq<u8>, y: Seq<u8>)
    requires
        0 <= i,
        i + x.len() + y.len() <= b.len(),
        b.subrange(i, i + x.len() + y.len()) == x + y,
    ensures
        b.subrange(i, i + x.len()) == x,
        b.subrange(i + x.len(), i + x.len() + y.len()) == y,
{
    lemma_subrange_split(b, i, x.len() as int, i + x.len() + y.len());
    assert((x + y).subrange(0, x.len() as int) =~= x);
    assert((x + y).subrange(x.len() as int, (x + y).len() as int) =~= y);
}

/// A parsed character sequence ends between its start and the end of the
/// input.
pub proof fn lemma_sparse_chars_range(b: Seq<u8>, i: int, count: int)
    requires
        0 <= i <= b.len(),
    ensures
        sparse_chars(b, i, count) matches Some(p) ==> i <= p.1 <= b.len(),
    decreases count,
{
    if count > 0 {
        match sparse_char(b, i) {
            Some(p) => {
                lemma_sparse_chars_range(b, p.1, count - 1);
            },
            None => {},
        }
    }
}

/// A parsed string ends between its start and the end of the input.
pub proof fn lemma_sparse_str_range(b: Seq<u8>, i: int)
    requires
        0 <= i,
    ensures
        sparse_str(b, i) matches Some(p) ==> i + 8 <= p.1 <= b.len(),
{
    match sparse_u64(b, i) {
        Some((n, j)) => {
            if n <= usize::MAX {
                lemma_sparse_chars_range(b, j, n as int);
            }
        },
        None => {},
    }
}

/// The image of a sequence of strings, each length-prefixed, in order.
pub open spec fn enc_strs(v: Seq<Seq<char>>) -> Seq<u8>
    decreases v.len(),
{
    if v.len() == 0 {
        Seq::empty()
    } else {
        enc_strs(v.drop_last()) + enc_str(v.last())
    }
}

/// The image of a list of strings: the count, then the strings.
pub open spec fn enc_str_list(v: Seq<Seq<char>>) -> Seq<u8> {
    enc_u64(v.len() as u64) + enc_strs(v)
}

/// The string-sequence image can also be split at the front.
proof fn lemma_enc_strs_front(v: Seq<Seq<char>>)
    requires
        v.len() > 0,
    ensures
        enc_strs(v) == enc_str(v.first()) + enc_strs(v.drop_first()),
    decreases v.len(),
{
    if v.len() == 1 {
        assert(v.drop_last() =~= Seq::<Seq<char>>::empty());
        assert(v.drop_first() =~= Seq::<Seq<char>>::empty());
        assert(enc_strs(v) =~= enc_str(v.first()) + enc_strs(v.drop_first()));
    } else {
        let inner = v.drop_last();
        lemma_enc_strs_front(inner);
        assert(v.drop_first().drop_last() =~= inner.drop_first());
        assert(v.drop_first().last() == v.last());
        assert(inner.first() == v.first());
        assert(enc_strs(v.drop_first()) == enc_strs(inner.drop_first()) + enc_str(v.last()));
        assert(enc_strs(v) =~= enc_str(v.first()) + enc_strs(v.drop_first()));
    }
}

/// What parsing `count` strings at `i` yields.
pub open spec fn sparse_strs(b: Seq<u8>, i: int, count: int) -> Option<(Seq<Seq<char>>, int)>
    decreases count,
{
    if count <= 0 {
        Some((Seq::empty(), i))
    } else {
        match sparse_str(b, i) {
            Some((s, j)) => match sparse_strs(b, j, count - 1) {
                Some((v, k)) => Some((seq![s] + v, k)),
                None => None,
            },
            None => None,
        }
    }
}

/// What parsing a list of strings at `i` yields: a count, then that many
/// strings.
pub open spec fn sparse_str_list(b: Seq<u8>, i: int) -> Option<(Seq<Seq<char>>, int)> {
    match sparse_u64(b, i) {
        Some((n, j)) => if n <= usize::MAX {
            sparse_strs(b, j, n as int)
        } else {
            None
        },
        None => None,
    }
}

/// Splitting a string-sequence parse after its first string.
proof fn lemma_sparse_strs_step(b: Seq<u8>, i: int, count: int, s: Seq<char>, j: int)
    requires
        count > 0,
        sparse_str(b, i) == Some((s, j)),
    ensures
        sparse_strs(b, i, count) == match sparse_strs(b, j, count - 1) {
            Some((v, k)) => Some((seq![s] + v, k)),
            None => None::<(Seq<Seq<char>>, int)>,
        },
{
}

/// Parsing more strings than there are bytes left always fails.
proof fn lemma_sparse_strs_none(b: Seq<u8>, i: int, count: int)
    requires
        0 <= i,
        0 < count,
        b.len() < i + count,
    ensures
        sparse_strs(b, i, count) is None,
    decreases count,
{
    match sparse_str(b, i) {
        Some(p) => {
            lemma_sparse_str_range(b, i);
            if count == 1 {
                assert(b.len() < i + 1);
                assert(sparse_u64(b, i) is None);
                assert(false);
            } else {
                lemma_sparse_strs_none(b, p.1, count - 1);
            }
        },
        None => {},
    }
}

/// A parsed string sequence ends between its start and the end of the
/// input.
pub proof fn lemma_sparse_strs_range(b: Seq<u8>, i: int, count: int)
    requires
        0 <= i <= b.len(),
    ensures
        sparse_strs(b, i, count) matches Some(p) ==> i <= p.1 <= b.len(),
    decreases count,
{
    if count > 0 {
        match sparse_str(b, i) {
            Some(p) => {
                lemma_sparse_str_range(b, i);
                lemma_sparse_strs_range(b, p.1, count - 1);
            },
            None => {},
        }
    }
}

/// Parses a string at `i` into an owned string.
pub fn parse_string(b: &Vec<u8>, i: usize) -> (r: Option<(String, usize)>)
    requires
        i <= b@.len(),
    ensures
        sparse_str(b@, i as int) == match r {
            Some((s, j)) => Some((s@, j as int)),
            None => None::<(Seq<char>, int)>,
        },
        r matches Some(p) ==> p.1 <= b@.len(),
{
    match parse_str(b, i) {
        Some((cs, j)) => Some((crate::text::string_of_chars(&cs), j)),
        None => None,
    }
}

/// Parses `count` strings at `i`.
pub fn parse_strings(b: &Vec<u8>, i: usize, count: usize) -> (r: Option<(Vec<String>, usize)>)
    requires
        i <= b@.len(),
    ensures
        sparse_strs(b@, i as int, count as int) == match r {
            Some((v, j)) => Some((v@.map_values(|s: String| s@), j as int)),
            None => None::<(Seq<Seq<char>>, int)>,
        },
        r matches Some(p) ==> p.1 <= b@.len(),
{
    let mut out: Vec<String> = Vec::new();
    let mut cur: usize = i;
    let mut done: usize = 0;
    proof {
        match sparse_strs(b@, i as int, count as int) {
            Some(p) => {
                assert(Seq::<Seq<char>>::empty() + p.0 =~= p.0);
                assert(out@.map_values(|s: String| s@) =~= Seq::<Seq<char>>::empty());
            },
            None => {},
        }
    }
    while done < count
        invariant
            i <= b@.len(),
            cur <= b@.len(),
            done <= count,
            out@.len() == done,
            match sparse_strs(b@, cur as int, (count - done) as int) {
                Some((v, k)) => sparse_strs(b@, i as int, count as int) == Some(
                    (out@.map_values(|s: String| s@) + v, k),
                ),
                None => sparse_strs(b@, i as int, count as int) is None,
            },
        decreases count - done,
    {
        let parsed = parse_string(b, cur);
        match parsed {
            Some((sv, j)) => {
                proof {
                    lemma_sparse_strs_step(b@, cur as int, (count - done) as int, sv@, j as int);
                    match sparse_strs(b@, j as int, (count - done - 1) as int) {
                        Some(p) => {
                            assert(out@.map_values(|s: String| s@) + (seq![sv@] + p.0)
                                =~= out@.push(sv).map_values(|s: String| s@) + p.0);
                        },
                        None => {},
                    }
                }
                out.push(sv);
                cur = j;
                done = done + 1;
            },
            None => {
                return None;
            },
        }
    }
    proof {
        assert(out@.map_values(|s: String| s@) + Seq::<Seq<char>>::empty() =~= out@.map_values(
            |s: String| s@,
        ));
    }
    Some((out, cur))
}

/// Parses a list of strings at `i`.
pub fn parse_string_list(b: &Vec<u8>, i: usize) -> (r: Option<(Vec<String>, usize)>)
    requires
        i <= b@.len(),
    ensures
        sparse_str_list(b@, i as int) == match r {
            Some((v, j)) => Some((v@.map_values(|s: String| s@), j as int)),
            None => None::<(Seq<Seq<char>>, int)>,
        },
        r matches Some(p) ==> p.1 <= b@.len(),
{
    match parse_u64(b, i) {
        Some((n, j)) => {
            if n > usize::MAX as u64 {
                return None;
            }
            if n > (b.len() as u64) {
                proof {
                    lemma_sparse_strs_none(b@, j as int, n as int);
                }
                return None;
            }
            parse_strings(b, j, n as usize)
        },
        None => None,
    }
}

/// Parsing right after an encoded string sequence returns it.
pub proof fn lemma_sparse_enc_strs(b: Seq<u8>, i: int, v: Seq<Seq<char>>)
    requires
        0 <= i,
        forall|t: int| 0 <= t < v.len() ==> #[trigger] v[t].len() <= usize::MAX,
        i + enc_strs(v).len() <= b.len(),
        b.subrange(i, i + enc_strs(v).len() as int) == enc_strs(v),
    ensures
        sparse_strs(b, i, v.len() as int) == Some((v, i + enc_strs(v).len())),
    decreases v.len(),
{
    if v.len() == 0 {
        assert(sparse_strs(b, i, 0) == Some((Seq::<Seq<char>>::empty(), i)));
        assert(Seq::<Seq<char>>::empty() =~= v);
    } else {
        let head = v.first();
        let rest = v.drop_first();
        lemma_enc_strs_front(v);
        lemma_peel(b, i, enc_str(head), enc_strs(rest));
        lemma_sparse_enc_str(b, i, head);
        lemma_sparse_enc_strs(b, i + enc_str(head).len(), rest);
        lemma_sparse_strs_step(b, i, v.len() as int, head, i + enc_str(head).len());
        assert(seq![head] + rest =~= v);
    }
}

/// Parsing right after an encoded list of strings returns it.
pub proof fn lemma_sparse_enc_str_list(b: Seq<u8>, i: int, v: Seq<Seq<char>>)
    requires
        0 <= i,
        v.len() <= usize::MAX,
        forall|t: int| 0 <= t < v.len() ==> #[trigger] v[t].len() <= usize::MAX,
        i + enc_str_list(v).len() <= b.len(),
        b.subrange(i, i + enc_str_list(v).len() as int) == enc_str_list(v),
    ensures
        sparse_str_list(b, i) == Some((v, i + enc_str_list(v).len())),
{
    lemma_peel(b, i, enc_u64(v.len() as u64), enc_strs(v));
    lemma_sparse_enc_u64(b, i, v.len() as u64);
    lemma_sparse_enc_strs(b, i + 8, v);
}

/// Appends the image of each string of `v`, in order, to `out`.
pub fn push_strs(v: &Vec<String>, out: &mut Vec<u8>)
    ensures
        final(out)@ == old(out)@ + enc_strs(v@.map_values(|s: String| s@)),
        forall|t: int| 0 <= t < v@.len() ==> (#[trigger] v@[t])@.len() <= usize::MAX,
{
    let ghost views = v@.map_values(|s: String| s@);
    let mut k: usize = 0;
    proof {
        assert(old(out)@ + enc_strs(views.take(0)) =~= old(out)@);
    }
    while k < v.len()
        invariant
            views == v@.map_values(|s: String| s@),
            k <= v.len(),
            out@ == old(out)@ + enc_strs(views.take(k as int)),
            forall|t: int| 0 <= t < k ==> (#[trigger] v@[t])@.len() <= usize::MAX,
        decreases v.len() - k,
    {
        push_str_enc(v[k].as_str(), out);
        k = k + 1;
        proof {
            assert(views.take(k as int).drop_last() =~= views.take(k - 1));
            assert(views.take(k as int).last() == views[k - 1]);
            assert(out@ =~= old(out)@ + enc_strs(views.take(k as int)));
        }
    }
    proof {
        assert(views.take(views.len() as int) =~= views);
    }
}

/// Appends the image of the string list `v` to `out`.
pub fn push_str_list(v: &Vec<String>, out: &mut Vec<u8>)
    ensures
        final(out)@ == old(out)@ + enc_str_list(v@.map_values(|s: String| s@)),
        v@.len() <= usize::MAX,
        forall|t: int| 0 <= t < v@.len() ==> (#[trigger] v@[t])@.len() <= usize::MAX,
{
    push_u64(v.len() as u64, out);
    push_strs(v, out);
    proof {
        assert(final(out)@ =~= old(out)@ + enc_str_list(v@.map_values(|s: String| s@)));
    }
}


} // verus!
