//! Binary codec primitives.
//!
//! Every record file is a flat byte string built from a handful of primitive
//! encodings: single bytes, little-endian 32- and 64-bit integers, signed
//! 32-bit integers (sign byte plus magnitude), length-prefixed byte strings,
//! and length-prefixed UTF-8 strings.  For each primitive there is a spec
//! encoding function, a spec parser that consumes from a position, an
//! executable writer and reader, and a lemma that parsing an encoding placed
//! at a position yields the encoded value back.

use vstd::prelude::*;
use vstd::utf8::{encode_utf8, decode_utf8, valid_utf8};

verus! {

// ---------------------------------------------------------------------------
// Spec encodings
// ---------------------------------------------------------------------------

pub open spec fn enc_u8(v: u8) -> Seq<u8> {
    seq![v]
}

pub open spec fn enc_u32(v: u32) -> Seq<u8> {
    seq![
        (v & 0xff) as u8,
        ((v >> 8) & 0xff) as u8,
        ((v >> 16) & 0xff) as u8,
        ((v >> 24) & 0xff) as u8,
    ]
}

pub open spec fn enc_u64(v: u64) -> Seq<u8> {
    seq![
        (v & 0xff) as u8,
        ((v >> 8) & 0xff) as u8,
        ((v >> 16) & 0xff) as u8,
        ((v >> 24) & 0xff) as u8,
        ((v >> 32) & 0xff) as u8,
        ((v >> 40) & 0xff) as u8,
        ((v >> 48) & 0xff) as u8,
        ((v >> 56) & 0xff) as u8,
    ]
}

pub open spec fn enc_usize(v: usize) -> Seq<u8> {
    enc_u64(v as u64)
}

/// Signed 32-bit values carry a sign byte followed by the magnitude:
/// `0` and `v` for `v >= 0`, `1` and `-1 - v` otherwise.
pub open spec fn enc_i32(v: i32) -> Seq<u8> {
    if v >= 0 {
        seq![0u8] + enc_u32(v as u32)
    } else {
        seq![1u8] + enc_u32((-1 - v) as u32)
    }
}

pub open spec fn enc_byte_str(data: Seq<u8>) -> Seq<u8> {
    enc_u32(data.len() as u32) + data
}

pub open spec fn enc_str(s: Seq<char>) -> Seq<u8> {
    enc_byte_str(encode_utf8(s))
}

/// The byte-string length prefix is 32 bits wide.
pub open spec fn fits_byte_str(data: Seq<u8>) -> bool {
    data.len() <= u32::MAX
}

/// A character sequence is storable when its UTF-8 form fits a length prefix.
pub open spec fn fits_str(s: Seq<char>) -> bool {
    fits_byte_str(encode_utf8(s))
}

/// Optional ids carry a presence byte, then the id when present.
pub open spec fn enc_opt_usize(v: Option<usize>) -> Seq<u8> {
    match v {
        None => seq![0u8],
        Some(x) => seq![1u8] + enc_usize(x),
    }
}

pub open spec fn enc_opt_str(v: Option<Seq<char>>) -> Seq<u8> {
    match v {
        None => seq![0u8],
        Some(s) => seq![1u8] + enc_str(s),
    }
}

pub open spec fn fits_opt_str(v: Option<Seq<char>>) -> bool {
    match v {
        None => true,
        Some(s) => fits_str(s),
    }
}

// ---------------------------------------------------------------------------
// Spec parsers
// ---------------------------------------------------------------------------

pub open spec fn parse_u8(b: Seq<u8>, pos: int) -> Option<(u8, int)> {
    if 0 <= pos && pos + 1 <= b.len() {
        Some((b[pos], pos + 1))
    } else {
        None
    }
}

pub open spec fn u32_of_le(b0: u8, b1: u8, b2: u8, b3: u8) -> u32 {
    (b0 as u32) | ((b1 as u32) << 8) | ((b2 as u32) << 16) | ((b3 as u32) << 24)
}

pub open spec fn parse_u32(b: Seq<u8>, pos: int) -> Option<(u32, int)> {
    if 0 <= pos && pos + 4 <= b.len() {
        Some((u32_of_le(b[pos], b[pos + 1], b[pos + 2], b[pos + 3]), pos + 4))
    } else {
        None
    }
}

pub open spec fn u64_of_le(b0: u8, b1: u8, b2: u8, b3: u8, b4: u8, b5: u8, b6: u8, b7: u8) -> u64 {
    (b0 as u64) | ((b1 as u64) << 8) | ((b2 as u64) << 16) | ((b3 as u64) << 24)
        | ((b4 as u64) << 32) | ((b5 as u64) << 40) | ((b6 as u64) << 48) | ((b7 as u64) << 56)
}

pub open spec fn parse_u64(b: Seq<u8>, pos: int) -> Option<(u64, int)> {
    if 0 <= pos && pos + 8 <= b.len() {
        Some((
            u64_of_le(
                b[pos], b[pos + 1], b[pos + 2], b[pos + 3],
                b[pos + 4], b[pos + 5], b[pos + 6], b[pos + 7],
            ),
            pos + 8,
        ))
    } else {
        None
    }
}

pub open spec fn parse_usize(b: Seq<u8>, pos: int) -> Option<(usize, int)> {
    match parse_u64(b, pos) {
        Some((v, p)) => if v <= usize::MAX as u64 {
            Some((v as usize, p))
        } else {
            None
        },
        None => None,
    }
}

pub open spec fn parse_i32(b: Seq<u8>, pos: int) -> Option<(i32, int)> {
    match parse_u8(b, pos) {
        Some((tag, p1)) => match parse_u32(b, p1) {
            Some((m, p2)) => if tag == 0 && m <= i32::MAX as u32 {
                Some((m as i32, p2))
            } else if tag == 1 && m <= i32::MAX as u32 {
                Some(((-1 - m as int) as i32, p2))
            } else {
                None
            },
            None => None,
        },
        None => None,
    }
}

pub open spec fn parse_byte_str(b: Seq<u8>, pos: int) -> Option<(Seq<u8>, int)> {
    match parse_u32(b, pos) {
        Some((len, p1)) => if p1 + len <= b.len() {
            Some((b.subrange(p1, p1 + len), p1 + len))
        } else {
            None
        },
        None => None,
    }
}

pub open spec fn parse_str(b: Seq<u8>, pos: int) -> Option<(Seq<char>, int)> {
    match parse_byte_str(b, pos) {
        Some((data, p1)) => if valid_utf8(data) {
            Some((decode_utf8(data), p1))
        } else {
            None
        },
        None => None,
    }
}

pub open spec fn parse_opt_usize(b: Seq<u8>, pos: int) -> Option<(Option<usize>, int)> {
    match parse_u8(b, pos) {
        Some((tag, p1)) => if tag == 0 {
            Some((None, p1))
        } else if tag == 1 {
            match parse_usize(b, p1) {
                Some((v, p2)) => Some((Some(v), p2)),
                None => None,
            }
        } else {
            None
        },
        None => None,
    }
}

pub open spec fn parse_opt_str(b: Seq<u8>, pos: int) -> Option<(Option<Seq<char>>, int)> {
    match parse_u8(b, pos) {
        Some((tag, p1)) => if tag == 0 {
            Some((None, p1))
        } else if tag == 1 {
            match parse_str(b, p1) {
                Some((s, p2)) => Some((Some(s), p2)),
                None => None,
            }
        } else {
            None
        },
        None => None,
    }
}

// ---------------------------------------------------------------------------
// Item sequences
// ---------------------------------------------------------------------------

/// Concatenation of the encodings of a sequence of items.
pub open spec fn enc_seq<T>(items: Seq<T>, ef: spec_fn(T) -> Seq<u8>) -> Seq<u8>
    decreases items.len(),
{
    if items.len() == 0 {
        Seq::<u8>::empty()
    } else {
        ef(items[0]) + enc_seq(items.drop_first(), ef)
    }
}

/// Parses exactly `n` consecutive items.
pub open spec fn parse_seq<T>(
    b: Seq<u8>,
    pos: int,
    n: int,
    pf: spec_fn(Seq<u8>, int) -> Option<(T, int)>,
) -> Option<(Seq<T>, int)>
    decreases n,
{
    if n <= 0 {
        Some((Seq::<T>::empty(), pos))
    } else {
        match pf(b, pos) {
            Some((v, p1)) => match parse_seq(b, p1, n - 1, pf) {
                Some((rest, end)) => Some((seq![v] + rest, end)),
                None => None,
            },
            None => None,
        }
    }
}

/// One unfolding step of `parse_seq`.
pub proof fn lemma_parse_seq_step<T>(
    b: Seq<u8>,
    pos: int,
    n: int,
    pf: spec_fn(Seq<u8>, int) -> Option<(T, int)>,
)
    requires
        n > 0,
    ensures
        parse_seq(b, pos, n, pf) == (match pf(b, pos) {
            Some((v, p1)) => match parse_seq(b, p1, n - 1, pf) {
                Some((rest, end)) => Some((seq![v] + rest, end)),
                None => None::<(Seq<T>, int)>,
            },
            None => None::<(Seq<T>, int)>,
        }),
{
}

pub proof fn lemma_enc_seq_push<T>(items: Seq<T>, x: T, ef: spec_fn(T) -> Seq<u8>)
    ensures
        enc_seq(items.push(x), ef) == enc_seq(items, ef) + ef(x),
    decreases items.len(),
{
    if items.len() == 0 {
        assert(items.push(x).drop_first() =~= Seq::<T>::empty());
        assert(items.push(x)[0] == x);
        assert(enc_seq(Seq::<T>::empty(), ef) == Seq::<u8>::empty());
        assert(enc_seq(items, ef) == Seq::<u8>::empty());
        assert(enc_seq(items.push(x), ef) =~= enc_seq(items, ef) + ef(x));
    } else {
        assert(items.push(x).drop_first() =~= items.drop_first().push(x));
        assert(items.push(x)[0] == items[0]);
        lemma_enc_seq_push(items.drop_first(), x, ef);
        assert(enc_seq(items.push(x), ef) =~= enc_seq(items, ef) + ef(x));
    }
}

/// If the concatenated encodings of `items` sit at `pos`, and the item parser
/// recovers each item from its own encoding wherever it sits, then parsing
/// `items.len()` items at `pos` recovers `items`.
pub proof fn lemma_parse_seq<T>(
    b: Seq<u8>,
    pos: int,
    items: Seq<T>,
    ef: spec_fn(T) -> Seq<u8>,
    pf: spec_fn(Seq<u8>, int) -> Option<(T, int)>,
)
    requires
        0 <= pos,
        pos + enc_seq(items, ef).len() <= b.len(),
        b.subrange(pos, pos + enc_seq(items, ef).len()) == enc_seq(items, ef),
        forall|i: int, p: int|
            0 <= i < items.len() && 0 <= p && p + ef(#[trigger] items[i]).len() <= b.len()
                && b.subrange(p, p + ef(items[i]).len()) == ef(items[i])
                ==> #[trigger] pf(b, p) == Some((items[i], p + ef(items[i]).len())),
    ensures
        parse_seq(b, pos, items.len() as int, pf) == Some((
            items,
            pos + enc_seq(items, ef).len(),
        )),
    decreases items.len(),
{
    if items.len() == 0 {
        assert(items =~= Seq::<T>::empty());
    } else {
        let e0 = ef(items[0]);
        let tail = items.drop_first();
        let etail = enc_seq(tail, ef);
        assert(enc_seq(items, ef) == e0 + etail);
        lemma_subrange_split(b, pos, e0, etail);
        assert(pf(b, pos) == Some((items[0], pos + e0.len())));
        assert forall|i: int, p: int|
            0 <= i < tail.len() && 0 <= p && p + ef(#[trigger] tail[i]).len() <= b.len()
                && b.subrange(p, p + ef(tail[i]).len()) == ef(tail[i])
                implies #[trigger] pf(b, p) == Some((tail[i], p + ef(tail[i]).len())) by {
            assert(tail[i] == items[i + 1]);
        }
        lemma_parse_seq(b, pos + e0.len(), tail, ef, pf);
        assert(seq![items[0]] + tail =~= items);
    }
}

// ---------------------------------------------------------------------------
// Sequences of ids
// ---------------------------------------------------------------------------

pub open spec fn usize_encoder() -> spec_fn(usize) -> Seq<u8> {
    |x: usize| enc_usize(x)
}

pub open spec fn usize_parser() -> spec_fn(Seq<u8>, int) -> Option<(usize, int)> {
    |b: Seq<u8>, pos: int| parse_usize(b, pos)
}

/// A count-prefixed run of ids, as used for a record's id-set fields.
pub open spec fn enc_usize_seq(s: Seq<usize>) -> Seq<u8> {
    enc_u32(s.len() as u32) + enc_seq(s, usize_encoder())
}

pub open spec fn parse_usize_seq(b: Seq<u8>, pos: int) -> Option<(Seq<usize>, int)> {
    match parse_u32(b, pos) {
        Some((count, p1)) => parse_seq(b, p1, count as int, usize_parser()),
        None => None,
    }
}

pub proof fn lemma_parse_usize_seq(b: Seq<u8>, pos: int, s: Seq<usize>)
    requires
        0 <= pos,
        s.len() <= u32::MAX,
        pos + enc_usize_seq(s).len() <= b.len(),
        b.subrange(pos, pos + enc_usize_seq(s).len()) == enc_usize_seq(s),
    ensures
        parse_usize_seq(b, pos) == Some((s, pos + enc_usize_seq(s).len())),
{
    let body = enc_seq(s, usize_encoder());
    lemma_subrange_split(b, pos, enc_u32(s.len() as u32), body);
    lemma_parse_u32(b, pos, s.len() as u32);
    assert forall|i: int, p: int|
        0 <= i < s.len() && 0 <= p && p + usize_encoder()(#[trigger] s[i]).len() <= b.len()
            && b.subrange(p, p + usize_encoder()(s[i]).len()) == usize_encoder()(s[i])
            implies #[trigger] usize_parser()(b, p) == Some((
            s[i],
            p + usize_encoder()(s[i]).len(),
        )) by {
        lemma_parse_usize(b, p, s[i]);
    }
    lemma_parse_seq(b, pos + 4, s, usize_encoder(), usize_parser());
}

pub fn write_usize_seq(out: &mut Vec<u8>, s: &Vec<usize>)
    requires
        s@.len() <= u32::MAX,
    ensures
        final(out)@ == old(out)@ + enc_usize_seq(s@),
{
    write_u32(out, s.len() as u32);
    let n = s.len();
    let mut i: usize = 0;
    while i < n
        invariant
            n == s@.len(),
            i <= n,
            out@ == old(out)@ + enc_u32(s@.len() as u32) + enc_seq(
                s@.subrange(0, i as int),
                usize_encoder(),
            ),
        decreases n - i,
    {
        write_usize(out, s[i]);
        proof {
            let pre = s@.subrange(0, i as int);
            assert(s@.subrange(0, i + 1) =~= pre.push(s@[i as int]));
            lemma_enc_seq_push(pre, s@[i as int], usize_encoder());
        }
        i = i + 1;
        assert(out@ =~= old(out)@ + enc_u32(s@.len() as u32) + enc_seq(
            s@.subrange(0, i as int),
            usize_encoder(),
        ));
    }
    assert(s@.subrange(0, n as int) =~= s@);
    assert(final(out)@ =~= old(out)@ + enc_usize_seq(s@));
}

pub fn read_usize_seq(b: &Vec<u8>, pos: usize) -> (r: Option<(Vec<usize>, usize)>)
    ensures
        match r {
            Some((v, p)) => parse_usize_seq(b@, pos as int) == Some((v@, p as int)),
            None => parse_usize_seq(b@, pos as int) is None,
        },
{
    match read_u32(b, pos) {
        Some((count, p1)) => {
            let ghost n = count as int;
            let mut acc: Vec<usize> = Vec::new();
            let mut cur: usize = p1;
            let mut i: u32 = 0;
            proof {
                let pr = parse_seq(b@, p1 as int, n, usize_parser());
                if pr is Some {
                    assert(Seq::<usize>::empty() + pr->Some_0.0 =~= pr->Some_0.0);
                }
            }
            while i < count
                invariant
                    n == count as int,
                    parse_u32(b@, pos as int) == Some((count, p1 as int)),
                    i <= count,
                    acc@.len() == i as int,
                    parse_seq(b@, p1 as int, n, usize_parser()) == (match parse_seq(
                        b@,
                        cur as int,
                        n - i,
                        usize_parser(),
                    ) {
                        Some((rest, end)) => Some((acc@ + rest, end)),
                        None => None::<(Seq<usize>, int)>,
                    }),
                decreases count - i,
            {
                match read_usize(b, cur) {
                    Some((v, p2)) => {
                        proof {
                            assert(usize_parser()(b@, cur as int) == parse_usize(b@, cur as int));
                            lemma_parse_seq_step(b@, cur as int, n - i, usize_parser());
                            assert(parse_seq(b@, cur as int, n - i, usize_parser()) == (
                            match parse_seq(b@, p2 as int, n - i - 1, usize_parser()) {
                                Some((rest, end)) => Some((seq![v] + rest, end)),
                                None => None::<(Seq<usize>, int)>,
                            }));
                            let rem = parse_seq(b@, p2 as int, n - i - 1, usize_parser());
                            if rem is Some {
                                let (rest, end) = rem->Some_0;
                                assert(acc@ + (seq![v] + rest) =~= acc@.push(v) + rest);
                            }
                        }
                        acc.push(v);
                        cur = p2;
                        i = i + 1;
                    },
                    None => {
                        proof {
                            assert(usize_parser()(b@, cur as int) == parse_usize(b@, cur as int));
                            lemma_parse_seq_step(b@, cur as int, n - i, usize_parser());
                            assert(parse_seq(b@, cur as int, n - i, usize_parser()) is None);
                        }
                        return None;
                    },
                }
            }
            assert(acc@ + Seq::<usize>::empty() =~= acc@);
            Some((acc, cur))
        },
        None => None,
    }
}

// ---------------------------------------------------------------------------
// Parsing an encoding placed at a position yields the value back
// ---------------------------------------------------------------------------

/// Splits knowledge about a concatenation placed at a position into knowledge
/// about each part at its own position.
pub proof fn lemma_subrange_split(b: Seq<u8>, pos: int, e1: Seq<u8>, e2: Seq<u8>)
    requires
        0 <= pos,
        pos + e1.len() + e2.len() <= b.len(),
        b.subrange(pos, pos + e1.len() + e2.len()) == e1 + e2,
    ensures
        b.subrange(pos, pos + e1.len()) == e1,
        b.subrange(pos + e1.len(), pos + e1.len() + e2.len()) == e2,
{
    let n1 = e1.len() as int;
    let n2 = e2.len() as int;
    assert forall|j: int| 0 <= j < n1 implies #[trigger] b.subrange(pos, pos + n1)[j] == e1[j] by {
        assert(b.subrange(pos, pos + n1)[j] == b[pos + j]);
        assert(b.subrange(pos, pos + n1 + n2)[j] == b[pos + j]);
        assert((e1 + e2)[j] == e1[j]);
    }
    assert(b.subrange(pos, pos + n1) =~= e1);
    assert forall|j: int| 0 <= j < n2 implies #[trigger] b.subrange(pos + n1, pos + n1 + n2)[j]
        == e2[j] by {
        assert(b.subrange(pos + n1, pos + n1 + n2)[j] == b[pos + n1 + j]);
        assert(b.subrange(pos, pos + n1 + n2)[n1 + j] == b[pos + n1 + j]);
        assert((e1 + e2)[n1 + j] == e2[j]);
    }
    assert(b.subrange(pos + n1, pos + n1 + n2) =~= e2);
}

pub proof fn lemma_parse_u8(b: Seq<u8>, pos: int, v: u8)
    requires
        0 <= pos,
        pos + 1 <= b.len(),
        b.subrange(pos, pos + 1) == enc_u8(v),
    ensures
        parse_u8(b, pos) == Some((v, pos + 1)),
{
    assert(b[pos] == b.subrange(pos, pos + 1)[0]);
}

pub proof fn lemma_parse_u32(b: Seq<u8>, pos: int, v: u32)
    requires
        0 <= pos,
        pos + 4 <= b.len(),
        b.subrange(pos, pos + 4) == enc_u32(v),
    ensures
        parse_u32(b, pos) == Some((v, pos + 4)),
{
    let e = enc_u32(v);
    assert(b[pos] == b.subrange(pos, pos + 4)[0]);
    assert(b[pos + 1] == b.subrange(pos, pos + 4)[1]);
    assert(b[pos + 2] == b.subrange(pos, pos + 4)[2]);
    assert(b[pos + 3] == b.subrange(pos, pos + 4)[3]);
    assert(u32_of_le(
        (v & 0xff) as u8,
        ((v >> 8) & 0xff) as u8,
        ((v >> 16) & 0xff) as u8,
        ((v >> 24) & 0xff) as u8,
    ) == v) by {
        assert((((v & 0xff) as u8) as u32)
            | ((((v >> 8) & 0xff) as u8) as u32) << 8
            | ((((v >> 16) & 0xff) as u8) as u32) << 16
            | ((((v >> 24) & 0xff) as u8) as u32) << 24 == v) by (bit_vector);
    }
}

pub proof fn lemma_parse_u64(b: Seq<u8>, pos: int, v: u64)
    requires
        0 <= pos,
        pos + 8 <= b.len(),
        b.subrange(pos, pos + 8) == enc_u64(v),
    ensures
        parse_u64(b, pos) == Some((v, pos + 8)),
{
    let s = b.subrange(pos, pos + 8);
    assert(b[pos] == s[0]);
    assert(b[pos + 1] == s[1]);
    assert(b[pos + 2] == s[2]);
    assert(b[pos + 3] == s[3]);
    assert(b[pos + 4] == s[4]);
    assert(b[pos + 5] == s[5]);
    assert(b[pos + 6] == s[6]);
    assert(b[pos + 7] == s[7]);
    assert(u64_of_le(
        (v & 0xff) as u8,
        ((v >> 8) & 0xff) as u8,
        ((v >> 16) & 0xff) as u8,
        ((v >> 24) & 0xff) as u8,
        ((v >> 32) & 0xff) as u8,
        ((v >> 40) & 0xff) as u8,
        ((v >> 48) & 0xff) as u8,
        ((v >> 56) & 0xff) as u8,
    ) == v) by {
        assert((((v & 0xff) as u8) as u64)
            | ((((v >> 8) & 0xff) as u8) as u64) << 8
            | ((((v >> 16) & 0xff) as u8) as u64) << 16
            | ((((v >> 24) & 0xff) as u8) as u64) << 24
            | ((((v >> 32) & 0xff) as u8) as u64) << 32
            | ((((v >> 40) & 0xff) as u8) as u64) << 40
            | ((((v >> 48) & 0xff) as u8) as u64) << 48
            | ((((v >> 56) & 0xff) as u8) as u64) << 56 == v) by (bit_vector);
    }
}

pub proof fn lemma_parse_usize(b: Seq<u8>, pos: int, v: usize)
    requires
        0 <= pos,
        pos + 8 <= b.len(),
        b.subrange(pos, pos + 8) == enc_usize(v),
    ensures
        parse_usize(b, pos) == Some((v, pos + 8)),
{
    lemma_parse_u64(b, pos, v as u64);
}

pub proof fn lemma_parse_i32(b: Seq<u8>, pos: int, v: i32)
    requires
        0 <= pos,
        pos + 5 <= b.len(),
        b.subrange(pos, pos + 5) == enc_i32(v),
    ensures
        parse_i32(b, pos) == Some((v, pos + 5)),
{
    let e = enc_i32(v);
    let tag: u8 = if v >= 0 { 0 } else { 1 };
    let m: u32 = if v >= 0 { v as u32 } else { (-1 - v) as u32 };
    assert(e == seq![tag] + enc_u32(m));
    assert(b.subrange(pos, pos + 1) =~= enc_u8(tag)) by {
        assert(b.subrange(pos, pos + 5)[0] == b[pos]);
        assert(b.subrange(pos, pos + 1)[0] == b[pos]);
    }
    lemma_parse_u8(b, pos, tag);
    assert forall|j: int| 0 <= j < 4 implies b.subrange(pos + 1, pos + 5)[j] == enc_u32(m)[j] by {
        assert(b.subrange(pos + 1, pos + 5)[j] == b[pos + 1 + j]);
        assert(b.subrange(pos, pos + 5)[1 + j] == b[pos + 1 + j]);
        assert(e[1 + j] == enc_u32(m)[j]);
    }
    assert(b.subrange(pos + 1, pos + 5) =~= enc_u32(m));
    lemma_parse_u32(b, pos + 1, m);
    assert(m <= i32::MAX as u32);
}

pub proof fn lemma_parse_byte_str(b: Seq<u8>, pos: int, data: Seq<u8>)
    requires
        0 <= pos,
        pos + 4 + data.len() <= b.len(),
        fits_byte_str(data),
        b.subrange(pos, pos + 4 + data.len()) == enc_byte_str(data),
    ensures
        parse_byte_str(b, pos) == Some((data, pos + 4 + data.len())),
{
    let n = data.len() as int;
    let e = enc_byte_str(data);
    assert forall|j: int| 0 <= j < 4 implies #[trigger] b.subrange(pos, pos + 4)[j] == enc_u32(
        data.len() as u32,
    )[j] by {
        assert(b.subrange(pos, pos + 4)[j] == b[pos + j]);
        assert(b.subrange(pos, pos + 4 + n)[j] == b[pos + j]);
        assert(e[j] == enc_u32(data.len() as u32)[j]);
    }
    assert(b.subrange(pos, pos + 4) =~= enc_u32(data.len() as u32));
    lemma_parse_u32(b, pos, data.len() as u32);
    assert(data.len() as u32 as int == n);
    assert forall|j: int| 0 <= j < n implies b.subrange(pos + 4, pos + 4 + n)[j] == data[j] by {
        assert(b.subrange(pos + 4, pos + 4 + n)[j] == b[pos + 4 + j]);
        assert(b.subrange(pos, pos + 4 + n)[4 + j] == b[pos + 4 + j]);
        assert(e[4 + j] == data[j]);
    }
    assert(b.subrange(pos + 4, pos + 4 + n) =~= data);
}

pub proof fn lemma_parse_str(b: Seq<u8>, pos: int, s: Seq<char>)
    requires
        0 <= pos,
        pos + 4 + encode_utf8(s).len() <= b.len(),
        fits_str(s),
        b.subrange(pos, pos + 4 + encode_utf8(s).len()) == enc_str(s),
    ensures
        parse_str(b, pos) == Some((s, pos + 4 + encode_utf8(s).len())),
{
    lemma_parse_byte_str(b, pos, encode_utf8(s));
    vstd::utf8::encode_utf8_valid_utf8(s);
    vstd::utf8::encode_utf8_decode_utf8(s);
}

pub proof fn lemma_parse_opt_usize(b: Seq<u8>, pos: int, v: Option<usize>)
    requires
        0 <= pos,
        pos + enc_opt_usize(v).len() <= b.len(),
        b.subrange(pos, pos + enc_opt_usize(v).len()) == enc_opt_usize(v),
    ensures
        parse_opt_usize(b, pos) == Some((v, pos + enc_opt_usize(v).len())),
{
    match v {
        None => {
            assert(b.subrange(pos, pos + 1) =~= enc_u8(0));
            lemma_parse_u8(b, pos, 0);
        },
        Some(x) => {
            lemma_subrange_split(b, pos, seq![1u8], enc_usize(x));
            assert(b.subrange(pos, pos + 1) =~= enc_u8(1));
            lemma_parse_u8(b, pos, 1);
            lemma_parse_usize(b, pos + 1, x);
        },
    }
}

pub proof fn lemma_parse_opt_str(b: Seq<u8>, pos: int, v: Option<Seq<char>>)
    requires
        0 <= pos,
        pos + enc_opt_str(v).len() <= b.len(),
        fits_opt_str(v),
        b.subrange(pos, pos + enc_opt_str(v).len()) == enc_opt_str(v),
    ensures
        parse_opt_str(b, pos) == Some((v, pos + enc_opt_str(v).len())),
{
    match v {
        None => {
            assert(b.subrange(pos, pos + 1) =~= enc_u8(0));
            lemma_parse_u8(b, pos, 0);
        },
        Some(s) => {
            lemma_subrange_split(b, pos, seq![1u8], enc_str(s));
            assert(b.subrange(pos, pos + 1) =~= enc_u8(1));
            lemma_parse_u8(b, pos, 1);
            lemma_parse_str(b, pos + 1, s);
        },
    }
}

// ---------------------------------------------------------------------------
// Parsed values respect the machine limits of the format
// ---------------------------------------------------------------------------

pub proof fn lemma_parse_byte_str_fits(b: Seq<u8>, pos: int)
    ensures
        parse_byte_str(b, pos) matches Some(t) ==> fits_byte_str(t.0),
{
}

pub proof fn lemma_parse_str_fits(b: Seq<u8>, pos: int)
    ensures
        parse_str(b, pos) matches Some(t) ==> fits_str(t.0),
{
    if parse_str(b, pos) is Some {
        let (data, p1) = parse_byte_str(b, pos)->Some_0;
        vstd::utf8::decode_utf8_encode_utf8(data);
    }
}

pub proof fn lemma_parse_opt_str_fits(b: Seq<u8>, pos: int)
    ensures
        parse_opt_str(b, pos) matches Some(t) ==> fits_opt_str(t.0),
{
    if parse_opt_str(b, pos) is Some {
        let (v, p) = parse_opt_str(b, pos)->Some_0;
        if v is Some {
            let (tag, p1) = parse_u8(b, pos)->Some_0;
            lemma_parse_str_fits(b, p1);
        }
    }
}

/// A parsed item run holds exactly the demanded number of items, and every
/// item satisfies whatever every successful parse of one item satisfies.
pub proof fn lemma_parse_seq_all<T>(
    b: Seq<u8>,
    pos: int,
    n: int,
    pf: spec_fn(Seq<u8>, int) -> Option<(T, int)>,
    p: spec_fn(T) -> bool,
)
    requires
        n >= 0,
        forall|pp: int| (#[trigger] pf(b, pp)) matches Some(t) ==> p(t.0),
    ensures
        parse_seq(b, pos, n, pf) matches Some(s) ==> s.0.len() == n && (forall|i: int|
            0 <= i < s.0.len() ==> p(#[trigger] s.0[i])),
    decreases n,
{
    if n > 0 && parse_seq(b, pos, n, pf) is Some {
        let (v, p1) = pf(b, pos)->Some_0;
        lemma_parse_seq_all(b, p1, n - 1, pf, p);
    }
}

pub proof fn lemma_parse_usize_seq_fits(b: Seq<u8>, pos: int)
    ensures
        parse_usize_seq(b, pos) matches Some(t) ==> t.0.len() <= u32::MAX,
{
    if parse_usize_seq(b, pos) is Some {
        let (count, p1) = parse_u32(b, pos)->Some_0;
        lemma_parse_seq_all(b, p1, count as int, usize_parser(), |x: usize| true);
    }
}

// ---------------------------------------------------------------------------
// Executable writers
// ---------------------------------------------------------------------------

pub fn write_u8(out: &mut Vec<u8>, v: u8)
    ensures
        final(out)@ == old(out)@ + enc_u8(v),
{
    out.push(v);
    assert(final(out)@ =~= old(out)@ + enc_u8(v));
}

pub fn write_u32(out: &mut Vec<u8>, v: u32)
    ensures
        final(out)@ == old(out)@ + enc_u32(v),
{
    out.push(#[verifier::truncate] ((v & 0xff) as u8));
    out.push(#[verifier::truncate] (((v >> 8) & 0xff) as u8));
    out.push(#[verifier::truncate] (((v >> 16) & 0xff) as u8));
    out.push(#[verifier::truncate] (((v >> 24) & 0xff) as u8));
    assert(final(out)@ =~= old(out)@ + enc_u32(v));
}

pub fn write_u64(out: &mut Vec<u8>, v: u64)
    ensures
        final(out)@ == old(out)@ + enc_u64(v),
{
    out.push(#[verifier::truncate] ((v & 0xff) as u8));
    out.push(#[verifier::truncate] (((v >> 8) & 0xff) as u8));
    out.push(#[verifier::truncate] (((v >> 16) & 0xff) as u8));
    out.push(#[verifier::truncate] (((v >> 24) & 0xff) as u8));
    out.push(#[verifier::truncate] (((v >> 32) & 0xff) as u8));
    out.push(#[verifier::truncate] (((v >> 40) & 0xff) as u8));
    out.push(#[verifier::truncate] (((v >> 48) & 0xff) as u8));
    out.push(#[verifier::truncate] (((v >> 56) & 0xff) as u8));
    assert(final(out)@ =~= old(out)@ + enc_u64(v));
}

pub fn write_usize(out: &mut Vec<u8>, v: usize)
    ensures
        final(out)@ == old(out)@ + enc_usize(v),
{
    write_u64(out, v as u64);
}

pub fn write_i32(out: &mut Vec<u8>, v: i32)
    ensures
        final(out)@ == old(out)@ + enc_i32(v),
{
    if v >= 0 {
        write_u8(out, 0);
        write_u32(out, v as u32);
    } else {
        write_u8(out, 1);
        let m: i32 = -1 - v;
        write_u32(out, m as u32);
    }
    assert(final(out)@ =~= old(out)@ + enc_i32(v));
}

pub fn write_byte_str(out: &mut Vec<u8>, data: &Vec<u8>)
    requires
        fits_byte_str(data@),
    ensures
        final(out)@ == old(out)@ + enc_byte_str(data@),
{
    write_u32(out, data.len() as u32);
    let n = data.len();
    let mut i: usize = 0;
    while i < n
        invariant
            n == data@.len(),
            i <= n,
            out@ == old(out)@ + enc_u32(data@.len() as u32) + data@.subrange(0, i as int),
        decreases n - i,
    {
        out.push(data[i]);
        i = i + 1;
        assert(out@ =~= old(out)@ + enc_u32(data@.len() as u32) + data@.subrange(0, i as int));
    }
    assert(data@.subrange(0, n as int) =~= data@);
    assert(final(out)@ =~= old(out)@ + enc_byte_str(data@));
}

pub fn write_str(out: &mut Vec<u8>, s: &String)
    requires
        fits_str(s@),
    ensures
        final(out)@ == old(out)@ + enc_str(s@),
{
    let bytes = s.as_str().as_bytes_vec();
    write_byte_str(out, &bytes);
}

pub fn write_opt_usize(out: &mut Vec<u8>, v: &Option<usize>)
    ensures
        final(out)@ == old(out)@ + enc_opt_usize(*v),
{
    match v {
        None => {
            write_u8(out, 0);
        },
        Some(x) => {
            write_u8(out, 1);
            write_usize(out, *x);
            assert(final(out)@ =~= old(out)@ + enc_opt_usize(*v));
        },
    }
}

pub fn write_opt_str(out: &mut Vec<u8>, v: &Option<String>)
    requires
        fits_opt_str(v.deep_view()),
    ensures
        final(out)@ == old(out)@ + enc_opt_str(v.deep_view()),
{
    match v {
        None => {
            write_u8(out, 0);
        },
        Some(s) => {
            write_u8(out, 1);
            write_str(out, s);
            assert(final(out)@ =~= old(out)@ + enc_opt_str(v.deep_view()));
        },
    }
}

// ---------------------------------------------------------------------------
// Executable readers
// ---------------------------------------------------------------------------

pub fn read_u8(b: &Vec<u8>, pos: usize) -> (r: Option<(u8, usize)>)
    ensures
        match r {
            Some((v, p)) => parse_u8(b@, pos as int) == Some((v, p as int)),
            None => parse_u8(b@, pos as int) is None,
        },
{
    if pos < b.len() {
        Some((b[pos], pos + 1))
    } else {
        None
    }
}

pub fn read_u32(b: &Vec<u8>, pos: usize) -> (r: Option<(u32, usize)>)
    ensures
        match r {
            Some((v, p)) => parse_u32(b@, pos as int) == Some((v, p as int)),
            None => parse_u32(b@, pos as int) is None,
        },
{
    if pos < b.len() && b.len() - pos >= 4 {
        let v = (b[pos] as u32)
            | ((b[pos + 1] as u32) << 8)
            | ((b[pos + 2] as u32) << 16)
            | ((b[pos + 3] as u32) << 24);
        Some((v, pos + 4))
    } else {
        None
    }
}

pub fn read_u64(b: &Vec<u8>, pos: usize) -> (r: Option<(u64, usize)>)
    ensures
        match r {
            Some((v, p)) => parse_u64(b@, pos as int) == Some((v, p as int)),
            None => parse_u64(b@, pos as int) is None,
        },
{
    if pos < b.len() && b.len() - pos >= 8 {
        let v = (b[pos] as u64)
            | ((b[pos + 1] as u64) << 8)
            | ((b[pos + 2] as u64) << 16)
            | ((b[pos + 3] as u64) << 24)
            | ((b[pos + 4] as u64) << 32)
            | ((b[pos + 5] as u64) << 40)
            | ((b[pos + 6] as u64) << 48)
            | ((b[pos + 7] as u64) << 56);
        Some((v, pos + 8))
    } else {
        None
    }
}

pub fn read_usize(b: &Vec<u8>, pos: usize) -> (r: Option<(usize, usize)>)
    ensures
        match r {
            Some((v, p)) => parse_usize(b@, pos as int) == Some((v, p as int)),
            None => parse_usize(b@, pos as int) is None,
        },
{
    match read_u64(b, pos) {
        Some((v, p)) => if v <= usize::MAX as u64 {
            Some((v as usize, p))
        } else {
            None
        },
        None => None,
    }
}

pub fn read_i32(b: &Vec<u8>, pos: usize) -> (r: Option<(i32, usize)>)
    ensures
        match r {
            Some((v, p)) => parse_i32(b@, pos as int) == Some((v, p as int)),
            None => parse_i32(b@, pos as int) is None,
        },
{
    match read_u8(b, pos) {
        Some((tag, p1)) => match read_u32(b, p1) {
            Some((m, p2)) => if tag == 0 && m <= 0x7fff_ffff {
                Some((m as i32, p2))
            } else if tag == 1 && m <= 0x7fff_ffff {
                Some((-1 - (m as i32), p2))
            } else {
                None
            },
            None => None,
        },
        None => None,
    }
}

pub fn read_byte_str(b: &Vec<u8>, pos: usize) -> (r: Option<(Vec<u8>, usize)>)
    ensures
        match r {
            Some((v, p)) => parse_byte_str(b@, pos as int) == Some((v@, p as int)),
            None => parse_byte_str(b@, pos as int) is None,
        },
{
    match read_u32(b, pos) {
        Some((len, p1)) => {
            let len = len as usize;
            if len <= b.len() && p1 <= b.len() - len {
                let mut data: Vec<u8> = Vec::new();
                let mut i: usize = 0;
                while i < len
                    invariant
                        b@.len() <= usize::MAX,
                        p1 + len <= b@.len(),
                        i <= len,
                        data@ == b@.subrange(p1 as int, p1 + i),
                    decreases len - i,
                {
                    data.push(b[p1 + i]);
                    i = i + 1;
                    assert(data@ =~= b@.subrange(p1 as int, p1 + i));
                }
                Some((data, p1 + len))
            } else {
                None
            }
        },
        None => None,
    }
}

pub fn read_opt_usize(b: &Vec<u8>, pos: usize) -> (r: Option<(Option<usize>, usize)>)
    ensures
        match r {
            Some((v, p)) => parse_opt_usize(b@, pos as int) == Some((v, p as int)),
            None => parse_opt_usize(b@, pos as int) is None,
        },
{
    match read_u8(b, pos) {
        Some((tag, p1)) => if tag == 0 {
            Some((None, p1))
        } else if tag == 1 {
            match read_usize(b, p1) {
                Some((v, p2)) => Some((Some(v), p2)),
                None => None,
            }
        } else {
            None
        },
        None => None,
    }
}

pub fn read_opt_str(b: &Vec<u8>, pos: usize) -> (r: Option<(Option<String>, usize)>)
    ensures
        match r {
            Some((v, p)) => parse_opt_str(b@, pos as int) == Some((v.deep_view(), p as int)),
            None => parse_opt_str(b@, pos as int) is None,
        },
{
    match read_u8(b, pos) {
        Some((tag, p1)) => if tag == 0 {
            Some((None, p1))
        } else if tag == 1 {
            match read_str(b, p1) {
                Some((s, p2)) => Some((Some(s), p2)),
                None => None,
            }
        } else {
            None
        },
        None => None,
    }
}

/// Relies on `String::from_utf8`: it succeeds exactly on valid UTF-8 input,
/// and the returned string's bytes are the input bytes.
#[verifier::external_body]
fn string_from_utf8(bytes: Vec<u8>) -> (r: Option<String>)
    ensures
        match r {
            Some(s) => bytes@ == encode_utf8(s@),
            None => !valid_utf8(bytes@),
        },
{
    String::from_utf8(bytes).ok()
}

pub fn read_str(b: &Vec<u8>, pos: usize) -> (r: Option<(String, usize)>)
    ensures
        match r {
            Some((v, p)) => parse_str(b@, pos as int) == Some((v@, p as int)),
            None => parse_str(b@, pos as int) is None,
        },
{
    match read_byte_str(b, pos) {
        Some((data, p1)) => {
            let ghost data_view = data@;
            match string_from_utf8(data) {
                Some(s) => {
                    proof {
                        vstd::utf8::encode_utf8_valid_utf8(s@);
                        vstd::utf8::encode_utf8_decode_utf8(s@);
                    }
                    Some((s, p1))
                },
                None => None,
            }
        },
        None => None,
    }
}

} // verus!
