//! Record files.
//!
//! A record file is one of three shapes: a nil-padded array (a count, a
//! sentinel element, then the records, so that a record's logical id equals
//! its on-disk position), a plain array (a count, then the records), or a
//! single record.  The shapes are generic over the record type through
//! [`WireRecord`]; every shape parses back to exactly what it encodes.

use vstd::prelude::*;
use crate::codec::{
    enc_u8, enc_u32, enc_seq, parse_u8, parse_u32, parse_seq, lemma_parse_u8, lemma_parse_u32,
    lemma_parse_seq, lemma_parse_seq_step, lemma_enc_seq_push, lemma_subrange_split, read_u8,
    read_u32, write_u8, write_u32,
};

verus! {

/// A record type with a binary wire form.
///
/// The spec side gives the encoding and the parser of a record's view; the
/// executable side writes and reads one record against them.  `lemma_parse_enc`
/// obliges every implementation to parse its own encoding back.
pub trait WireRecord: DeepView + Sized {
    /// Views that the encoding can carry (string lengths fit their prefixes).
    spec fn wf_view(v: Self::V) -> bool;

    /// The bytes of one encoded record.
    spec fn enc_view(v: Self::V) -> Seq<u8>;

    /// Parses one record starting at `pos`; yields the view and the position
    /// after it.
    spec fn parse_view(b: Seq<u8>, pos: int) -> Option<(Self::V, int)>;

    /// Whatever parses was storable in the first place.
    proof fn lemma_parse_wf(b: Seq<u8>, pos: int)
        ensures
            Self::parse_view(b, pos) matches Some(t) ==> Self::wf_view(t.0),
    ;

    /// Parsing an encoding placed at a position yields the encoded view.
    proof fn lemma_parse_enc(b: Seq<u8>, pos: int, v: Self::V)
        requires
            0 <= pos,
            pos + Self::enc_view(v).len() <= b.len(),
            Self::wf_view(v),
            b.subrange(pos, pos + Self::enc_view(v).len()) == Self::enc_view(v),
        ensures
            Self::parse_view(b, pos) == Some((v, pos + Self::enc_view(v).len())),
    ;

    fn write_wire(&self, out: &mut Vec<u8>)
        requires
            Self::wf_view(self.deep_view()),
        ensures
            final(out)@ == old(out)@ + Self::enc_view(self.deep_view()),
    ;

    fn read_wire(b: &Vec<u8>, pos: usize) -> (r: Option<(Self, usize)>)
        ensures
            match r {
                Some((v, p)) => Self::parse_view(b@, pos as int) == Some((
                    v.deep_view(),
                    p as int,
                )),
                None => Self::parse_view(b@, pos as int) is None,
            },
    ;
}

pub open spec fn wf_wire_seq<T: WireRecord>(items: Seq<T::V>) -> bool {
    forall|i: int| 0 <= i < items.len() ==> T::wf_view(#[trigger] items[i])
}

pub open spec fn wire_encoder<T: WireRecord>() -> spec_fn(T::V) -> Seq<u8> {
    |v: T::V| T::enc_view(v)
}

pub open spec fn wire_parser<T: WireRecord>() -> spec_fn(Seq<u8>, int) -> Option<(T::V, int)> {
    |b: Seq<u8>, pos: int| T::parse_view(b, pos)
}

// ---------------------------------------------------------------------------
// Nil-padded array elements
// ---------------------------------------------------------------------------

/// One element of a nil-padded array: a presence byte, then the record.  The
/// sentinel at position zero is the absent element.
pub open spec fn enc_wire_elem<T: WireRecord>(e: Option<T::V>) -> Seq<u8> {
    match e {
        None => seq![0u8],
        Some(v) => seq![1u8] + T::enc_view(v),
    }
}

pub open spec fn parse_wire_elem<T: WireRecord>(b: Seq<u8>, pos: int) -> Option<
    (Option<T::V>, int),
> {
    match parse_u8(b, pos) {
        Some((tag, p1)) => if tag == 0 {
            Some((None, p1))
        } else if tag == 1 {
            match T::parse_view(b, p1) {
                Some((v, p2)) => Some((Some(v), p2)),
                None => None,
            }
        } else {
            None
        },
        None => None,
    }
}

pub open spec fn elem_encoder<T: WireRecord>() -> spec_fn(Option<T::V>) -> Seq<u8> {
    |e: Option<T::V>| enc_wire_elem::<T>(e)
}

pub open spec fn elem_parser<T: WireRecord>() -> spec_fn(Seq<u8>, int) -> Option<
    (Option<T::V>, int),
> {
    |b: Seq<u8>, pos: int| parse_wire_elem::<T>(b, pos)
}

pub proof fn lemma_parse_wire_elem<T: WireRecord>(b: Seq<u8>, pos: int, e: Option<T::V>)
    requires
        0 <= pos,
        pos + enc_wire_elem::<T>(e).len() <= b.len(),
        match e {
            Some(v) => T::wf_view(v),
            None => true,
        },
        b.subrange(pos, pos + enc_wire_elem::<T>(e).len()) == enc_wire_elem::<T>(e),
    ensures
        parse_wire_elem::<T>(b, pos) == Some((e, pos + enc_wire_elem::<T>(e).len())),
{
    match e {
        None => {
            assert(b.subrange(pos, pos + 1) =~= enc_u8(0));
            lemma_parse_u8(b, pos, 0);
        },
        Some(v) => {
            lemma_subrange_split(b, pos, seq![1u8], T::enc_view(v));
            assert(b.subrange(pos, pos + 1) =~= enc_u8(1));
            lemma_parse_u8(b, pos, 1);
            T::lemma_parse_enc(b, pos + 1, v);
        },
    }
}

// ---------------------------------------------------------------------------
// Nil-padded array files
// ---------------------------------------------------------------------------

/// The on-disk element sequence of a nil-padded collection: the in-memory
/// record at position `i` sits at on-disk position `i + 1`, and position `0`
/// holds the sentinel.
pub open spec fn disk_elems<A>(items: Seq<A>) -> Seq<Option<A>> {
    Seq::new(items.len() + 1, |i: int| if i == 0 { None } else { Some(items[i - 1]) })
}

pub open spec fn strip_sentinel<A>(els: Seq<Option<A>>) -> Seq<A> {
    if els.len() == 0 {
        Seq::<A>::empty()
    } else {
        Seq::new((els.len() - 1) as nat, |i: int| match els[i + 1] {
            Some(v) => v,
            None => arbitrary(),
        })
    }
}

pub open spec fn fits_nil_padded<T: WireRecord>(items: Seq<T::V>) -> bool {
    items.len() + 1 <= u32::MAX
}

pub open spec fn enc_nil_padded<T: WireRecord>(items: Seq<T::V>) -> Seq<u8> {
    enc_u32((items.len() + 1) as u32) + enc_seq(disk_elems(items), elem_encoder::<T>())
}

/// Decodes a whole nil-padded file.  An empty array is accepted as the empty
/// collection; a non-empty array must start with the sentinel and hold real
/// records everywhere else, and the file must end with the array.
pub open spec fn parse_nil_padded<T: WireRecord>(b: Seq<u8>) -> Option<Seq<T::V>> {
    match parse_u32(b, 0) {
        Some((count, p1)) => match parse_seq(b, p1, count as int, elem_parser::<T>()) {
            Some((els, end)) => if end == b.len() && (els.len() > 0 ==> els[0] is None) && (
            forall|i: int| 1 <= i < els.len() ==> (#[trigger] els[i]) is Some) {
                Some(strip_sentinel(els))
            } else {
                None
            },
            None => None,
        },
        None => None,
    }
}

/// Every nil-padded collection decodes back to itself, the empty collection
/// included.
pub proof fn lemma_nil_padded_round_trip<T: WireRecord>(items: Seq<T::V>)
    requires
        wf_wire_seq::<T>(items),
        fits_nil_padded::<T>(items),
    ensures
        parse_nil_padded::<T>(enc_nil_padded::<T>(items)) == Some(items),
{
    let b = enc_nil_padded::<T>(items);
    let els = disk_elems(items);
    let count = (items.len() + 1) as u32;
    let body = enc_seq(els, elem_encoder::<T>());
    assert(b.subrange(0, b.len() as int) =~= b);
    lemma_subrange_split(b, 0, enc_u32(count), body);
    lemma_parse_u32(b, 0, count);
    assert forall|i: int, p: int|
        0 <= i < els.len() && 0 <= p && p + elem_encoder::<T>()(#[trigger] els[i]).len() <= b.len()
            && b.subrange(p, p + elem_encoder::<T>()(els[i]).len()) == elem_encoder::<T>()(els[i])
        implies #[trigger] elem_parser::<T>()(b, p) == Some((
        els[i],
        p + elem_encoder::<T>()(els[i]).len(),
    )) by {
        lemma_parse_wire_elem::<T>(b, p, els[i]);
    }
    lemma_parse_seq(b, 4, els, elem_encoder::<T>(), elem_parser::<T>());
    assert(count as int == els.len());
    assert(strip_sentinel(els) =~= items);
}

/// Whatever a nil-padded file decodes to was storable in the first place.
pub proof fn lemma_parse_nil_padded_wf<T: WireRecord>(b: Seq<u8>)
    ensures
        parse_nil_padded::<T>(b) matches Some(items) ==> wf_wire_seq::<T>(items)
            && fits_nil_padded::<T>(items),
{
    if parse_nil_padded::<T>(b) is Some {
        let (count, p1) = parse_u32(b, 0)->Some_0;
        assert forall|pp: int|
            ((#[trigger] elem_parser::<T>()(b, pp)) matches Some(t) ==> (match t.0 {
                Some(v) => T::wf_view(v),
                None => true,
            })) by {
            assert(elem_parser::<T>()(b, pp) == parse_wire_elem::<T>(b, pp));
            if parse_wire_elem::<T>(b, pp) is Some {
                let (tag, pe) = parse_u8(b, pp)->Some_0;
                T::lemma_parse_wf(b, pe);
            }
        }
        crate::codec::lemma_parse_seq_all(
            b,
            p1,
            count as int,
            elem_parser::<T>(),
            |e: Option<T::V>|
                match e {
                    Some(v) => T::wf_view(v),
                    None => true,
                },
        );
        let (els, end) = parse_seq(b, p1, count as int, elem_parser::<T>())->Some_0;
        let items = strip_sentinel(els);
        assert forall|i: int| 0 <= i < items.len() implies T::wf_view(#[trigger] items[i]) by {
            assert(els[i + 1] is Some);
            assert(match els[i + 1] {
                Some(v) => T::wf_view(v),
                None => true,
            });
        }
    }
}

pub fn serialize_nil_padded<T: WireRecord>(items: &Vec<T>) -> (out: Vec<u8>)
    requires
        wf_wire_seq::<T>(items.deep_view()),
        fits_nil_padded::<T>(items.deep_view()),
    ensures
        out@ == enc_nil_padded::<T>(items.deep_view()),
{
    let ghost dv = items.deep_view();
    let ghost els = disk_elems(dv);
    let mut out: Vec<u8> = Vec::new();
    let count: u32 = items.len() as u32 + 1;
    write_u32(&mut out, count);
    write_u8(&mut out, 0);
    proof {
        assert(els.subrange(0, 1) =~= seq![None::<T::V>]);
        assert(seq![None::<T::V>].drop_first() =~= Seq::<Option<T::V>>::empty());
        assert(enc_seq(Seq::<Option<T::V>>::empty(), elem_encoder::<T>()) == Seq::<u8>::empty());
        assert(elem_encoder::<T>()(None) == seq![0u8]);
        assert(out@ =~= enc_u32(count) + enc_seq(els.subrange(0, 1), elem_encoder::<T>()));
    }
    let n = items.len();
    let mut i: usize = 0;
    while i < n
        invariant
            n == items@.len(),
            dv == items.deep_view(),
            els == disk_elems(dv),
            dv.len() == n as int,
            wf_wire_seq::<T>(dv),
            i <= n,
            out@ == enc_u32(count) + enc_seq(els.subrange(0, 1 + i as int), elem_encoder::<T>()),
        decreases n - i,
    {
        write_u8(&mut out, 1);
        items[i].write_wire(&mut out);
        proof {
            let pre = els.subrange(0, 1 + i as int);
            assert(els.subrange(0, 2 + i as int) =~= pre.push(els[1 + i as int]));
            lemma_enc_seq_push(pre, els[1 + i as int], elem_encoder::<T>());
            assert(els[1 + i as int] == Some(dv[i as int]));
            assert(elem_encoder::<T>()(Some(dv[i as int])) == seq![1u8] + T::enc_view(
                dv[i as int],
            ));
            assert(out@ =~= enc_u32(count) + enc_seq(
                els.subrange(0, 2 + i as int),
                elem_encoder::<T>(),
            ));
        }
        i = i + 1;
    }
    proof {
        assert(els.subrange(0, 1 + n as int) =~= els);
    }
    out
}

pub fn deserialize_nil_padded<T: WireRecord>(b: &Vec<u8>) -> (r: Option<Vec<T>>)
    ensures
        match parse_nil_padded::<T>(b@) {
            Some(items) => r matches Some(v) && v.deep_view() == items,
            None => r is None,
        },
{
    let ghost pf = elem_parser::<T>();
    match read_u32(b, 0) {
        None => None,
        Some((count, p1)) => {
            let ghost n = count as int;
            if count == 0 {
                if p1 == b.len() {
                    let out: Vec<T> = Vec::new();
                    proof {
                        assert(strip_sentinel(Seq::<Option<T::V>>::empty()) =~= Seq::<
                            T::V,
                        >::empty());
                        assert(out.deep_view() =~= Seq::<T::V>::empty());
                    }
                    Some(out)
                } else {
                    None
                }
            } else {
                match read_u8(b, p1) {
                    None => {
                        proof {
                            assert(pf(b@, p1 as int) == parse_wire_elem::<T>(b@, p1 as int));
                            lemma_parse_seq_step(b@, p1 as int, n, pf);
                        }
                        None
                    },
                    Some((tag, p2)) => {
                        if tag != 0 {
                            proof {
                                assert(pf(b@, p1 as int) == parse_wire_elem::<T>(b@, p1 as int));
                                lemma_parse_seq_step(b@, p1 as int, n, pf);
                                if tag == 1 {
                                    let pv = T::parse_view(b@, p2 as int);
                                    if pv is Some {
                                        let (v, p3) = pv->Some_0;
                                        let rem = parse_seq(b@, p3, n - 1, pf);
                                        if rem is Some {
                                            let (rest, end) = rem->Some_0;
                                            assert((seq![Some(v)] + rest)[0] == Some(v));
                                        }
                                    }
                                }
                            }
                            None
                        } else {
                            let mut recs: Vec<T> = Vec::new();
                            let mut cur: usize = p2;
                            let mut j: u32 = 1;
                            let ghost nil0 = seq![None::<T::V>];
                            proof {
                                assert(pf(b@, p1 as int) == parse_wire_elem::<T>(b@, p1 as int));
                                lemma_parse_seq_step(b@, p1 as int, n, pf);
                                assert(recs.deep_view() =~= Seq::<T::V>::empty());
                                assert(nil0 + recs.deep_view().map_values(
                                    |v: T::V| Some(v),
                                ) =~= nil0);
                                let rem = parse_seq(b@, p2 as int, n - 1, pf);
                                if rem is Some {
                                    let (rest, end) = rem->Some_0;
                                    assert(nil0 + rest =~= seq![None::<T::V>] + rest);
                                }
                            }
                            while j < count
                                invariant
                                    n == count as int,
                                    parse_u32(b@, 0) == Some((count, p1 as int)),
                                    1 <= j <= count,
                                    pf == elem_parser::<T>(),
                                    nil0 == seq![None::<T::V>],
                                    recs.deep_view().len() == j - 1,
                                    parse_seq(b@, p1 as int, n, pf) == (match parse_seq(
                                        b@,
                                        cur as int,
                                        n - j,
                                        pf,
                                    ) {
                                        Some((rest, end)) => Some((
                                            (nil0 + recs.deep_view().map_values(
                                                |v: T::V| Some(v),
                                            )) + rest,
                                            end,
                                        )),
                                        None => None::<(Seq<Option<T::V>>, int)>,
                                    }),
                                decreases count - j,
                            {
                                let ghost done = nil0 + recs.deep_view().map_values(
                                    |v: T::V| Some(v),
                                );
                                match read_u8(b, cur) {
                                    None => {
                                        proof {
                                            assert(pf(b@, cur as int) == parse_wire_elem::<T>(
                                                b@,
                                                cur as int,
                                            ));
                                            lemma_parse_seq_step(b@, cur as int, n - j, pf);
                                        }
                                        return None;
                                    },
                                    Some((tag, pe)) => {
                                        if tag != 1 {
                                            proof {
                                                assert(pf(b@, cur as int) == parse_wire_elem::<T>(
                                                    b@,
                                                    cur as int,
                                                ));
                                                lemma_parse_seq_step(b@, cur as int, n - j, pf);
                                                if tag == 0 {
                                                    let rem = parse_seq(b@, pe as int, n - j - 1, pf);
                                                    if rem is Some {
                                                        let (rest, end) = rem->Some_0;
                                                        let els = done + (seq![None::<T::V>]
                                                            + rest);
                                                        assert(els[j as int] is None);
                                                    }
                                                }
                                            }
                                            return None;
                                        } else {
                                            match T::read_wire(b, pe) {
                                                None => {
                                                    proof {
                                                        assert(pf(b@, cur as int)
                                                            == parse_wire_elem::<T>(
                                                            b@,
                                                            cur as int,
                                                        ));
                                                        lemma_parse_seq_step(
                                                            b@,
                                                            cur as int,
                                                            n - j,
                                                            pf,
                                                        );
                                                    }
                                                    return None;
                                                },
                                                Some((rec, p3)) => {
                                                    let ghost pre_dv = recs.deep_view();
                                                    proof {
                                                        let rv = rec.deep_view();
                                                        assert(pf(b@, cur as int)
                                                            == parse_wire_elem::<T>(
                                                            b@,
                                                            cur as int,
                                                        ));
                                                        lemma_parse_seq_step(
                                                            b@,
                                                            cur as int,
                                                            n - j,
                                                            pf,
                                                        );
                                                        let rem = parse_seq(
                                                            b@,
                                                            p3 as int,
                                                            n - j - 1,
                                                            pf,
                                                        );
                                                        if rem is Some {
                                                            let (rest, end) = rem->Some_0;
                                                            assert(done + (seq![Some(rv)] + rest)
                                                                =~= (nil0 + recs.deep_view().push(
                                                                rv,
                                                            ).map_values(|v: T::V| Some(v)))
                                                                + rest) by {
                                                                assert(recs.deep_view().push(
                                                                    rv,
                                                                ).map_values(|v: T::V| Some(v))
                                                                    =~= recs.deep_view().map_values(
                                                                    |v: T::V| Some(v),
                                                                ).push(Some(rv)));
                                                            }
                                                        }
                                                    }
                                                    let ghost rv = rec.deep_view();
                                                    recs.push(rec);
                                                    proof {
                                                        assert(recs.deep_view() =~= pre_dv.push(
                                                            rv,
                                                        ));
                                                    }
                                                    cur = p3;
                                                    j = j + 1;
                                                },
                                            }
                                        }
                                    },
                                }
                            }
                            proof {
                                let done = nil0 + recs.deep_view().map_values(|v: T::V| Some(v));
                                assert(done + Seq::<Option<T::V>>::empty() =~= done);
                            }
                            if cur == b.len() {
                                proof {
                                    let done = nil0 + recs.deep_view().map_values(
                                        |v: T::V| Some(v),
                                    );
                                    assert(done[0] is None);
                                    assert forall|i: int| 1 <= i < done.len() implies (
                                    #[trigger] done[i]) is Some by {
                                        assert(done[i] == recs.deep_view().map_values(
                                            |v: T::V| Some(v),
                                        )[i - 1]);
                                    }
                                    assert(strip_sentinel(done) =~= recs.deep_view());
                                }
                                Some(recs)
                            } else {
                                None
                            }
                        }
                    },
                }
            }
        },
    }
}

// ---------------------------------------------------------------------------
// Plain array files
// ---------------------------------------------------------------------------

pub open spec fn fits_array<T: WireRecord>(items: Seq<T::V>) -> bool {
    items.len() <= u32::MAX
}

pub open spec fn enc_array<T: WireRecord>(items: Seq<T::V>) -> Seq<u8> {
    enc_u32(items.len() as u32) + enc_seq(items, wire_encoder::<T>())
}

pub open spec fn parse_array<T: WireRecord>(b: Seq<u8>) -> Option<Seq<T::V>> {
    match parse_u32(b, 0) {
        Some((count, p1)) => match parse_seq(b, p1, count as int, wire_parser::<T>()) {
            Some((items, end)) => if end == b.len() {
                Some(items)
            } else {
                None
            },
            None => None,
        },
        None => None,
    }
}

/// Every plain array of records decodes back to itself.
pub proof fn lemma_array_round_trip<T: WireRecord>(items: Seq<T::V>)
    requires
        wf_wire_seq::<T>(items),
        fits_array::<T>(items),
    ensures
        parse_array::<T>(enc_array::<T>(items)) == Some(items),
{
    let b = enc_array::<T>(items);
    let count = items.len() as u32;
    let body = enc_seq(items, wire_encoder::<T>());
    assert(b.subrange(0, b.len() as int) =~= b);
    lemma_subrange_split(b, 0, enc_u32(count), body);
    lemma_parse_u32(b, 0, count);
    assert forall|i: int, p: int|
        0 <= i < items.len() && 0 <= p && p + wire_encoder::<T>()(#[trigger] items[i]).len()
            <= b.len() && b.subrange(p, p + wire_encoder::<T>()(items[i]).len())
            == wire_encoder::<T>()(items[i]) implies #[trigger] wire_parser::<T>()(b, p) == Some((
        items[i],
        p + wire_encoder::<T>()(items[i]).len(),
    )) by {
        T::lemma_parse_enc(b, p, items[i]);
    }
    lemma_parse_seq(b, 4, items, wire_encoder::<T>(), wire_parser::<T>());
}

/// Whatever a plain array file decodes to was storable in the first place.
pub proof fn lemma_parse_array_wf<T: WireRecord>(b: Seq<u8>)
    ensures
        parse_array::<T>(b) matches Some(items) ==> wf_wire_seq::<T>(items) && fits_array::<T>(
            items,
        ),
{
    if parse_array::<T>(b) is Some {
        let (count, p1) = parse_u32(b, 0)->Some_0;
        assert forall|pp: int|
            ((#[trigger] wire_parser::<T>()(b, pp)) matches Some(t) ==> T::wf_view(t.0)) by {
            assert(wire_parser::<T>()(b, pp) == T::parse_view(b, pp));
            T::lemma_parse_wf(b, pp);
        }
        crate::codec::lemma_parse_seq_all(
            b,
            p1,
            count as int,
            wire_parser::<T>(),
            |v: T::V| T::wf_view(v),
        );
    }
}

pub fn serialize_array<T: WireRecord>(items: &Vec<T>) -> (out: Vec<u8>)
    requires
        wf_wire_seq::<T>(items.deep_view()),
        fits_array::<T>(items.deep_view()),
    ensures
        out@ == enc_array::<T>(items.deep_view()),
{
    let ghost dv = items.deep_view();
    let mut out: Vec<u8> = Vec::new();
    let count: u32 = items.len() as u32;
    write_u32(&mut out, count);
    proof {
        assert(enc_seq(Seq::<T::V>::empty(), wire_encoder::<T>()) == Seq::<u8>::empty());
        assert(dv.subrange(0, 0) =~= Seq::<T::V>::empty());
        assert(out@ =~= enc_u32(count) + enc_seq(dv.subrange(0, 0), wire_encoder::<T>()));
    }
    let n = items.len();
    let mut i: usize = 0;
    while i < n
        invariant
            n == items@.len(),
            dv == items.deep_view(),
            dv.len() == n as int,
            wf_wire_seq::<T>(dv),
            i <= n,
            out@ == enc_u32(count) + enc_seq(dv.subrange(0, i as int), wire_encoder::<T>()),
        decreases n - i,
    {
        proof {
            assert(T::wf_view(dv[i as int]));
            assert(items@[i as int].deep_view() == dv[i as int]);
        }
        items[i].write_wire(&mut out);
        proof {
            let pre = dv.subrange(0, i as int);
            assert(dv.subrange(0, i + 1) =~= pre.push(dv[i as int]));
            lemma_enc_seq_push(pre, dv[i as int], wire_encoder::<T>());
            assert(wire_encoder::<T>()(dv[i as int]) == T::enc_view(dv[i as int]));
            assert(out@ =~= enc_u32(count) + enc_seq(
                dv.subrange(0, i + 1),
                wire_encoder::<T>(),
            ));
        }
        i = i + 1;
    }
    proof {
        assert(dv.subrange(0, n as int) =~= dv);
    }
    out
}

pub fn deserialize_array<T: WireRecord>(b: &Vec<u8>) -> (r: Option<Vec<T>>)
    ensures
        match parse_array::<T>(b@) {
            Some(items) => r matches Some(v) && v.deep_view() == items,
            None => r is None,
        },
{
    let ghost pf = wire_parser::<T>();
    match read_u32(b, 0) {
        None => None,
        Some((count, p1)) => {
            let ghost n = count as int;
            let mut recs: Vec<T> = Vec::new();
            let mut cur: usize = p1;
            let mut j: u32 = 0;
            proof {
                assert(recs.deep_view() =~= Seq::<T::V>::empty());
                let rem = parse_seq(b@, p1 as int, n, pf);
                if rem is Some {
                    let (rest, end) = rem->Some_0;
                    assert(Seq::<T::V>::empty() + rest =~= rest);
                }
            }
            while j < count
                invariant
                    n == count as int,
                    parse_u32(b@, 0) == Some((count, p1 as int)),
                    j <= count,
                    pf == wire_parser::<T>(),
                    recs.deep_view().len() == j as int,
                    parse_seq(b@, p1 as int, n, pf) == (match parse_seq(b@, cur as int, n - j, pf) {
                        Some((rest, end)) => Some((recs.deep_view() + rest, end)),
                        None => None::<(Seq<T::V>, int)>,
                    }),
                decreases count - j,
            {
                match T::read_wire(b, cur) {
                    None => {
                        proof {
                            assert(pf(b@, cur as int) == T::parse_view(b@, cur as int));
                            lemma_parse_seq_step(b@, cur as int, n - j, pf);
                        }
                        return None;
                    },
                    Some((rec, p2)) => {
                        let ghost pre_dv = recs.deep_view();
                        let ghost rv = rec.deep_view();
                        proof {
                            assert(pf(b@, cur as int) == T::parse_view(b@, cur as int));
                            lemma_parse_seq_step(b@, cur as int, n - j, pf);
                            let rem = parse_seq(b@, p2 as int, n - j - 1, pf);
                            if rem is Some {
                                let (rest, end) = rem->Some_0;
                                assert(pre_dv + (seq![rv] + rest) =~= pre_dv.push(rv) + rest);
                            }
                        }
                        recs.push(rec);
                        proof {
                            assert(recs.deep_view() =~= pre_dv.push(rv));
                        }
                        cur = p2;
                        j = j + 1;
                    },
                }
            }
            proof {
                assert(recs.deep_view() + Seq::<T::V>::empty() =~= recs.deep_view());
            }
            if cur == b.len() {
                Some(recs)
            } else {
                None
            }
        },
    }
}

// ---------------------------------------------------------------------------
// Single-record files
// ---------------------------------------------------------------------------

pub open spec fn enc_single<T: WireRecord>(v: T::V) -> Seq<u8> {
    T::enc_view(v)
}

pub open spec fn parse_single<T: WireRecord>(b: Seq<u8>) -> Option<T::V> {
    match T::parse_view(b, 0) {
        Some((v, end)) => if end == b.len() {
            Some(v)
        } else {
            None
        },
        None => None,
    }
}

/// Every single record decodes back to itself.
pub proof fn lemma_single_round_trip<T: WireRecord>(v: T::V)
    requires
        T::wf_view(v),
    ensures
        parse_single::<T>(enc_single::<T>(v)) == Some(v),
{
    let b = enc_single::<T>(v);
    assert(b.subrange(0, b.len() as int) =~= b);
    T::lemma_parse_enc(b, 0, v);
}

/// Whatever a single-record file decodes to was storable in the first place.
pub proof fn lemma_parse_single_wf<T: WireRecord>(b: Seq<u8>)
    ensures
        parse_single::<T>(b) matches Some(v) ==> T::wf_view(v),
{
    if parse_single::<T>(b) is Some {
        T::lemma_parse_wf(b, 0);
    }
}

pub fn serialize_single<T: WireRecord>(x: &T) -> (out: Vec<u8>)
    requires
        T::wf_view(x.deep_view()),
    ensures
        out@ == enc_single::<T>(x.deep_view()),
{
    let mut out: Vec<u8> = Vec::new();
    x.write_wire(&mut out);
    proof {
        assert(out@ =~= enc_single::<T>(x.deep_view()));
    }
    out
}

pub fn deserialize_single<T: WireRecord>(b: &Vec<u8>) -> (r: Option<T>)
    ensures
        match parse_single::<T>(b@) {
            Some(v) => r matches Some(x) && x.deep_view() == v,
            None => r is None,
        },
{
    match T::read_wire(b, 0) {
        None => None,
        Some((x, end)) => if end == b.len() {
            Some(x)
        } else {
            None
        },
    }
}

} // verus!
