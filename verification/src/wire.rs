//! Wire format for message values.
//!
//! A message value is serialized variant-prefixed: one tag byte, then the
//! payload.  Integers go little-endian; strings are a character count
//! followed by each character's Unicode scalar value in four bytes; blobs
//! are a byte count followed by the raw bytes; lists are an element count
//! followed by the elements' encodings.  The decoder accepts exactly the
//! encodings: every well-formed value round-trips.

use vstd::prelude::*;
use vstd::bytes::*;
use vstd::slice::slice_subrange;
use crate::pmt::Pmt;
use crate::pmt::PmtV;
use crate::pmt::pmt_view;
use crate::pmt::pmt_views;

verus! {

broadcast use vstd::std_specs::vec::group_vec_axioms;

/// True of a `u32` that is a Unicode scalar value, exactly the inputs on
/// which `char::from_u32` returns a character.
pub open spec fn scalar_value(u: u32) -> bool {
    u < 0xD800 || (0xDFFF < u && u <= 0x10FFFF)
}

/// Relies on `char::from_u32` of std: it returns the character with the
/// given scalar value, and `None` exactly on surrogates and out-of-range
/// values.
pub assume_specification[ char::from_u32 ](u: u32) -> (r: Option<char>)
    ensures
        r is Some <==> scalar_value(u),
        r matches Some(c) ==> c as u32 == u,
;

/// Relies on `String::push` of std: it appends exactly the given character.
pub assume_specification[ String::push ](s: &mut String, c: char)
    ensures
        final(s)@ == old(s)@.push(c),
;

/// A value all of whose counts fit the wire format's 64-bit length fields.
/// Every value built from in-memory vectors and strings satisfies it.
pub open spec fn wf_pmt(v: PmtV) -> bool
    decreases v,
{
    match v {
        PmtV::Text(s) => s.len() <= u64::MAX,
        PmtV::Blob(b) => b.len() <= u64::MAX,
        PmtV::List(items) => items.len() <= u64::MAX && (forall|i: int|
            0 <= i < items.len() ==> wf_pmt(#[trigger] items[i])),
        _ => true,
    }
}

/// The encoding of a message value.
pub open spec fn spec_encode(v: PmtV) -> Seq<u8>
    decreases v, 0nat,
    via spec_encode_decreases
{
    match v {
        PmtV::Null => seq![0u8],
        PmtV::Okay => seq![1u8],
        PmtV::Bool(b) => seq![2u8, (if b { 1u8 } else { 0u8 })],
        PmtV::U32(x) => seq![3u8] + spec_u32_to_le_bytes(x),
        PmtV::U64(x) => seq![4u8] + spec_u64_to_le_bytes(x),
        PmtV::F32(x) => seq![5u8] + spec_u32_to_le_bytes(x),
        PmtV::F64(x) => seq![6u8] + spec_u64_to_le_bytes(x),
        PmtV::Text(s) => seq![7u8] + spec_u64_to_le_bytes(s.len() as u64) + spec_encode_chars(s),
        PmtV::Blob(b) => seq![8u8] + spec_u64_to_le_bytes(b.len() as u64) + b,
        PmtV::Any(h) => seq![9u8] + spec_u64_to_le_bytes(h),
        PmtV::List(items) => seq![10u8] + spec_u64_to_le_bytes(items.len() as u64)
            + spec_encode_seq(items),
    }
}

/// The encoding of a string payload: four bytes per character.
pub open spec fn spec_encode_chars(s: Seq<char>) -> Seq<u8>
    decreases s.len(),
{
    if s.len() == 0 {
        Seq::empty()
    } else {
        spec_u32_to_le_bytes(s[0] as u32) + spec_encode_chars(s.skip(1))
    }
}

/// The encoding of a list payload: the elements' encodings, in order.
pub open spec fn spec_encode_seq(items: Seq<PmtV>) -> Seq<u8>
    decreases items, 1nat,
    via spec_encode_seq_decreases
{
    if items.len() == 0 {
        Seq::empty()
    } else {
        spec_encode(items[0]) + spec_encode_seq(items.subrange(1, items.len() as int))
    }
}

#[via_fn]
proof fn spec_encode_decreases(v: PmtV) {
    if let PmtV::List(items) = v {
        assert(decreases_to!(v => v->List_0));
        assert(v->List_0 == items);
    }
}

#[via_fn]
proof fn spec_encode_seq_decreases(items: Seq<PmtV>) {
    if items.len() > 0 {
        assert(decreases_to!(items => items[0]));
        assert(decreases_to!(items => items.subrange(1, items.len() as int)));
    }
}

/// Serializes a message value.
pub fn encode_pmt(p: &Pmt) -> (out: Vec<u8>)
    ensures
        out@ == spec_encode(p@),
        wf_pmt(p@),
{
    let mut out: Vec<u8> = Vec::new();
    encode_into(p, &mut out);
    proof {
        assert(Seq::<u8>::empty() + spec_encode(pmt_view(*p)) =~= spec_encode(pmt_view(*p)));
    }
    out
}

/// Appends the encoding of a message value to a buffer.
fn encode_into(p: &Pmt, out: &mut Vec<u8>)
    ensures
        final(out)@ == old(out)@ + spec_encode(p@),
        wf_pmt(p@),
    decreases *p,
{
    let ghost start = out@;
    match p {
        Pmt::Null => {
            out.push(0u8);
            proof {
                assert(out@ =~= start + spec_encode(pmt_view(*p)));
            }
        },
        Pmt::Okay => {
            out.push(1u8);
            proof {
                assert(out@ =~= start + spec_encode(pmt_view(*p)));
            }
        },
        Pmt::Bool(b) => {
            out.push(2u8);
            out.push(if *b { 1u8 } else { 0u8 });
            proof {
                assert(out@ =~= start + spec_encode(pmt_view(*p)));
            }
        },
        Pmt::U32(x) => {
            out.push(3u8);
            let mut bs = u32_to_le_bytes(*x);
            out.append(&mut bs);
            proof {
                assert(out@ =~= start + spec_encode(pmt_view(*p)));
            }
        },
        Pmt::U64(x) => {
            out.push(4u8);
            let mut bs = u64_to_le_bytes(*x);
            out.append(&mut bs);
            proof {
                assert(out@ =~= start + spec_encode(pmt_view(*p)));
            }
        },
        Pmt::F32(x) => {
            out.push(5u8);
            let mut bs = u32_to_le_bytes(*x);
            out.append(&mut bs);
            proof {
                assert(out@ =~= start + spec_encode(pmt_view(*p)));
            }
        },
        Pmt::F64(x) => {
            out.push(6u8);
            let mut bs = u64_to_le_bytes(*x);
            out.append(&mut bs);
            proof {
                assert(out@ =~= start + spec_encode(pmt_view(*p)));
            }
        },
        Pmt::Text(s) => {
            out.push(7u8);
            let n = s.as_str().unicode_len();
            let mut bs = u64_to_le_bytes(n as u64);
            out.append(&mut bs);
            let ghost head = out@;
            let mut i: usize = 0;
            while i < n
                invariant
                    n == s@.len(),
                    i <= n,
                    out@ == head + spec_encode_chars(s@.take(i as int)),
                decreases n - i,
            {
                let c = s.as_str().get_char(i);
                let mut cb = u32_to_le_bytes(c as u32);
                out.append(&mut cb);
                proof {
                    lemma_encode_chars_snoc(s@.take(i + 1 as int));
                    assert(s@.take(i + 1 as int).drop_last() =~= s@.take(i as int));
                    assert(out@ =~= head + spec_encode_chars(s@.take(i + 1 as int)));
                }
                i = i + 1;
            }
            proof {
                assert(s@.take(n as int) =~= s@);
                assert(out@ =~= start + spec_encode(pmt_view(*p)));
            }
        },
        Pmt::Blob(b) => {
            out.push(8u8);
            let mut bs = u64_to_le_bytes(b.len() as u64);
            out.append(&mut bs);
            let ghost head = out@;
            let mut i: usize = 0;
            while i < b.len()
                invariant
                    i <= b@.len(),
                    out@ == head + b@.take(i as int),
                decreases b@.len() - i,
            {
                out.push(b[i]);
                proof {
                    assert(out@ =~= head + b@.take(i + 1 as int));
                }
                i = i + 1;
            }
            proof {
                assert(b@.take(b@.len() as int) =~= b@);
                assert(out@ =~= start + spec_encode(pmt_view(*p)));
            }
        },
        Pmt::Any(h) => {
            out.push(9u8);
            let mut bs = u64_to_le_bytes(*h);
            out.append(&mut bs);
            proof {
                assert(out@ =~= start + spec_encode(pmt_view(*p)));
            }
        },
        Pmt::List(items) => {
            out.push(10u8);
            let mut bs = u64_to_le_bytes(items.len() as u64);
            out.append(&mut bs);
            let ghost head = out@;
            let mut i: usize = 0;
            while i < items.len()
                invariant
                    *p == Pmt::List(*items),
                    i <= items@.len(),
                    out@ == head + spec_encode_seq(pmt_views(items@).take(i as int)),
                    forall|k: int| 0 <= k < i ==> wf_pmt(#[trigger] pmt_views(items@)[k]),
                decreases items@.len() - i,
            {
                proof {
                    assert(decreases_to!(*p => p->List_0));
                    assert(p->List_0 == *items);
                    assert(decreases_to!(*items => items@));
                    assert(decreases_to!(items@ => items@[i as int]));
                }
                encode_into(&items[i], out);
                proof {
                    lemma_encode_seq_snoc(pmt_views(items@).take(i + 1 as int));
                    assert(pmt_views(items@).take(i + 1 as int).drop_last()
                        =~= pmt_views(items@).take(i as int));
                    assert(pmt_views(items@).take(i + 1 as int).last()
                        == pmt_view(items@[i as int]));
                    assert(out@ =~= head + spec_encode_seq(pmt_views(items@).take(i + 1 as int)));
                }
                i = i + 1;
            }
            proof {
                assert(pmt_views(items@).take(items@.len() as int) =~= pmt_views(items@));
                assert(out@ =~= start + spec_encode(pmt_view(*p)));
            }
        },
    }
}

/// Splitting the last character off a string encoding.
proof fn lemma_encode_chars_snoc(s: Seq<char>)
    requires
        s.len() > 0,
    ensures
        spec_encode_chars(s) == spec_encode_chars(s.drop_last())
            + spec_u32_to_le_bytes(s.last() as u32),
    decreases s.len(),
{
    if s.len() == 1 {
        assert(s.skip(1) =~= Seq::<char>::empty());
        assert(s.drop_last() =~= Seq::<char>::empty());
        assert(spec_encode_chars(s) =~= spec_encode_chars(s.drop_last())
            + spec_u32_to_le_bytes(s.last() as u32));
    } else {
        lemma_encode_chars_snoc(s.skip(1));
        assert(s.skip(1).drop_last() =~= s.drop_last().skip(1));
        assert(s.skip(1).last() == s.last());
        assert(s.drop_last()[0] == s[0]);
        assert(s.drop_last().len() > 0);
        assert(spec_encode_chars(s) =~= spec_encode_chars(s.drop_last())
            + spec_u32_to_le_bytes(s.last() as u32));
    }
}

/// Splitting the last element off a list-payload encoding.
proof fn lemma_encode_seq_snoc(items: Seq<PmtV>)
    requires
        items.len() > 0,
    ensures
        spec_encode_seq(items) == spec_encode_seq(items.drop_last())
            + spec_encode(items.last()),
    decreases items.len(),
{
    if items.len() == 1 {
        assert(items.subrange(1, 1) =~= Seq::<PmtV>::empty());
        assert(items.drop_last() =~= Seq::<PmtV>::empty());
        assert(spec_encode_seq(items) =~= spec_encode_seq(items.drop_last())
            + spec_encode(items.last()));
    } else {
        let tail = items.subrange(1, items.len() as int);
        lemma_encode_seq_snoc(tail);
        assert(tail.drop_last() =~= items.drop_last().subrange(1, items.drop_last().len() as int));
        assert(tail.last() == items.last());
        assert(items.drop_last()[0] == items[0]);
        assert(items.drop_last().len() > 0);
        assert(spec_encode_seq(items) =~= spec_encode_seq(items.drop_last())
            + spec_encode(items.last()));
    }
}

} // verus!

// The decoder, as a mathematical function.  `spec_decode` returns the decoded
// value and the count of bytes consumed, or nothing when the input's head is
// not an encoding.

verus! {

/// Decodes one message value from the head of a byte sequence.
pub open spec fn spec_decode(s: Seq<u8>) -> Option<(PmtV, int)>
    decreases s.len(), 0nat, 0nat,
{
    if s.len() == 0 {
        None
    } else {
        let tag = s[0];
        if tag == 0 {
            Some((PmtV::Null, 1))
        } else if tag == 1 {
            Some((PmtV::Okay, 1))
        } else if tag == 2 {
            if s.len() < 2 {
                None
            } else if s[1] == 1 {
                Some((PmtV::Bool(true), 2))
            } else if s[1] == 0 {
                Some((PmtV::Bool(false), 2))
            } else {
                None
            }
        } else if tag == 3 {
            if s.len() < 5 {
                None
            } else {
                Some((PmtV::U32(spec_u32_from_le_bytes(s.subrange(1, 5))), 5))
            }
        } else if tag == 4 {
            if s.len() < 9 {
                None
            } else {
                Some((PmtV::U64(spec_u64_from_le_bytes(s.subrange(1, 9))), 9))
            }
        } else if tag == 5 {
            if s.len() < 5 {
                None
            } else {
                Some((PmtV::F32(spec_u32_from_le_bytes(s.subrange(1, 5))), 5))
            }
        } else if tag == 6 {
            if s.len() < 9 {
                None
            } else {
                Some((PmtV::F64(spec_u64_from_le_bytes(s.subrange(1, 9))), 9))
            }
        } else if tag == 7 {
            if s.len() < 9 {
                None
            } else {
                let n = spec_u64_from_le_bytes(s.subrange(1, 9));
                match spec_decode_chars(s.skip(9), n as nat) {
                    Some(cs) => Some((PmtV::Text(cs), 9 + 4 * (n as int))),
                    None => None,
                }
            }
        } else if tag == 8 {
            if s.len() < 9 {
                None
            } else {
                let n = spec_u64_from_le_bytes(s.subrange(1, 9));
                if s.len() < 9 + n {
                    None
                } else {
                    Some((PmtV::Blob(s.subrange(9, 9 + n as int)), 9 + n as int))
                }
            }
        } else if tag == 9 {
            if s.len() < 9 {
                None
            } else {
                Some((PmtV::Any(spec_u64_from_le_bytes(s.subrange(1, 9))), 9))
            }
        } else if tag == 10 {
            if s.len() < 9 {
                None
            } else {
                let n = spec_u64_from_le_bytes(s.subrange(1, 9));
                match spec_decode_seq(s.skip(9), n as nat) {
                    Some((vs, k)) => Some((PmtV::List(vs), 9 + k)),
                    None => None,
                }
            }
        } else {
            None
        }
    }
}

/// Decodes a string payload of `n` characters.
pub open spec fn spec_decode_chars(s: Seq<u8>, n: nat) -> Option<Seq<char>>
    decreases n,
{
    if n == 0 {
        Some(Seq::empty())
    } else if s.len() < 4 {
        None
    } else {
        let u = spec_u32_from_le_bytes(s.subrange(0, 4));
        if !scalar_value(u) {
            None
        } else {
            match spec_decode_chars(s.skip(4), (n - 1) as nat) {
                Some(cs) => Some(seq![u as char] + cs),
                None => None,
            }
        }
    }
}

/// Decodes a list payload of `n` elements, returning them and the count of
/// bytes consumed.  The consumed count of an element is clamped into
/// `1 ..= s.len()` so that the definition visibly terminates; the clamp never
/// takes effect, as `lemma_decode_bounds` shows.
pub open spec fn spec_decode_seq(s: Seq<u8>, n: nat) -> Option<(Seq<PmtV>, int)>
    decreases s.len(), 1nat, n,
{
    if n == 0 {
        Some((Seq::empty(), 0))
    } else if s.len() == 0 {
        None
    } else {
        match spec_decode(s) {
            None => None,
            Some((v, k)) => {
                let k2 = if k < 1 {
                    1
                } else if k > s.len() {
                    s.len() as int
                } else {
                    k
                };
                match spec_decode_seq(s.skip(k2), (n - 1) as nat) {
                    Some((vs, m)) => Some((seq![v] + vs, k2 + m)),
                    None => None,
                }
            },
        }
    }
}

/// What decoding one value consumes stays within the input.
pub proof fn lemma_decode_bounds(s: Seq<u8>)
    ensures
        spec_decode(s) matches Some((v, k)) ==> 1 <= k <= s.len(),
    decreases s.len(), 0nat, 0nat,
{
    if s.len() > 0 && s[0] == 7 && s.len() >= 9 {
        let n = spec_u64_from_le_bytes(s.subrange(1, 9));
        lemma_decode_chars_bounds(s.skip(9), n as nat);
    }
    if s.len() > 0 && s[0] == 10 && s.len() >= 9 {
        let n = spec_u64_from_le_bytes(s.subrange(1, 9));
        lemma_decode_seq_bounds(s.skip(9), n as nat);
    }
}

/// What decoding a string payload consumes stays within the input.
pub proof fn lemma_decode_chars_bounds(s: Seq<u8>, n: nat)
    ensures
        spec_decode_chars(s, n) matches Some(cs) ==> cs.len() == n && 4 * n <= s.len(),
    decreases n,
{
    if n > 0 && s.len() >= 4 {
        lemma_decode_chars_bounds(s.skip(4), (n - 1) as nat);
    }
}

/// What decoding a list payload consumes stays within the input.
pub proof fn lemma_decode_seq_bounds(s: Seq<u8>, n: nat)
    ensures
        spec_decode_seq(s, n) matches Some((vs, m)) ==> vs.len() == n && 0 <= m <= s.len(),
    decreases s.len(), 1nat, n,
{
    if n > 0 && s.len() > 0 {
        lemma_decode_bounds(s);
        if let Some((v, k)) = spec_decode(s) {
            let k2 = if k < 1 {
                1
            } else if k > s.len() {
                s.len() as int
            } else {
                k
            };
            lemma_decode_seq_bounds(s.skip(k2), (n - 1) as nat);
        }
    }
}

} // verus!

// The round trip: decoding an encoding yields the encoded value and consumes
// exactly the encoding.

verus! {

/// Every encoding starts with its tag byte.
proof fn lemma_encode_len_pos(v: PmtV)
    ensures
        spec_encode(v).len() >= 1,
{
    vstd::bytes::lemma_auto_spec_u32_to_from_le_bytes();
    vstd::bytes::lemma_auto_spec_u64_to_from_le_bytes();
}

/// A string payload encodes to four bytes per character.
proof fn lemma_encode_chars_len(s: Seq<char>)
    ensures
        spec_encode_chars(s).len() == 4 * s.len(),
    decreases s.len(),
{
    vstd::bytes::lemma_auto_spec_u32_to_from_le_bytes();
    if s.len() > 0 {
        lemma_encode_chars_len(s.skip(1));
    }
}

/// Decoding the encoding of a string payload gives the characters back.
proof fn lemma_decode_encode_chars(cs: Seq<char>, rest: Seq<u8>)
    ensures
        spec_decode_chars(spec_encode_chars(cs) + rest, cs.len()) == Some(cs),
    decreases cs.len(),
{
    vstd::bytes::lemma_auto_spec_u32_to_from_le_bytes();

    let s = spec_encode_chars(cs) + rest;
    if cs.len() == 0 {
        assert(spec_decode_chars(s, 0) == Some(Seq::<char>::empty()));
        assert(cs =~= Seq::<char>::empty());
    } else {
        let cb = spec_u32_to_le_bytes(cs[0] as u32);
        let tail = spec_encode_chars(cs.skip(1));
        assert(spec_encode_chars(cs) == cb + tail);
        assert(s =~= cb + (tail + rest));
        assert(s.subrange(0, 4) =~= cb);
        let u = spec_u32_from_le_bytes(s.subrange(0, 4));
        assert(u == cs[0] as u32);
        vstd::utf8::char_is_scalar(cs[0]);
        assert(scalar_value(u));
        vstd::utf8::char_u32_cast(cs[0], u);
        assert(u as char == cs[0]);
        assert(s.skip(4) =~= tail + rest);
        lemma_decode_encode_chars(cs.skip(1), rest);
        assert(seq![u as char] + cs.skip(1) =~= cs);
    }
}

/// Decoding the encoding of a value gives the value back and consumes
/// exactly the encoding, whatever follows it.
pub proof fn lemma_decode_encode(v: PmtV, rest: Seq<u8>)
    requires
        wf_pmt(v),
    ensures
        spec_decode(spec_encode(v) + rest) == Some((v, spec_encode(v).len() as int)),
    decreases v, 0nat,
{
    vstd::bytes::lemma_auto_spec_u32_to_from_le_bytes();
    vstd::bytes::lemma_auto_spec_u64_to_from_le_bytes();
    let s = spec_encode(v) + rest;
    match v {
        PmtV::Null => {
            assert(s[0] == 0);
        },
        PmtV::Okay => {
            assert(s[0] == 1);
        },
        PmtV::Bool(b) => {
            assert(s[0] == 2);
            assert(s[1] == (if b { 1u8 } else { 0u8 }));
        },
        PmtV::U32(x) => {
            assert(s[0] == 3);
            assert(s.subrange(1, 5) =~= spec_u32_to_le_bytes(x));
        },
        PmtV::U64(x) => {
            assert(s[0] == 4);
            assert(s.subrange(1, 9) =~= spec_u64_to_le_bytes(x));
        },
        PmtV::F32(x) => {
            assert(s[0] == 5);
            assert(s.subrange(1, 5) =~= spec_u32_to_le_bytes(x));
        },
        PmtV::F64(x) => {
            assert(s[0] == 6);
            assert(s.subrange(1, 9) =~= spec_u64_to_le_bytes(x));
        },
        PmtV::Text(cs) => {
            assert(s[0] == 7);
            let nb = spec_u64_to_le_bytes(cs.len() as u64);
            let cb = spec_encode_chars(cs);
            lemma_encode_chars_len(cs);
            assert(spec_encode(v) == seq![7u8] + nb + cb);
            assert(s.subrange(1, 9) =~= nb);
            let n = spec_u64_from_le_bytes(s.subrange(1, 9));
            assert(n == cs.len() as u64);
            assert(s.skip(9) =~= cb + rest);
            lemma_decode_encode_chars(cs, rest);
            assert(spec_decode(s) == Some((PmtV::Text(cs), 9 + 4 * (n as int))));
            assert(spec_encode(v).len() == 9 + 4 * cs.len());
        },
        PmtV::Blob(b) => {
            assert(s[0] == 8);
            let nb = spec_u64_to_le_bytes(b.len() as u64);
            assert(spec_encode(v) == seq![8u8] + nb + b);
            assert(s.subrange(1, 9) =~= nb);
            let n = spec_u64_from_le_bytes(s.subrange(1, 9));
            assert(n == b.len() as u64);
            assert(s.len() >= 9 + n);
            assert(s.subrange(9, 9 + n as int) =~= b);
        },
        PmtV::Any(h) => {
            assert(s[0] == 9);
            assert(s.subrange(1, 9) =~= spec_u64_to_le_bytes(h));
        },
        PmtV::List(items) => {
            assert(s[0] == 10);
            let nb = spec_u64_to_le_bytes(items.len() as u64);
            let eb = spec_encode_seq(items);
            assert(spec_encode(v) == seq![10u8] + nb + eb);
            assert(s.subrange(1, 9) =~= nb);
            let n = spec_u64_from_le_bytes(s.subrange(1, 9));
            assert(n == items.len() as u64);
            assert(s.skip(9) =~= eb + rest);
            assert(decreases_to!(v => v->List_0));
            assert(v->List_0 == items);
            lemma_decode_encode_seq(items, rest);
            assert(spec_decode(s) == Some((PmtV::List(items), 9 + eb.len() as int)));
            assert(spec_encode(v).len() == 9 + eb.len());
        },
    }
}

/// Decoding the encoding of a list payload gives the elements back.
proof fn lemma_decode_encode_seq(items: Seq<PmtV>, rest: Seq<u8>)
    requires
        forall|i: int| 0 <= i < items.len() ==> wf_pmt(#[trigger] items[i]),
    ensures
        spec_decode_seq(spec_encode_seq(items) + rest, items.len())
            == Some((items, spec_encode_seq(items).len() as int)),
    decreases items, 1nat,
{
    let s = spec_encode_seq(items) + rest;
    if items.len() == 0 {
        assert(spec_encode_seq(items).len() == 0);
        assert(items =~= Seq::<PmtV>::empty());
    } else {
        let e0 = spec_encode(items[0]);
        let tail = items.subrange(1, items.len() as int);
        let eb = spec_encode_seq(tail);
        assert(spec_encode_seq(items) == e0 + eb);
        assert(s =~= e0 + (eb + rest));
        assert(decreases_to!(items => items[0]));
        lemma_decode_encode(items[0], eb + rest);
        lemma_encode_len_pos(items[0]);
        assert(spec_decode(s) == Some((items[0], e0.len() as int)));
        assert(1 <= e0.len() <= s.len());
        assert(s.skip(e0.len() as int) =~= eb + rest);
        assert(decreases_to!(items => tail));
        lemma_decode_encode_seq(tail, rest);
        assert(seq![items[0]] + tail =~= items);
        assert(spec_decode_seq(s, items.len())
            == Some((items, (e0.len() + eb.len()) as int)));
    }
}

} // verus!

// The executable decoder.

verus! {

/// Decoding that accepts only a whole-buffer encoding.
pub open spec fn spec_decode_exact(s: Seq<u8>) -> Option<PmtV> {
    match spec_decode(s) {
        Some((v, k)) => if k == s.len() {
            Some(v)
        } else {
            None
        },
        None => None,
    }
}

/// Reads a little-endian `u32` at a byte offset.
fn read_u32_at(bytes: &Vec<u8>, i: usize) -> (x: u32)
    requires
        i + 4 <= bytes@.len(),
    ensures
        x == spec_u32_from_le_bytes(bytes@.subrange(i as int, i + 4)),
{
    let l = bytes.len();
    u32_from_le_bytes(slice_subrange(bytes.as_slice(), i, i + 4))
}

/// Reads a little-endian `u64` at a byte offset.
fn read_u64_at(bytes: &Vec<u8>, i: usize) -> (x: u64)
    requires
        i + 8 <= bytes@.len(),
    ensures
        x == spec_u64_from_le_bytes(bytes@.subrange(i as int, i + 8)),
{
    let l = bytes.len();
    u64_from_le_bytes(slice_subrange(bytes.as_slice(), i, i + 8))
}

/// Deserializes a whole buffer into a message value.  Returns the value
/// exactly when the buffer is the encoding of one value with nothing after
/// it.
pub fn decode_pmt(bytes: &Vec<u8>) -> (r: Option<Pmt>)
    ensures
        (match r {
            Some(p) => spec_decode_exact(bytes@) == Some(p@),
            None => spec_decode_exact(bytes@) is None,
        }),
{
    proof {
        assert(bytes@.skip(0) =~= bytes@);
    }
    match decode_at(bytes, 0) {
        Some((p, j)) => {
            if j == bytes.len() {
                Some(p)
            } else {
                None
            }
        },
        None => None,
    }
}

/// Decodes one message value starting at a byte offset, returning it and the
/// offset just past it.
fn decode_at(bytes: &Vec<u8>, i: usize) -> (r: Option<(Pmt, usize)>)
    requires
        i <= bytes@.len(),
    ensures
        (match r {
            Some((p, j)) => i < j <= bytes@.len()
                && spec_decode(bytes@.skip(i as int)) == Some((p@, j - i)),
            None => spec_decode(bytes@.skip(i as int)) is None,
        }),
    decreases bytes@.len() - i,
{
    let ghost sub = bytes@.skip(i as int);
    let len = bytes.len();
    if len - i < 1 {
        return None;
    }
    let tag = bytes[i];
    proof {
        assert(sub[0] == bytes@[i as int]);
    }
    if tag == 0 {
        Some((Pmt::Null, i + 1))
    } else if tag == 1 {
        Some((Pmt::Okay, i + 1))
    } else if tag == 2 {
        if len - i < 2 {
            return None;
        }
        let pb = bytes[i + 1];
        proof {
            assert(sub[1] == bytes@[i + 1 as int]);
        }
        if pb == 1 {
            Some((Pmt::Bool(true), i + 2))
        } else if pb == 0 {
            Some((Pmt::Bool(false), i + 2))
        } else {
            None
        }
    } else if tag == 3 {
        if len - i < 5 {
            return None;
        }
        let x = read_u32_at(bytes, i + 1);
        proof {
            assert(sub.subrange(1, 5) =~= bytes@.subrange(i + 1 as int, i + 5));
        }
        Some((Pmt::U32(x), i + 5))
    } else if tag == 4 {
        if len - i < 9 {
            return None;
        }
        let x = read_u64_at(bytes, i + 1);
        proof {
            assert(sub.subrange(1, 9) =~= bytes@.subrange(i + 1 as int, i + 9));
        }
        Some((Pmt::U64(x), i + 9))
    } else if tag == 5 {
        if len - i < 5 {
            return None;
        }
        let x = read_u32_at(bytes, i + 1);
        proof {
            assert(sub.subrange(1, 5) =~= bytes@.subrange(i + 1 as int, i + 5));
        }
        Some((Pmt::F32(x), i + 5))
    } else if tag == 6 {
        if len - i < 9 {
            return None;
        }
        let x = read_u64_at(bytes, i + 1);
        proof {
            assert(sub.subrange(1, 9) =~= bytes@.subrange(i + 1 as int, i + 9));
        }
        Some((Pmt::F64(x), i + 9))
    } else if tag == 7 {
        if len - i < 9 {
            return None;
        }
        let n = read_u64_at(bytes, i + 1);
        proof {
            assert(sub.subrange(1, 9) =~= bytes@.subrange(i + 1 as int, i + 9));
        }
        let mut text = String::new();
        let mut cnt: u64 = 0;
        let mut cur: usize = i + 9;
        proof {
            assert(sub.skip(9) =~= bytes@.skip(i + 9));
            assert forall|cs: Seq<char>| #[trigger] (Seq::<char>::empty() + cs) == cs by {
                assert(Seq::<char>::empty() + cs =~= cs);
            }
        }
        while cnt < n
            invariant
                bytes@.len() <= usize::MAX,
                i + 9 <= cur <= bytes@.len(),
                cnt <= n,
                cur == i + 9 + 4 * cnt,
                sub == bytes@.skip(i as int),
                sub.len() >= 9,
                sub[0] == 7,
                n == spec_u64_from_le_bytes(sub.subrange(1, 9)),
                spec_decode_chars(sub.skip(9), n as nat) == (
                match spec_decode_chars(bytes@.skip(cur as int), (n - cnt) as nat) {
                    Some(cs) => Some(text@ + cs),
                    None => None::<Seq<char>>,
                }),
            decreases n - cnt,
        {
            if bytes.len() - cur < 4 {
                proof {
                    assert(bytes@.skip(cur as int).len() < 4);
                    assert(spec_decode_chars(bytes@.skip(cur as int), (n - cnt) as nat)
                        is None);
                    assert(spec_decode_chars(sub.skip(9), n as nat) is None);
                    assert(spec_decode(sub) is None);
                }
                return None;
            }
            let u = read_u32_at(bytes, cur);
            proof {
                assert(bytes@.skip(cur as int).subrange(0, 4)
                    =~= bytes@.subrange(cur as int, cur + 4));
            }
            match char::from_u32(u) {
                None => {
                    proof {
                        assert(!scalar_value(u));
                        assert(spec_decode_chars(bytes@.skip(cur as int), (n - cnt) as nat)
                            is None);
                        assert(spec_decode_chars(sub.skip(9), n as nat) is None);
                        assert(spec_decode(sub) is None);
                    }
                    return None;
                },
                Some(c) => {
                    let ghost told = text@;
                    proof {
                        vstd::utf8::char_u32_cast(c, u);
                        assert(u as char == c);
                        assert(bytes@.skip(cur as int).skip(4) =~= bytes@.skip(cur + 4));
                        assert forall|cs2: Seq<char>| #[trigger] (told + (seq![c] + cs2))
                            == told.push(c) + cs2 by {
                            assert(told + (seq![c] + cs2) =~= told.push(c) + cs2);
                        }
                    }
                    text.push(c);
                    cur = cur + 4;
                    cnt = cnt + 1;
                },
            }
        }
        proof {
            assert(text@ + Seq::<char>::empty() =~= text@);
            assert(spec_decode_chars(sub.skip(9), n as nat) == Some(text@));
        }
        Some((Pmt::Text(text), cur))
    } else if tag == 8 {
        if len - i < 9 {
            return None;
        }
        let n = read_u64_at(bytes, i + 1);
        proof {
            assert(sub.subrange(1, 9) =~= bytes@.subrange(i + 1 as int, i + 9));
        }
        let remaining = len - (i + 9);
        if n > remaining as u64 {
            return None;
        }
        let cnt = n as usize;
        let mut blob: Vec<u8> = Vec::new();
        let mut k: usize = 0;
        while k < cnt
            invariant
                bytes@.len() <= usize::MAX,
                i + 9 + cnt <= bytes@.len(),
                k <= cnt,
                blob@ == bytes@.subrange(i + 9, i + 9 + k),
            decreases cnt - k,
        {
            blob.push(bytes[i + 9 + k]);
            proof {
                assert(blob@ =~= bytes@.subrange(i + 9, i + 9 + k + 1));
            }
            k = k + 1;
        }
        proof {
            assert(sub.subrange(9, 9 + n as int) =~= bytes@.subrange(i + 9, i + 9 + n as int));
        }
        Some((Pmt::Blob(blob), i + 9 + cnt))
    } else if tag == 9 {
        if len - i < 9 {
            return None;
        }
        let x = read_u64_at(bytes, i + 1);
        proof {
            assert(sub.subrange(1, 9) =~= bytes@.subrange(i + 1 as int, i + 9));
        }
        Some((Pmt::Any(x), i + 9))
    } else if tag == 10 {
        if len - i < 9 {
            return None;
        }
        let n = read_u64_at(bytes, i + 1);
        proof {
            assert(sub.subrange(1, 9) =~= bytes@.subrange(i + 1 as int, i + 9));
        }
        let mut items: Vec<Pmt> = Vec::new();
        let mut cnt: u64 = 0;
        let mut cur: usize = i + 9;
        proof {
            assert(sub.skip(9) =~= bytes@.skip(i + 9));
            assert(pmt_views(items@) =~= Seq::<PmtV>::empty());
            assert forall|vs: Seq<PmtV>| #[trigger] (Seq::<PmtV>::empty() + vs) == vs by {
                assert(Seq::<PmtV>::empty() + vs =~= vs);
            }
        }
        while cnt < n
            invariant
                bytes@.len() <= usize::MAX,
                i + 9 <= cur <= bytes@.len(),
                cnt <= n,
                items@.len() == cnt,
                sub == bytes@.skip(i as int),
                sub.len() >= 9,
                sub[0] == 10,
                n == spec_u64_from_le_bytes(sub.subrange(1, 9)),
                spec_decode_seq(sub.skip(9), n as nat) == (
                match spec_decode_seq(bytes@.skip(cur as int), (n - cnt) as nat) {
                    Some((vs, m)) => Some((pmt_views(items@) + vs, (cur - (i + 9)) + m)),
                    None => None::<(Seq<PmtV>, int)>,
                }),
            decreases n - cnt,
        {
            match decode_at(bytes, cur) {
                None => {
                    proof {
                        assert(spec_decode_seq(bytes@.skip(cur as int), (n - cnt) as nat)
                            is None);
                        assert(spec_decode_seq(sub.skip(9), n as nat) is None);
                        assert(spec_decode(sub) is None);
                    }
                    return None;
                },
                Some((p, j)) => {
                    let ghost iold = items@;
                    proof {
                        lemma_decode_bounds(bytes@.skip(cur as int));
                        assert(bytes@.skip(cur as int).skip(j - cur) =~= bytes@.skip(j as int));
                        assert(pmt_views(iold.push(p)) =~= pmt_views(iold).push(pmt_view(p)));
                        assert forall|vs: Seq<PmtV>| #[trigger] (pmt_views(iold)
                            + (seq![pmt_view(p)] + vs))
                            == pmt_views(iold).push(pmt_view(p)) + vs by {
                            assert(pmt_views(iold) + (seq![pmt_view(p)] + vs)
                                =~= pmt_views(iold).push(pmt_view(p)) + vs);
                        }
                    }
                    items.push(p);
                    cur = j;
                    cnt = cnt + 1;
                },
            }
        }
        proof {
            assert(pmt_views(items@) + Seq::<PmtV>::empty() =~= pmt_views(items@));
            assert(spec_decode_seq(sub.skip(9), n as nat)
                == Some((pmt_views(items@), (cur - (i + 9)) as int)));
        }
        Some((Pmt::List(items), cur))
    } else {
        None
    }
}

/// Law: the wire format round-trips.  Decoding the encoding of any
/// well-formed message value yields exactly that value, with the whole
/// encoding consumed.
pub proof fn lemma_pmt_round_trip(v: PmtV)
    requires
        wf_pmt(v),
    ensures
        spec_decode_exact(spec_encode(v)) == Some(v),
{
    lemma_decode_encode(v, Seq::empty());
    assert(spec_encode(v) + Seq::<u8>::empty() =~= spec_encode(v));
}

} // verus!
