//! The polymorphic message type carried by message ports.
//!
//! A `Pmt` is a tagged union of runtime-typed values.  Blocks and external
//! callers exchange `Pmt` values through message ports; the wire format used
//! by the control endpoint is a variant-prefixed byte encoding, defined here
//! together with its decoder.
//!
//! Floating-point payloads are carried as their IEEE 754 bit patterns: the
//! runtime core routes, stores, compares and serializes them, but never does
//! arithmetic on them, so the raw bits are the whole truth about the value.
//! An opaque boxed payload is carried as a numeric handle that the embedding
//! resolves outside the core.

use vstd::prelude::*;

verus! {

broadcast use vstd::std_specs::vec::group_vec_axioms;

/// A dynamically typed message value.
pub enum Pmt {
    /// No value.
    Null,
    /// Positive acknowledgement of a call.
    Okay,
    /// A boolean.
    Bool(bool),
    /// An unsigned 32-bit integer.
    U32(u32),
    /// An unsigned 64-bit integer.
    U64(u64),
    /// A 32-bit IEEE 754 value, carried as its bit pattern.
    F32(u32),
    /// A 64-bit IEEE 754 value, carried as its bit pattern.
    F64(u64),
    /// A character string.
    Text(String),
    /// An uninterpreted byte sequence.
    Blob(Vec<u8>),
    /// A handle to an opaque boxed value kept outside the verified core.
    Any(u64),
    /// An ordered sequence of message values.
    List(Vec<Pmt>),
}

/// The mathematical model of a message value.
pub enum PmtV {
    Null,
    Okay,
    Bool(bool),
    U32(u32),
    U64(u64),
    F32(u32),
    F64(u64),
    Text(Seq<char>),
    Blob(Seq<u8>),
    Any(u64),
    List(Seq<PmtV>),
}

/// The model of a message value: payloads become sequences, lists recurse.
pub open spec fn pmt_view(p: Pmt) -> PmtV
    decreases p,
    via pmt_view_decreases
{
    match p {
        Pmt::Null => PmtV::Null,
        Pmt::Okay => PmtV::Okay,
        Pmt::Bool(b) => PmtV::Bool(b),
        Pmt::U32(x) => PmtV::U32(x),
        Pmt::U64(x) => PmtV::U64(x),
        Pmt::F32(x) => PmtV::F32(x),
        Pmt::F64(x) => PmtV::F64(x),
        Pmt::Text(s) => PmtV::Text(s@),
        Pmt::Blob(b) => PmtV::Blob(b@),
        Pmt::Any(h) => PmtV::Any(h),
        Pmt::List(items) => PmtV::List(pmt_views(items@)),
    }
}

/// The models of a sequence of message values, element by element.
/// The range guard keeps the closure total; only in-range indices are used.
pub open spec fn pmt_views(s: Seq<Pmt>) -> Seq<PmtV>
    decreases s,
{
    Seq::new(
        s.len(),
        |i: int|
            if 0 <= i < s.len() {
                pmt_view(s[i])
            } else {
                PmtV::Null
            },
    )
}

#[via_fn]
proof fn pmt_view_decreases(p: Pmt) {
    if let Pmt::List(items) = p {
        assert(decreases_to!(p => p->List_0));
        assert(p->List_0 == items);
        assert(decreases_to!(items => items@));
    }
}

impl View for Pmt {
    type V = PmtV;

    open spec fn view(&self) -> PmtV {
        pmt_view(*self)
    }
}

/// Compares two message values: tag first, then payload.  Floating-point
/// payloads compare by bit pattern.
pub fn pmt_eq(a: &Pmt, b: &Pmt) -> (r: bool)
    ensures
        r == (a@ == b@),
    decreases *a,
{
    match a {
        Pmt::Null => {
            proof {
                assert(*a == Pmt::Null);
            }
            match b {
                Pmt::Null => {
                    proof {
                        assert(*b == Pmt::Null);
                    }
                    return true;
                },
                _ => {
                    return false;
                },
            }
        },
        Pmt::Okay => {
            proof {
                assert(*a == Pmt::Okay);
            }
            match b {
                Pmt::Okay => {
                    proof {
                        assert(*b == Pmt::Okay);
                    }
                    return true;
                },
                _ => {
                    return false;
                },
            }
        },
        Pmt::Bool(x) => {
            proof {
                assert(*a == Pmt::Bool(*x));
            }
            match b {
                Pmt::Bool(y) => {
                    proof {
                        assert(*b == Pmt::Bool(*y));
                    }
                    return x == y;
                },
                _ => {
                    return false;
                },
            }
        },
        Pmt::U32(x) => {
            proof {
                assert(*a == Pmt::U32(*x));
            }
            match b {
                Pmt::U32(y) => {
                    proof {
                        assert(*b == Pmt::U32(*y));
                    }
                    return x == y;
                },
                _ => {
                    return false;
                },
            }
        },
        Pmt::U64(x) => {
            proof {
                assert(*a == Pmt::U64(*x));
            }
            match b {
                Pmt::U64(y) => {
                    proof {
                        assert(*b == Pmt::U64(*y));
                    }
                    return x == y;
                },
                _ => {
                    return false;
                },
            }
        },
        Pmt::F32(x) => {
            proof {
                assert(*a == Pmt::F32(*x));
            }
            match b {
                Pmt::F32(y) => {
                    proof {
                        assert(*b == Pmt::F32(*y));
                    }
                    return x == y;
                },
                _ => {
                    return false;
                },
            }
        },
        Pmt::F64(x) => {
            proof {
                assert(*a == Pmt::F64(*x));
            }
            match b {
                Pmt::F64(y) => {
                    proof {
                        assert(*b == Pmt::F64(*y));
                    }
                    return x == y;
                },
                _ => {
                    return false;
                },
            }
        },
        Pmt::Any(x) => {
            proof {
                assert(*a == Pmt::Any(*x));
            }
            match b {
                Pmt::Any(y) => {
                    proof {
                        assert(*b == Pmt::Any(*y));
                    }
                    return x == y;
                },
                _ => {
                    return false;
                },
            }
        },
        Pmt::Text(x) => {
            proof {
                assert(*a == Pmt::Text(*x));
            }
            match b {
                Pmt::Text(y) => {
                    proof {
                        assert(*b == Pmt::Text(*y));
                    }
                    return *x == *y;
                },
                _ => {
                    return false;
                },
            }
        },
        Pmt::Blob(x) => {
            proof {
                assert(*a == Pmt::Blob(*x));
            }
            match b {
                Pmt::Blob(y) => {
                    proof {
                        assert(*b == Pmt::Blob(*y));
                    }
                    return bytes_eq(x, y);
                },
                _ => {
                    return false;
                },
            }
        },
        Pmt::List(x) => {
            proof {
                assert(*a == Pmt::List(*x));
            }
            match b {
                Pmt::List(y) => {
                    proof {
                        assert(*b == Pmt::List(*y));
                    }
                    if x.len() != y.len() {
                        proof {
                            assert(pmt_views(x@).len() != pmt_views(y@).len());
                        }
                        false
                    } else {
                        let mut i: usize = 0;
                        let mut same: bool = true;
                        while i < x.len()
                            invariant
                                *a == Pmt::List(*x),
                                *b == Pmt::List(*y),
                                x@.len() == y@.len(),
                                i <= x@.len(),
                                same ==> forall|k: int|
                                    0 <= k < i ==> pmt_views(x@)[k] == pmt_views(y@)[k],
                                !same ==> pmt_views(x@) != pmt_views(y@),
                            decreases x@.len() - i,
                        {
                            proof {
                                assert(decreases_to!(*a => a->List_0));
                                assert(a->List_0 == *x);
                                assert(decreases_to!(*x => x@));
                                assert(decreases_to!(x@ => x@[i as int]));
                            }
                            if !pmt_eq(&x[i], &y[i]) {
                                proof {
                                    assert(pmt_views(x@)[i as int] != pmt_views(y@)[i as int]);
                                }
                                same = false;
                                i = x.len();
                            } else {
                                i = i + 1;
                            }
                        }
                        proof {
                            if same {
                                assert(pmt_views(x@) =~= pmt_views(y@));
                            }
                        }
                        same
                    }
                },
                _ => false,
            }
        },
    }
}

/// Compares two byte vectors element by element.
pub fn bytes_eq(a: &Vec<u8>, b: &Vec<u8>) -> (r: bool)
    ensures
        r == (a@ == b@),
{
    if a.len() != b.len() {
        return false;
    }
    let mut i: usize = 0;
    while i < a.len()
        invariant
            a@.len() == b@.len(),
            i <= a@.len(),
            forall|k: int| 0 <= k < i ==> a@[k] == b@[k],
        decreases a@.len() - i,
    {
        if a[i] != b[i] {
            return false;
        }
        i = i + 1;
    }
    proof {
        assert(a@ =~= b@);
    }
    true
}

impl Clone for Pmt {
    /// Deep copy; the copy models the same value.
    fn clone(&self) -> (r: Pmt)
        ensures
            r@ == self@,
        decreases *self,
    {
        match self {
            Pmt::Null => Pmt::Null,
            Pmt::Okay => Pmt::Okay,
            Pmt::Bool(b) => Pmt::Bool(*b),
            Pmt::U32(x) => Pmt::U32(*x),
            Pmt::U64(x) => Pmt::U64(*x),
            Pmt::F32(x) => Pmt::F32(*x),
            Pmt::F64(x) => Pmt::F64(*x),
            Pmt::Text(s) => Pmt::Text(s.clone()),
            Pmt::Blob(b) => Pmt::Blob(clone_bytes(b)),
            Pmt::Any(h) => Pmt::Any(*h),
            Pmt::List(items) => {
                let mut out: Vec<Pmt> = Vec::new();
                let mut i: usize = 0;
                while i < items.len()
                    invariant
                        *self == Pmt::List(*items),
                        i <= items@.len(),
                        out@.len() == i,
                        forall|k: int|
                            0 <= k < i ==> pmt_views(out@)[k] == pmt_views(items@)[k],
                    decreases items@.len() - i,
                {
                    proof {
                        assert(decreases_to!(*self => self->List_0));
                        assert(self->List_0 == *items);
                        assert(decreases_to!(*items => items@));
                        assert(decreases_to!(items@ => items@[i as int]));
                    }
                    let c = items[i].clone();
                    out.push(c);
                    i = i + 1;
                }
                proof {
                    assert(pmt_views(out@) =~= pmt_views(items@));
                }
                Pmt::List(out)
            },
        }
    }
}

/// Copies a byte vector.
pub fn clone_bytes(a: &Vec<u8>) -> (r: Vec<u8>)
    ensures
        r@ == a@,
{
    let mut out: Vec<u8> = Vec::new();
    let mut i: usize = 0;
    while i < a.len()
        invariant
            i <= a@.len(),
            out@ == a@.take(i as int),
        decreases a@.len() - i,
    {
        out.push(a[i]);
        proof {
            assert(a@.take(i + 1 as int) =~= a@.take(i as int).push(a@[i as int]));
        }
        i = i + 1;
    }
    proof {
        assert(a@.take(a@.len() as int) =~= a@);
    }
    out
}

} // verus!
