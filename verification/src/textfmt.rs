//! Message text for periodic senders.
//!
//! A runtime section of a configuration can ask for a periodic message on a
//! block's port, built from a pattern: each occurrence of `{seq}` in the
//! pattern is replaced by the message's sequence number in decimal.  The
//! embedding runs the timer; the text it sends comes from here.

use vstd::prelude::*;

verus! {

/// The decimal digit character for a value below ten.
pub open spec fn spec_digit(d: u64) -> char {
    ((48 + d) as u8) as char
}

/// The decimal representation of a number, most significant digit first.
pub open spec fn spec_decimal(n: u64) -> Seq<char>
    decreases n,
{
    if n < 10 {
        seq![spec_digit(n)]
    } else {
        spec_decimal(n / 10).push(spec_digit(n % 10))
    }
}

/// The pattern with every `{seq}` replaced by the number in decimal.
pub open spec fn spec_format(p: Seq<char>, n: u64) -> Seq<char>
    decreases p.len(),
{
    if p.len() == 0 {
        Seq::empty()
    } else if p.len() >= 5 && p.subrange(0, 5) == "{seq}"@ {
        spec_decimal(n) + spec_format(p.skip(5), n)
    } else {
        seq![p[0]] + spec_format(p.skip(1), n)
    }
}

/// The decimal digit character for a value below ten.
fn digit(d: u64) -> (c: char)
    requires
        d < 10,
    ensures
        c == spec_digit(d),
{
    (48 + d as u8) as char
}

/// Renders a number in decimal.
pub fn to_decimal(n: u64) -> (s: String)
    ensures
        s@ == spec_decimal(n),
    decreases n,
{
    if n < 10 {
        let mut s = String::new();
        s.push(digit(n));
        proof {
            assert(s@ =~= spec_decimal(n));
        }
        s
    } else {
        let mut s = to_decimal(n / 10);
        s.push(digit(n % 10));
        s
    }
}

/// Builds the text of one periodic message: the pattern with every `{seq}`
/// replaced by the sequence number in decimal.
pub fn format_pattern(pattern: &str, seq_no: u64) -> (s: String)
    ensures
        s@ == spec_format(pattern@, seq_no),
{
    proof {
        reveal_strlit("{seq}");
    }
    let len = pattern.unicode_len();
    let mut out = String::new();
    let mut i: usize = 0;
    proof {
        assert(pattern@.skip(0) =~= pattern@);
        assert(out@ + spec_format(pattern@, seq_no) =~= spec_format(pattern@, seq_no));
    }
    while i < len
        invariant
            len == pattern@.len(),
            i <= len,
            spec_format(pattern@, seq_no) == out@ + spec_format(pattern@.skip(i as int), seq_no),
            "{seq}"@ =~= seq!['{', 's', 'e', 'q', '}'],
        decreases len - i,
    {
        let marker = if len - i >= 5 {
            pattern.get_char(i) == '{' && pattern.get_char(i + 1) == 's' && pattern.get_char(
                i + 2,
            ) == 'e' && pattern.get_char(i + 3) == 'q' && pattern.get_char(i + 4) == '}'
        } else {
            false
        };
        if marker {
            proof {
                assert(pattern@.skip(i as int).subrange(0, 5) =~= "{seq}"@);
                assert(pattern@.skip(i as int).skip(5) =~= pattern@.skip(i + 5));
            }
            let dec = to_decimal(seq_no);
            out.append(dec.as_str());
            i = i + 5;
        } else {
            proof {
                if pattern@.skip(i as int).len() >= 5 {
                    assert(pattern@.skip(i as int).subrange(0, 5) != "{seq}"@);
                }
                assert(pattern@.skip(i as int)[0] == pattern@[i as int]);
                assert(pattern@.skip(i as int).skip(1) =~= pattern@.skip(i + 1));
                assert(out@.push(pattern@[i as int]) =~= out@ + seq![pattern@[i as int]]);
            }
            out.push(pattern.get_char(i));
            i = i + 1;
        }
    }
    proof {
        assert(pattern@.skip(len as int) =~= Seq::<char>::empty());
        assert(out@ + Seq::<char>::empty() =~= out@);
    }
    out
}

} // verus!
