//! Small verified helpers on byte slices and vectors.

use vstd::prelude::*;

verus! {

/// Byte-for-byte equality of two slices.
pub fn slice_eq(a: &[u8], b: &[u8]) -> (r: bool)
    ensures
        r == (a@ == b@),
{
    if a.len() != b.len() {
        proof {
            assert(a@.len() != b@.len());
        }
        return false;
    }
    let mut i: usize = 0;
    while i < a.len()
        invariant
            a@.len() == b@.len(),
            i <= a@.len(),
            forall|k: int| 0 <= k < i ==> a@[k] == b@[k],
        decreases a@.len() - i,
    {
        if a[i] != b[i] {
            return false;
        }
        i = i + 1;
    }
    proof {
        assert(a@ =~= b@);
    }
    true
}

/// Append all of `s` to `v`.
pub fn push_all(v: &mut Vec<u8>, s: &[u8])
    ensures
        final(v)@ == old(v)@ + s@,
{
    let mut i: usize = 0;
    while i < s.len()
        invariant
            i <= s@.len(),
            v@ == old(v)@ + s@.take(i as int),
        decreases s@.len() - i,
    {
        v.push(s[i]);
        proof {
            assert(old(v)@ + s@.take(i as int) + seq![s@[i as int]] =~= old(v)@ + s@.take(
                i as int + 1,
            ));
        }
        i = i + 1;
    }
    proof {
        assert(s@.take(s@.len() as int) =~= s@);
    }
}

/// Copy `s[from..to]` into a fresh vector.
pub fn copy_range(s: &[u8], from: usize, to: usize) -> (r: Vec<u8>)
    requires
        from <= to <= s@.len(),
    ensures
        r@ == s@.subrange(from as int, to as int),
{
    let mut r: Vec<u8> = Vec::new();
    let mut i: usize = from;
    while i < to
        invariant
            from <= i <= to <= s@.len(),
            r@ == s@.subrange(from as int, i as int),
        decreases to - i,
    {
        r.push(s[i]);
        proof {
            assert(s@.subrange(from as int, i as int).push(s@[i as int]) =~= s@.subrange(
                from as int,
                i as int + 1,
            ));
        }
        i = i + 1;
    }
    r
}

/// Whether a byte string is valid UTF-8.
///
/// Relies on std::str::from_utf8, which succeeds exactly on the byte
/// strings that vstd's UTF-8 specification accepts.
#[verifier::external_body]
pub fn check_utf8(b: &[u8]) -> (r: bool)
    ensures
        r == vstd::utf8::valid_utf8(b@),
{
    std::str::from_utf8(b).is_ok()
}


/// ASCII lowercase of one byte.
pub open spec fn lower_byte(b: u8) -> u8 {
    if 65 <= b <= 90 {
        (b + 32) as u8
    } else {
        b
    }
}

/// ASCII uppercase of one byte.
pub open spec fn upper_byte(b: u8) -> u8 {
    if 97 <= b <= 122 {
        (b - 32) as u8
    } else {
        b
    }
}

/// ASCII lowercase of a byte string.
pub open spec fn lower_bytes(s: Seq<u8>) -> Seq<u8> {
    Seq::new(s.len(), |i: int| lower_byte(s[i]))
}

/// ASCII uppercase of a byte string.
pub open spec fn upper_bytes(s: Seq<u8>) -> Seq<u8> {
    Seq::new(s.len(), |i: int| upper_byte(s[i]))
}

/// Lowercase `s`, byte for byte (host names are ASCII on the wire).
pub fn to_lower_bytes(s: &[u8]) -> (r: Vec<u8>)
    ensures
        r@ == lower_bytes(s@),
{
    let mut r: Vec<u8> = Vec::new();
    let mut i: usize = 0;
    while i < s.len()
        invariant
            i <= s@.len(),
            r@.len() == i,
            forall|k: int| 0 <= k < i ==> r@[k] == lower_byte(s@[k]),
        decreases s@.len() - i,
    {
        let b = s[i];
        r.push(if 65 <= b && b <= 90 {
            b + 32
        } else {
            b
        });
        i = i + 1;
    }
    proof {
        assert(r@ =~= lower_bytes(s@));
    }
    r
}

/// Uppercase `s`, byte for byte.
pub fn to_upper_bytes(s: &[u8]) -> (r: Vec<u8>)
    ensures
        r@ == upper_bytes(s@),
{
    let mut r: Vec<u8> = Vec::new();
    let mut i: usize = 0;
    while i < s.len()
        invariant
            i <= s@.len(),
            r@.len() == i,
            forall|k: int| 0 <= k < i ==> r@[k] == upper_byte(s@[k]),
        decreases s@.len() - i,
    {
        let b = s[i];
        r.push(if 97 <= b && b <= 122 {
            b - 32
        } else {
            b
        });
        i = i + 1;
    }
    proof {
        assert(r@ =~= upper_bytes(s@));
    }
    r
}

/// Whether `s` ends with `suffix`.
pub open spec fn spec_ends_with(s: Seq<u8>, suffix: Seq<u8>) -> bool {
    s.len() >= suffix.len() && s.subrange(s.len() - suffix.len(), s.len() as int) == suffix
}

/// Byte-for-byte suffix test.
pub fn ends_with(s: &[u8], suffix: &[u8]) -> (r: bool)
    ensures
        r == spec_ends_with(s@, suffix@),
{
    if s.len() < suffix.len() {
        return false;
    }
    let start: usize = s.len() - suffix.len();
    let tail = copy_range(s, start, s.len());
    slice_eq(tail.as_slice(), suffix)
}


/// The byte strings a sequence of byte vectors holds.
pub open spec fn views_of(vs: Seq<Vec<u8>>) -> Seq<Seq<u8>> {
    Seq::new(vs.len(), |i: int| vs[i]@)
}

/// The decimal digits of `n`, most significant first.
pub open spec fn dec_digits(n: nat) -> Seq<u8>
    decreases n,
{
    if n < 10 {
        seq![(48 + n) as u8]
    } else {
        dec_digits(n / 10).push((48 + n % 10) as u8)
    }
}

/// Append the decimal digits of `n` to `v`.
pub fn push_decimal(v: &mut Vec<u8>, n: u64)
    ensures
        final(v)@ == old(v)@ + dec_digits(n as nat),
    decreases n,
{
    if n < 10 {
        v.push(48 + n as u8);
        proof {
            assert(v@ =~= old(v)@ + dec_digits(n as nat));
        }
    } else {
        push_decimal(v, n / 10);
        v.push(48 + (n % 10) as u8);
        proof {
            assert(v@ =~= old(v)@ + dec_digits(n as nat));
        }
    }
}

} // verus!
