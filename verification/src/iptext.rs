//! Textual IP addresses: parsing dotted-quad IPv4 and colon-grouped
//! IPv6 (with one optional `::` run) from bytes.

use vstd::prelude::*;

verus! {

pub open spec fn is_digit(b: u8) -> bool {
    48 <= b <= 57
}

pub open spec fn is_hex_digit(b: u8) -> bool {
    (48 <= b <= 57) || (97 <= b <= 102) || (65 <= b <= 70)
}

pub open spec fn hex_digit_val(b: u8) -> nat {
    if 48 <= b <= 57 {
        (b - 48) as nat
    } else if 97 <= b <= 102 {
        (b - 87) as nat
    } else if 65 <= b <= 70 {
        (b - 55) as nat
    } else {
        0
    }
}

/// The end of the run of decimal digits starting at `pos`.
pub open spec fn digits_end(s: Seq<u8>, pos: int) -> int
    decreases s.len() - pos,
{
    if pos < 0 || pos >= s.len() || !is_digit(s[pos]) {
        pos
    } else {
        digits_end(s, pos + 1)
    }
}

/// The decimal value of `s[pos..end]`.
pub open spec fn digits_val(s: Seq<u8>, pos: int, end: int) -> nat
    decreases end - pos,
{
    if pos >= end {
        0
    } else {
        (digits_val(s, pos, end - 1) * 10 + (if is_digit(s[end - 1]) {
            (s[end - 1] - 48) as nat
        } else {
            0
        })) as nat
    }
}

/// The end of the run of hexadecimal digits starting at `pos`.
pub open spec fn hex_end(s: Seq<u8>, pos: int) -> int
    decreases s.len() - pos,
{
    if pos < 0 || pos >= s.len() || !is_hex_digit(s[pos]) {
        pos
    } else {
        hex_end(s, pos + 1)
    }
}

/// The hexadecimal value of `s[pos..end]`.
pub open spec fn hex_val(s: Seq<u8>, pos: int, end: int) -> nat
    decreases end - pos,
{
    if pos >= end {
        0
    } else {
        (hex_val(s, pos, end - 1) * 16 + hex_digit_val(s[end - 1])) as nat
    }
}

/// `10^n`.
pub open spec fn p10(n: nat) -> nat
    decreases n,
{
    if n == 0 {
        1
    } else {
        10 * p10((n - 1) as nat)
    }
}

/// `16^n`.
pub open spec fn p16(n: nat) -> nat
    decreases n,
{
    if n == 0 {
        1
    } else {
        16 * p16((n - 1) as nat)
    }
}

pub proof fn lemma_digits_val_bound(s: Seq<u8>, pos: int, end: int)
    requires
        pos <= end,
    ensures
        digits_val(s, pos, end) < p10((end - pos) as nat),
    decreases end - pos,
{
    if pos < end {
        lemma_digits_val_bound(s, pos, end - 1);
    }
}

pub proof fn lemma_hex_val_bound(s: Seq<u8>, pos: int, end: int)
    requires
        pos <= end,
    ensures
        hex_val(s, pos, end) < p16((end - pos) as nat),
    decreases end - pos,
{
    if pos < end {
        lemma_hex_val_bound(s, pos, end - 1);
    }
}

/// An address octet: one to three digits, no leading zero unless the
/// octet is exactly `0`, value at most 255. Yields the value and the
/// position after the digits.
pub open spec fn spec_parse_octet(s: Seq<u8>, pos: int) -> Option<(u8, int)> {
    let e = digits_end(s, pos);
    let n = e - pos;
    if n < 1 || n > 3 {
        None
    } else if n > 1 && s[pos] == 48 {
        None
    } else {
        let v = digits_val(s, pos, e);
        if v > 255 {
            None
        } else {
            Some(((v as u8), e))
        }
    }
}

/// A dotted-quad IPv4 address covering all of `s`, as its 32-bit value.
pub open spec fn spec_parse_ipv4(s: Seq<u8>) -> Option<u32> {
    match spec_parse_octet(s, 0) {
        None => None,
        Some((a, p1)) => if p1 >= s.len() || s[p1] != 46 {
            None
        } else {
            match spec_parse_octet(s, p1 + 1) {
                None => None,
                Some((b, p2)) => if p2 >= s.len() || s[p2] != 46 {
                    None
                } else {
                    match spec_parse_octet(s, p2 + 1) {
                        None => None,
                        Some((c, p3)) => if p3 >= s.len() || s[p3] != 46 {
                            None
                        } else {
                            match spec_parse_octet(s, p3 + 1) {
                                None => None,
                                Some((d, p4)) => if p4 != s.len() {
                                    None
                                } else {
                                    Some(
                                        ((a as u32) * 0x100_0000 + (b as u32) * 0x1_0000 + (
                                        c as u32) * 0x100 + (d as u32)) as u32,
                                    )
                                },
                            }
                        },
                    }
                },
            }
        },
    }
}

/// An IPv6 group: one to four hexadecimal digits.
pub open spec fn spec_parse_h16(s: Seq<u8>, pos: int) -> Option<(u16, int)> {
    let e = hex_end(s, pos);
    let n = e - pos;
    if n < 1 || n > 4 {
        None
    } else {
        Some((hex_val(s, pos, e) as u16, e))
    }
}

/// The 128-bit value of the eight groups `front ++ zeros ++ back`.
pub open spec fn groups_val(gs: Seq<u16>) -> nat
    decreases gs.len(),
{
    if gs.len() == 0 {
        0
    } else {
        (groups_val(gs.drop_last()) * 0x1_0000 + gs.last()) as nat
    }
}

/// `65536^n`.
pub open spec fn p65536(n: nat) -> nat
    decreases n,
{
    if n == 0 {
        1
    } else {
        0x1_0000 * p65536((n - 1) as nat)
    }
}

pub proof fn lemma_groups_val_bound(gs: Seq<u16>)
    ensures
        groups_val(gs) < p65536(gs.len()),
    decreases gs.len(),
{
    if gs.len() > 0 {
        lemma_groups_val_bound(gs.drop_last());
    }
}

/// The address whose groups are `front`, then zeros, then `back`.
pub open spec fn assemble6(front: Seq<u16>, back: Seq<u16>) -> u128
    recommends
        front.len() + back.len() <= 8,
{
    groups_val(front + Seq::new((8 - front.len() - back.len()) as nat, |i: int| 0u16) + back) as u128
}

/// Groups before any `::`: `h16 (':' h16)*`, then either the end (a full
/// eight-group address), or `::` and the groups after it.
pub open spec fn spec_v6_before(s: Seq<u8>, pos: int, front: Seq<u16>) -> Option<u128>
    decreases s.len() - pos,
{
    match spec_parse_h16(s, pos) {
        None => None,
        Some((g, e)) => {
            let front2 = front.push(g);
            if e == s.len() {
                if front2.len() == 8 {
                    Some(groups_val(front2) as u128)
                } else {
                    None
                }
            } else if pos < e && e < s.len() && s[e] == 58 {
                if e + 1 < s.len() && s[e + 1] == 58 {
                    spec_v6_after(s, e + 2, front2)
                } else {
                    spec_v6_before(s, e + 1, front2)
                }
            } else {
                None
            }
        },
    }
}

/// Groups after a `::`: possibly none, else `h16 (':' h16)*` to the end.
pub open spec fn spec_v6_after(s: Seq<u8>, pos: int, front: Seq<u16>) -> Option<u128>
    decreases s.len() - pos, 1int,
{
    if pos == s.len() {
        if front.len() <= 7 {
            Some(assemble6(front, Seq::empty()))
        } else {
            None
        }
    } else {
        spec_v6_tail(s, pos, front, Seq::empty())
    }
}

/// The group list after a `::`, accumulated in `back`.
pub open spec fn spec_v6_tail(s: Seq<u8>, pos: int, front: Seq<u16>, back: Seq<u16>) -> Option<
    u128,
>
    decreases s.len() - pos, 0int,
{
    match spec_parse_h16(s, pos) {
        None => None,
        Some((g, e)) => {
            let back2 = back.push(g);
            if e == s.len() {
                if front.len() + back2.len() <= 7 {
                    Some(assemble6(front, back2))
                } else {
                    None
                }
            } else if pos < e && e < s.len() && s[e] == 58 {
                spec_v6_tail(s, e + 1, front, back2)
            } else {
                None
            }
        },
    }
}

/// A colon-grouped IPv6 address covering all of `s`: eight groups, or
/// fewer with one `::` standing for the missing zero groups. The
/// embedded-IPv4 tail form is not recognized.
pub open spec fn spec_parse_ipv6(s: Seq<u8>) -> Option<u128> {
    if s.len() >= 2 && s[0] == 58 && s[1] == 58 {
        spec_v6_after(s, 2, Seq::empty())
    } else {
        spec_v6_before(s, 0, Seq::empty())
    }
}


// ── Executable parsers ──────────────────────────────────────────────

/// The end of the decimal-digit run starting at `pos`.
fn digits_end_x(s: &[u8], pos: usize) -> (r: usize)
    requires
        pos <= s@.len(),
    ensures
        r == digits_end(s@, pos as int),
        pos <= r <= s@.len(),
    decreases s@.len() - pos,
{
    if pos >= s.len() || !(48 <= s[pos] && s[pos] <= 57) {
        pos
    } else {
        digits_end_x(s, pos + 1)
    }
}

/// The end of the hexadecimal-digit run starting at `pos`.
fn hex_end_x(s: &[u8], pos: usize) -> (r: usize)
    requires
        pos <= s@.len(),
    ensures
        r == hex_end(s@, pos as int),
        pos <= r <= s@.len(),
    decreases s@.len() - pos,
{
    if pos >= s.len() {
        return pos;
    }
    let b = s[pos];
    if (48 <= b && b <= 57) || (97 <= b && b <= 102) || (65 <= b && b <= 70) {
        hex_end_x(s, pos + 1)
    } else {
        pos
    }
}

/// Parse an address octet at `pos`.
fn parse_octet_x(s: &[u8], pos: usize) -> (r: Option<(u8, usize)>)
    requires
        pos <= s@.len(),
    ensures
        match r {
            Some(p) => spec_parse_octet(s@, pos as int) == Some((p.0, p.1 as int)) && p.1
                <= s@.len(),
            None => spec_parse_octet(s@, pos as int) is None,
        },
{
    let e = digits_end_x(s, pos);
    let n = e - pos;
    if n < 1 || n > 3 {
        return None;
    }
    if n > 1 && s[pos] == 48 {
        return None;
    }
    let mut v: u32 = 0;
    let mut i: usize = pos;
    while i < e
        invariant
            pos <= i <= e <= s@.len(),
            e - pos <= 3,
            v == digits_val(s@, pos as int, i as int),
            v < p10((i - pos) as nat),
        decreases e - i,
    {
        proof {
            reveal_with_fuel(p10, 5);
            lemma_digits_val_bound(s@, pos as int, i as int);
        }
        let d: u32 = if 48 <= s[i] && s[i] <= 57 {
            (s[i] - 48) as u32
        } else {
            0
        };
        v = v * 10 + d;
        i = i + 1;
    }
    if v > 255 {
        None
    } else {
        Some((v as u8, e))
    }
}

/// Parse a dotted-quad IPv4 address covering all of `s`.
pub fn parse_ipv4(s: &[u8]) -> (r: Option<u32>)
    ensures
        r == spec_parse_ipv4(s@),
{
    let (a, p1) = match parse_octet_x(s, 0) {
        None => {
            return None;
        },
        Some(p) => p,
    };
    if p1 >= s.len() || s[p1] != 46 {
        return None;
    }
    let (b, p2) = match parse_octet_x(s, p1 + 1) {
        None => {
            return None;
        },
        Some(p) => p,
    };
    if p2 >= s.len() || s[p2] != 46 {
        return None;
    }
    let (c, p3) = match parse_octet_x(s, p2 + 1) {
        None => {
            return None;
        },
        Some(p) => p,
    };
    if p3 >= s.len() || s[p3] != 46 {
        return None;
    }
    let (d, p4) = match parse_octet_x(s, p3 + 1) {
        None => {
            return None;
        },
        Some(p) => p,
    };
    if p4 != s.len() {
        return None;
    }
    Some((a as u32) * 0x100_0000 + (b as u32) * 0x1_0000 + (c as u32) * 0x100 + (d as u32))
}

/// Parse an IPv6 group at `pos`.
fn parse_h16_x(s: &[u8], pos: usize) -> (r: Option<(u16, usize)>)
    requires
        pos <= s@.len(),
    ensures
        match r {
            Some(p) => spec_parse_h16(s@, pos as int) == Some((p.0, p.1 as int)) && pos < p.1
                <= s@.len(),
            None => spec_parse_h16(s@, pos as int) is None,
        },
{
    let e = hex_end_x(s, pos);
    let n = e - pos;
    if n < 1 || n > 4 {
        return None;
    }
    let mut v: u32 = 0;
    let mut i: usize = pos;
    while i < e
        invariant
            pos <= i <= e <= s@.len(),
            e - pos <= 4,
            v == hex_val(s@, pos as int, i as int),
            v < p16((i - pos) as nat),
        decreases e - i,
    {
        proof {
            reveal_with_fuel(p16, 6);
            lemma_hex_val_bound(s@, pos as int, i as int);
        }
        let b = s[i];
        let d: u32 = if 48 <= b && b <= 57 {
            (b - 48) as u32
        } else if 97 <= b && b <= 102 {
            (b - 87) as u32
        } else if 65 <= b && b <= 70 {
            (b - 55) as u32
        } else {
            0
        };
        v = v * 16 + d;
        i = i + 1;
    }
    proof {
        reveal_with_fuel(p16, 6);
        lemma_hex_val_bound(s@, pos as int, e as int);
    }
    Some((v as u16, e))
}

/// The 128-bit value of a group vector of at most eight groups.
fn groups_val_x(gs: &Vec<u16>) -> (r: u128)
    requires
        gs@.len() <= 8,
    ensures
        r == groups_val(gs@),
{
    let mut acc: u128 = 0;
    let mut i: usize = 0;
    while i < gs.len()
        invariant
            gs@.len() <= 8,
            i <= gs@.len(),
            acc == groups_val(gs@.take(i as int)),
            acc < p65536(i as nat),
        decreases gs@.len() - i,
    {
        proof {
            reveal_with_fuel(p65536, 9);
            lemma_groups_val_bound(gs@.take(i as int));
            assert(gs@.take(i as int + 1).drop_last() =~= gs@.take(i as int));
        }
        acc = acc * 0x1_0000 + (gs[i] as u128);
        i = i + 1;
    }
    proof {
        assert(gs@.take(gs@.len() as int) =~= gs@);
    }
    acc
}

/// Assemble the address from the groups before and after the `::`.
fn assemble6_x(front: &Vec<u16>, back: &Vec<u16>) -> (r: u128)
    requires
        front@.len() + back@.len() <= 8,
    ensures
        r == assemble6(front@, back@),
{
    let mut gs: Vec<u16> = Vec::new();
    let mut i: usize = 0;
    while i < front.len()
        invariant
            i <= front@.len(),
            gs@ == front@.take(i as int),
        decreases front@.len() - i,
    {
        gs.push(front[i]);
        proof {
            assert(front@.take(i as int).push(front@[i as int]) =~= front@.take(i as int + 1));
        }
        i = i + 1;
    }
    let zeros: usize = 8 - front.len() - back.len();
    let mut z: usize = 0;
    while z < zeros
        invariant
            z <= zeros,
            zeros == 8 - front@.len() - back@.len(),
            gs@ == front@.take(front@.len() as int) + Seq::new(z as nat, |k: int| 0u16),
        decreases zeros - z,
    {
        gs.push(0);
        proof {
            assert((front@.take(front@.len() as int) + Seq::new(z as nat, |k: int| 0u16)).push(0u16)
                =~= front@.take(front@.len() as int) + Seq::new((z + 1) as nat, |k: int| 0u16));
        }
        z = z + 1;
    }
    let mut j: usize = 0;
    while j < back.len()
        invariant
            j <= back@.len(),
            zeros == 8 - front@.len() - back@.len(),
            gs@ == front@.take(front@.len() as int) + Seq::new(zeros as nat, |k: int| 0u16)
                + back@.take(j as int),
        decreases back@.len() - j,
    {
        gs.push(back[j]);
        proof {
            assert((front@.take(front@.len() as int) + Seq::new(zeros as nat, |k: int| 0u16)
                + back@.take(j as int)).push(back@[j as int]) =~= front@.take(front@.len() as int)
                + Seq::new(zeros as nat, |k: int| 0u16) + back@.take(j as int + 1));
        }
        j = j + 1;
    }
    proof {
        assert(front@.take(front@.len() as int) =~= front@);
        assert(back@.take(back@.len() as int) =~= back@);
        assert(gs@ =~= front@ + Seq::new((8 - front@.len() - back@.len()) as nat, |k: int| 0u16)
            + back@);
    }
    groups_val_x(&gs)
}

/// The groups before any `::`.
fn v6_before(s: &[u8], pos: usize, front: &mut Vec<u16>) -> (r: Option<u128>)
    requires
        pos <= s@.len(),
    ensures
        r == spec_v6_before(s@, pos as int, old(front)@),
    decreases s@.len() - pos,
{
    let (g, e) = match parse_h16_x(s, pos) {
        None => {
            return None;
        },
        Some(p) => p,
    };
    front.push(g);
    if e == s.len() {
        if front.len() == 8 {
            proof {
                lemma_groups_val_bound(front@);
                reveal_with_fuel(p65536, 9);
            }
            Some(groups_val_x(front))
        } else {
            None
        }
    } else if s[e] == 58 {
        if e + 1 < s.len() && s[e + 1] == 58 {
            v6_after(s, e + 2, front)
        } else {
            v6_before(s, e + 1, front)
        }
    } else {
        None
    }
}

/// The groups after a `::`.
fn v6_after(s: &[u8], pos: usize, front: &mut Vec<u16>) -> (r: Option<u128>)
    requires
        pos <= s@.len(),
    ensures
        r == spec_v6_after(s@, pos as int, old(front)@),
    decreases s@.len() - pos,
{
    if pos == s.len() {
        if front.len() <= 7 {
            let back: Vec<u16> = Vec::new();
            proof {
                assert(back@ =~= Seq::<u16>::empty());
            }
            Some(assemble6_x(front, &back))
        } else {
            None
        }
    } else {
        let mut back: Vec<u16> = Vec::new();
        v6_tail(s, pos, front, &mut back)
    }
}

/// The group list after a `::`, accumulated in `back`.
fn v6_tail(s: &[u8], pos: usize, front: &Vec<u16>, back: &mut Vec<u16>) -> (r: Option<u128>)
    requires
        pos <= s@.len(),
    ensures
        r == spec_v6_tail(s@, pos as int, front@, old(back)@),
    decreases s@.len() - pos,
{
    let (g, e) = match parse_h16_x(s, pos) {
        None => {
            return None;
        },
        Some(p) => p,
    };
    back.push(g);
    if e == s.len() {
        if front.len() < 8 && back.len() <= 7 - front.len() {
            Some(assemble6_x(front, back))
        } else {
            None
        }
    } else if s[e] == 58 {
        v6_tail(s, e + 1, front, back)
    } else {
        None
    }
}

/// Parse a colon-grouped IPv6 address covering all of `s`. The
/// embedded-IPv4 tail form is not recognized.
pub fn parse_ipv6(s: &[u8]) -> (r: Option<u128>)
    ensures
        r == spec_parse_ipv6(s@),
{
    if s.len() >= 2 && s[0] == 58 && s[1] == 58 {
        let mut front: Vec<u16> = Vec::new();
        proof {
            assert(front@ =~= Seq::<u16>::empty());
        }
        v6_after(s, 2, &mut front)
    } else {
        let mut front: Vec<u16> = Vec::new();
        proof {
            assert(front@ =~= Seq::<u16>::empty());
        }
        v6_before(s, 0, &mut front)
    }
}


/// A whole-slice decimal number of one to nine digits (so the value
/// fits easily in 32 bits); used for CIDR prefix lengths.
pub open spec fn spec_parse_decimal(s: Seq<u8>) -> Option<u32> {
    if s.len() < 1 || s.len() > 9 || digits_end(s, 0) != s.len() {
        None
    } else {
        Some(digits_val(s, 0, s.len() as int) as u32)
    }
}

/// Parse a whole-slice decimal number of one to nine digits.
pub fn parse_decimal(s: &[u8]) -> (r: Option<u32>)
    ensures
        r == spec_parse_decimal(s@),
{
    if s.len() < 1 || s.len() > 9 {
        return None;
    }
    let e = digits_end_x(s, 0);
    if e != s.len() {
        return None;
    }
    let mut v: u32 = 0;
    let mut i: usize = 0;
    while i < s.len()
        invariant
            i <= s@.len(),
            s@.len() <= 9,
            digits_end(s@, 0) == s@.len(),
            v == digits_val(s@, 0, i as int),
            v < p10(i as nat),
        decreases s@.len() - i,
    {
        proof {
            reveal_with_fuel(p10, 11);
            lemma_digits_val_bound(s@, 0, i as int);
        }
        let d: u32 = if 48 <= s[i] && s[i] <= 57 {
            (s[i] - 48) as u32
        } else {
            0
        };
        v = v * 10 + d;
        i = i + 1;
    }
    Some(v)
}

} // verus!
