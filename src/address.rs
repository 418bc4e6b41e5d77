//! IP address literals: the library's own address type and a parser from bytes.
use vstd::prelude::*;

verus! {

/// An IP address: a v4 address as its 32-bit value, a v6 address as its 128-bit value.
#[derive(Clone, Copy, Debug, PartialEq, Eq, Structural)]
pub enum Address {
    V4(u32),
    V6(u128),
}

/// `s` cut at every `sep`; the pieces keep their order and may be empty.
pub open spec fn split(s: Seq<u8>, sep: u8) -> Seq<Seq<u8>>
    decreases s.len(),
{
    if s.len() == 0 {
        seq![Seq::<u8>::empty()]
    } else {
        let p = split(s.drop_last(), sep);
        if s.last() == sep {
            p.push(Seq::<u8>::empty())
        } else {
            p.update(p.len() - 1, p.last().push(s.last()))
        }
    }
}

/// Splits `s` at every `sep`.
pub fn split_on(s: &[u8], sep: u8) -> (r: Vec<Vec<u8>>)
    ensures
        r@.len() == split(s@, sep).len(),
        forall|k: int| 0 <= k < r@.len() ==> #[trigger] r@[k]@ == split(s@, sep)[k],
{
    let mut done: Vec<Vec<u8>> = Vec::new();
    let mut cur: Vec<u8> = Vec::new();
    let mut i: usize = 0;
    assert(s@.take(0) =~= Seq::<u8>::empty());
    assert(split(s@.take(0), sep) =~= done@.map_values(|v: Vec<u8>| v@).push(cur@));
    while i < s.len()
        invariant
            i <= s@.len(),
            split(s@.take(i as int), sep) =~= done@.map_values(|v: Vec<u8>| v@).push(cur@),
        decreases s@.len() - i,
    {
        let b = s[i];
        proof {
            assert(s@.take(i + 1).drop_last() =~= s@.take(i as int));
            assert(s@.take(i + 1).last() == b);
        }
        if b == sep {
            let ghost old_done = done@;
            done.push(cur);
            cur = Vec::new();
            assert(done@.map_values(|v: Vec<u8>| v@) =~= old_done.map_values(|v: Vec<u8>| v@).push(
                done@.last()@,
            ));
        } else {
            cur.push(b);
        }
        i = i + 1;
    }
    assert(s@.take(i as int) =~= s@);
    let ghost before = done@;
    done.push(cur);
    assert(done@.map_values(|v: Vec<u8>| v@) =~= before.map_values(|v: Vec<u8>| v@).push(
        done@.last()@,
    ));
    done
}

pub open spec fn is_digit(b: u8) -> bool {
    48 <= b <= 57
}

/// The value of a string of decimal digits.
pub open spec fn dec_value(s: Seq<u8>) -> int
    decreases s.len(),
{
    if s.len() == 0 {
        0
    } else {
        dec_value(s.drop_last()) * 10 + (s.last() - 48)
    }
}

/// One part of a dotted-quad: one to three digits, no leading zero, at most 255.
pub open spec fn octet_ok(p: Seq<u8>) -> bool {
    &&& 1 <= p.len() <= 3
    &&& forall|j: int| 0 <= j < p.len() ==> is_digit(#[trigger] p[j])
    &&& (p.len() == 1 || p[0] != 48u8)
    &&& dec_value(p) <= 255
}

/// The IPv4 address that `s` spells as a dotted quad, if it spells one.
pub open spec fn v4_of(s: Seq<u8>) -> Option<u32> {
    let ps = split(s, 46u8);
    if ps.len() == 4 && forall|k: int| 0 <= k < 4 ==> octet_ok(#[trigger] ps[k]) {
        Some(
            (dec_value(ps[0]) * 16777216 + dec_value(ps[1]) * 65536 + dec_value(ps[2]) * 256
                + dec_value(ps[3])) as u32,
        )
    } else {
        None
    }
}

fn parse_octet(p: &Vec<u8>) -> (r: Option<u32>)
    ensures
        r == (if octet_ok(p@) {
            Some(dec_value(p@) as u32)
        } else {
            None
        }),
        r is Some ==> r->0 <= 255 && r->0 as int == dec_value(p@),
{
    if p.len() == 0 || p.len() > 3 || (p.len() > 1 && p[0] == 48u8) {
        return None;
    }
    let mut v: u32 = 0;
    let mut i: usize = 0;
    assert(p@.take(0) =~= Seq::<u8>::empty());
    while i < p.len()
        invariant
            1 <= p@.len() <= 3,
            i <= p@.len(),
            v as int == dec_value(p@.take(i as int)),
            i == 0 ==> v == 0,
            i == 1 ==> v < 10,
            i == 2 ==> v < 100,
            i == 3 ==> v < 1000,
            forall|j: int| 0 <= j < i ==> is_digit(#[trigger] p@[j]),
        decreases p@.len() - i,
    {
        let b = p[i];
        if b < 48 || b > 57 {
            return None;
        }
        assert(p@.take(i + 1).drop_last() =~= p@.take(i as int));
        v = v * 10 + (b - 48) as u32;
        i = i + 1;
    }
    assert(p@.take(i as int) =~= p@);
    if v > 255 {
        None
    } else {
        Some(v)
    }
}

/// Parses a dotted-quad IPv4 literal.
pub fn parse_v4(s: &[u8]) -> (r: Option<u32>)
    ensures
        r == v4_of(s@),
{
    let ps = split_on(s, 46u8);
    if ps.len() != 4 {
        return None;
    }
    proof {
        let sp = split(s@, 46u8);
        assert(ps@[0]@ == sp[0] && ps@[1]@ == sp[1] && ps@[2]@ == sp[2] && ps@[3]@ == sp[3]);
    }
    let a = match parse_octet(&ps[0]) {
        Some(x) => x,
        None => return None,
    };
    let b = match parse_octet(&ps[1]) {
        Some(x) => x,
        None => return None,
    };
    let c = match parse_octet(&ps[2]) {
        Some(x) => x,
        None => return None,
    };
    let d = match parse_octet(&ps[3]) {
        Some(x) => x,
        None => return None,
    };
    assert(forall|k: int| 0 <= k < 4 ==> octet_ok(#[trigger] split(s@, 46u8)[k])) by {
        assert forall|k: int| 0 <= k < 4 implies octet_ok(#[trigger] split(s@, 46u8)[k]) by {
            assert(ps@[k]@ == split(s@, 46u8)[k]);
        }
    }
    Some(a * 16777216 + b * 65536 + c * 256 + d)
}


pub open spec fn is_hex(b: u8) -> bool {
    is_digit(b) || (97 <= b <= 102) || (65 <= b <= 70)
}

pub open spec fn hex_digit(b: u8) -> int {
    if is_digit(b) {
        b - 48
    } else if 97 <= b <= 102 {
        b - 87
    } else {
        b - 55
    }
}

/// The value of a string of hexadecimal digits.
pub open spec fn hex_value(s: Seq<u8>) -> int
    decreases s.len(),
{
    if s.len() == 0 {
        0
    } else {
        hex_value(s.drop_last()) * 16 + hex_digit(s.last())
    }
}

/// One group of a v6 literal: one to four hexadecimal digits.
pub open spec fn hextet_ok(p: Seq<u8>) -> bool {
    &&& 1 <= p.len() <= 4
    &&& forall|j: int| 0 <= j < p.len() ==> is_hex(#[trigger] p[j])
}

/// The groups that one side of a `::` spells (the empty text spells none). The
/// last piece may be a dotted quad, which spells two groups, where `quad_ok`.
pub open spec fn groups_of(s: Seq<u8>, quad_ok: bool) -> Option<Seq<u16>> {
    let ps = split(s, 58u8);
    let n = ps.len();
    let front = ps.take(n - 1).map_values(|p: Seq<u8>| hex_value(p) as u16);
    if s.len() == 0 {
        Some(Seq::<u16>::empty())
    } else if n >= 1 && forall|k: int| 0 <= k < n - 1 ==> hextet_ok(#[trigger] ps[k]) {
        if hextet_ok(ps[n - 1]) {
            Some(front.push(hex_value(ps[n - 1]) as u16))
        } else if quad_ok && v4_of(ps[n - 1]) is Some {
            let a = v4_of(ps[n - 1])->0;
            Some(front.push((a / 65536) as u16).push((a % 65536) as u16))
        } else {
            None
        }
    } else {
        None
    }
}

/// The position of the first `::` at or after `i`, or -1.
pub open spec fn double_colon_from(s: Seq<u8>, i: int) -> int
    decreases s.len() - i,
{
    if i < 0 || i + 1 >= s.len() {
        -1
    } else if s[i] == 58u8 && s[i + 1] == 58u8 {
        i
    } else {
        double_colon_from(s, i + 1)
    }
}

/// The 128-bit value of a sequence of 16-bit groups, most significant first.
pub open spec fn groups_value(g: Seq<u16>) -> int
    decreases g.len(),
{
    if g.len() == 0 {
        0
    } else {
        groups_value(g.drop_last()) * 65536 + g.last()
    }
}

/// The eight groups of a v6 literal: either eight groups written out, or the
/// groups on each side of the first `::` with at least one zero group between.
/// A dotted quad may stand for the last two groups, but not just before the `::`.
pub open spec fn v6_groups(s: Seq<u8>) -> Option<Seq<u16>> {
    let i = double_colon_from(s, 0);
    if i < 0 {
        match groups_of(s, true) {
            Some(g) => if g.len() == 8 {
                Some(g)
            } else {
                None
            },
            None => None,
        }
    } else {
        match (groups_of(s.take(i), false), groups_of(s.skip(i + 2), true)) {
            (Some(h), Some(t)) => if h.len() + t.len() <= 7 {
                Some(h + Seq::new((8 - h.len() - t.len()) as nat, |k: int| 0u16) + t)
            } else {
                None
            },
            _ => None,
        }
    }
}

/// The IPv6 address that `s` spells in colon-hexadecimal form, if it spells one.
pub open spec fn v6_of(s: Seq<u8>) -> Option<u128> {
    match v6_groups(s) {
        Some(g) => Some(groups_value(g) as u128),
        None => None,
    }
}

fn parse_hextet(p: &Vec<u8>) -> (r: Option<u16>)
    ensures
        r is Some <==> hextet_ok(p@),
        r is Some ==> r->0 as int == hex_value(p@),
{
    if p.len() == 0 || p.len() > 4 {
        return None;
    }
    let mut v: u32 = 0;
    let mut i: usize = 0;
    assert(p@.take(0) =~= Seq::<u8>::empty());
    while i < p.len()
        invariant
            1 <= p@.len() <= 4,
            i <= p@.len(),
            v as int == hex_value(p@.take(i as int)),
            i == 0 ==> v == 0,
            i == 1 ==> v < 16,
            i == 2 ==> v < 256,
            i == 3 ==> v < 4096,
            i == 4 ==> v < 65536,
            forall|j: int| 0 <= j < i ==> is_hex(#[trigger] p@[j]),
        decreases p@.len() - i,
    {
        let b = p[i];
        let d: u32 = if 48 <= b && b <= 57 {
            (b - 48) as u32
        } else if 97 <= b && b <= 102 {
            (b - 87) as u32
        } else if 65 <= b && b <= 70 {
            (b - 55) as u32
        } else {
            return None;
        };
        assert(p@.take(i + 1).drop_last() =~= p@.take(i as int));
        v = v * 16 + d;
        i = i + 1;
    }
    assert(p@.take(i as int) =~= p@);
    Some(v as u16)
}

/// Parses the groups on one side of a `::`.
fn parse_groups(s: &[u8], quad_ok: bool) -> (r: Option<Vec<u16>>)
    ensures
        match r {
            Some(g) => groups_of(s@, quad_ok) == Some(g@),
            None => groups_of(s@, quad_ok) is None,
        },
{
    let mut out: Vec<u16> = Vec::new();
    if s.len() == 0 {
        assert(out@ =~= Seq::<u16>::empty());
        return Some(out);
    }
    let ps = split_on(s, 58u8);
    let ghost sp = split(s@, 58u8);
    if ps.len() == 0 {
        return None;
    }
    let last = ps.len() - 1;
    let mut k: usize = 0;
    while k < last
        invariant
            s@.len() > 0,
            sp == split(s@, 58u8),
            ps@.len() == sp.len(),
            last == ps@.len() - 1,
            forall|m: int| 0 <= m < ps@.len() ==> #[trigger] ps@[m]@ == sp[m],
            k <= last,
            out@.len() == k,
            forall|m: int| 0 <= m < k ==> hextet_ok(#[trigger] sp[m]),
            forall|m: int| 0 <= m < k ==> #[trigger] out@[m] == hex_value(sp[m]) as u16,
        decreases last - k,
    {
        assert(ps@[k as int]@ == sp[k as int]);
        match parse_hextet(&ps[k]) {
            Some(x) => {
                out.push(x);
            },
            None => {
                assert(!hextet_ok(sp[k as int]));
                return None;
            },
        }
        k = k + 1;
    }
    assert(out@ =~= sp.take(last as int).map_values(|p: Seq<u8>| hex_value(p) as u16));
    assert(ps@[last as int]@ == sp[last as int]);
    match parse_hextet(&ps[last]) {
        Some(x) => {
            out.push(x);
            Some(out)
        },
        None => {
            if !quad_ok {
                return None;
            }
            match parse_v4(ps[last].as_slice()) {
                Some(a) => {
                    out.push((a / 65536) as u16);
                    out.push((a % 65536) as u16);
                    Some(out)
                },
                None => None,
            }
        },
    }
}

/// The value of at most eight groups, most significant first.
fn combine_groups(g: &Vec<u16>) -> (r: u128)
    requires
        g@.len() <= 8,
    ensures
        r as int == groups_value(g@),
{
    let mut v: u128 = 0;
    let mut i: usize = 0;
    assert(g@.take(0) =~= Seq::<u16>::empty());
    while i < g.len()
        invariant
            g@.len() <= 8,
            i <= g@.len(),
            v as int == groups_value(g@.take(i as int)),
            v < pow16(i as nat),
        decreases g@.len() - i,
    {
        let x = g[i];
        assert(g@.take(i + 1).drop_last() =~= g@.take(i as int));
        proof {
            lemma_pow16_bound(i as nat);
            let b = pow16(i as nat);
            assert(v * 65536 + x < b * 65536) by (nonlinear_arith)
                requires
                    v < b,
                    x < 65536,
            ;
        }
        v = v * 65536 + x as u128;
        i = i + 1;
    }
    assert(g@.take(i as int) =~= g@);
    v
}

/// 65536 to the power `n`.
pub open spec fn pow16(n: nat) -> int
    decreases n,
{
    if n == 0 {
        1
    } else {
        65536 * pow16((n - 1) as nat)
    }
}

proof fn lemma_pow16_bound(n: nat)
    requires
        n < 8,
    ensures
        pow16(n) * 65536 <= 0x1_0000_0000_0000_0000_0000_0000_0000_0000,
        pow16(n + 1) == pow16(n) * 65536,
{
    reveal_with_fuel(pow16, 9);
}

/// The position of the first `::` in `s`, if there is one.
fn find_double_colon(s: &[u8]) -> (r: Option<usize>)
    ensures
        match r {
            Some(i) => double_colon_from(s@, 0) == i as int && i + 1 < s@.len(),
            None => double_colon_from(s@, 0) == -1,
        },
{
    if s.len() < 2 {
        return None;
    }
    let mut i: usize = 0;
    while i < s.len() - 1
        invariant
            s@.len() >= 2,
            i <= s@.len(),
            double_colon_from(s@, 0) == double_colon_from(s@, i as int),
        decreases s@.len() - i,
    {
        if s[i] == 58u8 && s[i + 1] == 58u8 {
            return Some(i);
        }
        i = i + 1;
    }
    None
}

pub(crate) fn copy_range(s: &[u8], lo: usize, hi: usize) -> (r: Vec<u8>)
    requires
        lo <= hi <= s@.len(),
    ensures
        r@ == s@.subrange(lo as int, hi as int),
{
    let mut r: Vec<u8> = Vec::new();
    let mut i: usize = lo;
    while i < hi
        invariant
            lo <= i <= hi <= s@.len(),
            r@ =~= s@.subrange(lo as int, i as int),
        decreases hi - i,
    {
        r.push(s[i]);
        i = i + 1;
    }
    r
}

/// Parses an IPv6 literal in colon-hexadecimal form.
pub fn parse_v6(s: &[u8]) -> (r: Option<u128>)
    ensures
        r == v6_of(s@),
{
    match find_double_colon(s) {
        None => {
            match parse_groups(s, true) {
                Some(g) => {
                    if g.len() == 8 {
                        Some(combine_groups(&g))
                    } else {
                        None
                    }
                },
                None => None,
            }
        },
        Some(i) => {
            let head = copy_range(s, 0, i);
            let n = s.len();
            let tail = copy_range(s, i + 2, n);
            assert(head@ =~= s@.take(i as int));
            assert(tail@ =~= s@.skip(i + 2));
            let h = match parse_groups(head.as_slice(), false) {
                Some(h) => h,
                None => return None,
            };
            let t = match parse_groups(tail.as_slice(), true) {
                Some(t) => t,
                None => return None,
            };
            if h.len() > 7 || t.len() > 7 - h.len() {
                return None;
            }
            let mut g: Vec<u16> = Vec::new();
            let mut k: usize = 0;
            while k < h.len()
                invariant
                    k <= h@.len(),
                    g@ =~= h@.take(k as int),
                decreases h@.len() - k,
            {
                g.push(h[k]);
                k = k + 1;
            }
            let zeros: usize = 8 - h.len() - t.len();
            let mut k: usize = 0;
            while k < zeros
                invariant
                    k <= zeros,
                    g@ =~= h@ + Seq::new(k as nat, |m: int| 0u16),
                decreases zeros - k,
            {
                g.push(0u16);
                k = k + 1;
            }
            let mut k: usize = 0;
            while k < t.len()
                invariant
                    k <= t@.len(),
                    g@ =~= h@ + Seq::new(zeros as nat, |m: int| 0u16) + t@.take(k as int),
                decreases t@.len() - k,
            {
                g.push(t[k]);
                k = k + 1;
            }
            assert(t@.take(t@.len() as int) =~= t@);
            Some(combine_groups(&g))
        },
    }
}

/// Bytes stripped from both ends of a plain reply: ASCII whitespace and quotes.
pub open spec fn is_trim_byte(b: u8) -> bool {
    b == 32u8 || b == 9u8 || b == 10u8 || b == 11u8 || b == 12u8 || b == 13u8 || b == 34u8
        || b == 39u8
}

/// `s` without the trim bytes at its start and at its end.
pub open spec fn trimmed(s: Seq<u8>) -> Seq<u8>
    decreases s.len(),
{
    if s.len() > 0 && is_trim_byte(s[0]) {
        trimmed(s.drop_first())
    } else if s.len() > 0 && is_trim_byte(s.last()) {
        trimmed(s.drop_last())
    } else {
        s
    }
}

/// Strips whitespace and quotes from both ends of `s`.
pub fn trim(s: &[u8]) -> (r: Vec<u8>)
    ensures
        r@ == trimmed(s@),
{
    let n = s.len();
    let mut lo: usize = 0;
    assert(s@.subrange(0, n as int) =~= s@);
    while lo < n && is_trim(s[lo])
        invariant
            n == s@.len(),
            lo <= n,
            trimmed(s@) == trimmed(s@.subrange(lo as int, n as int)),
        decreases n - lo,
    {
        assert(s@.subrange(lo as int, n as int).drop_first() =~= s@.subrange(lo + 1, n as int));
        lo = lo + 1;
    }
    let mut hi: usize = n;
    while hi > lo && is_trim(s[hi - 1])
        invariant
            n == s@.len(),
            lo <= hi <= n,
            lo < hi ==> !is_trim_byte(s@[lo as int]),
            trimmed(s@) == trimmed(s@.subrange(lo as int, hi as int)),
        decreases hi - lo,
    {
        assert(s@.subrange(lo as int, hi as int).drop_last() =~= s@.subrange(lo as int, hi - 1));
        hi = hi - 1;
    }
    copy_range(s, lo, hi)
}

fn is_trim(b: u8) -> (r: bool)
    ensures
        r == is_trim_byte(b),
{
    b == 32u8 || b == 9u8 || b == 10u8 || b == 11u8 || b == 12u8 || b == 13u8 || b == 34u8
        || b == 39u8
}

/// The address that `s` spells: a dotted quad is a v4 address, else a
/// colon-hexadecimal literal is a v6 address.
pub open spec fn address_of(s: Seq<u8>) -> Option<Address> {
    match v4_of(s) {
        Some(a) => Some(Address::V4(a)),
        None => match v6_of(s) {
            Some(a) => Some(Address::V6(a)),
            None => None,
        },
    }
}

/// Parses an IP address literal; the family follows from its syntax.
pub fn parse_address(s: &[u8]) -> (r: Option<Address>)
    ensures
        r == address_of(s@),
{
    match parse_v4(s) {
        Some(a) => Some(Address::V4(a)),
        None => match parse_v6(s) {
            Some(a) => Some(Address::V6(a)),
            None => None,
        },
    }
}

} // verus!
