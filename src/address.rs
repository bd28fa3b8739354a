//! Network addresses as plain values, and their text in replies.
use vstd::prelude::*;
use crate::text::{dec_text, num_text, push_dec, push_num};

verus! {

/// An IP address, as the integer that its octets (or groups) spell, most
/// significant first.
#[derive(Clone, Copy, Debug, PartialEq, Eq, Structural)]
pub enum IpAddress {
    V4(u32),
    /// The address, and the scope (interface) id it is reached through, or
    /// 0 for none.
    V6(u128, u32),
}

/// An IP address together with a port.
#[derive(Clone, Copy, Debug, PartialEq, Eq, Structural)]
pub struct SocketAddress {
    pub ip: IpAddress,
    pub port: u16,
}

/// Dotted decimal text of an IPv4 address.
pub open spec fn v4_text(ip: nat) -> Seq<u8> {
    dec_text(ip / 16777216) + seq![46u8] + dec_text((ip / 65536) % 256) + seq![46u8] + dec_text(
        (ip / 256) % 256,
    ) + seq![46u8] + dec_text(ip % 256)
}

/// The `k`-th 16-bit group of an IPv6 address, counted from the most
/// significant.
pub open spec fn v6_group(ip: nat, k: nat) -> nat {
    (ip / group_scale((7 - k) as nat)) % 65536
}

/// `65536` to the power `k`.
pub open spec fn group_scale(k: nat) -> nat
    decreases k,
{
    if k == 0 {
        1
    } else {
        65536 * group_scale((k - 1) as nat)
    }
}

proof fn lemma_group_scale_positive(k: nat)
    ensures
        group_scale(k) > 0,
    decreases k,
{
    if k > 0 {
        lemma_group_scale_positive((k - 1) as nat);
    }
}

/// The eight 16-bit groups of an IPv6 address, most significant first.
pub open spec fn v6_segs(ip: nat) -> Seq<nat> {
    Seq::new(8, |i: int| v6_group(ip, i as nat))
}

/// Groups in lower-case hexadecimal without leading zeros, joined by `:`.
pub open spec fn hex_join(segs: Seq<nat>) -> Seq<u8>
    decreases segs.len(),
{
    if segs.len() == 0 {
        Seq::empty()
    } else if segs.len() == 1 {
        num_text(segs[0], 16)
    } else {
        hex_join(segs.drop_last()) + seq![58u8] + num_text(segs.last(), 16)
    }
}

/// Whether the `l` groups from `s` on are all zero.
pub open spec fn zero_run(segs: Seq<nat>, s: nat, l: nat) -> bool {
    s + l <= segs.len() && forall|k: int| s <= k < s + l ==> segs[k] == 0
}

/// The run of zero groups that the short form replaces by `::`: at least
/// two groups, none longer, and the first of the longest.
pub open spec fn best_zero_run(segs: Seq<nat>, s: nat, l: nat) -> bool {
    &&& l >= 2
    &&& zero_run(segs, s, l)
    &&& forall|s2: nat, l2: nat| #[trigger] zero_run(segs, s2, l2) ==> l2 <= l
    &&& forall|s2: nat| s2 < s ==> !#[trigger] zero_run(segs, s2, l)
}

/// Whether the address is an IPv4 address mapped into IPv6
/// (`::ffff:a.b.c.d`).
pub open spec fn v4_mapped(segs: Seq<nat>) -> bool {
    &&& segs[0] == 0
    &&& segs[1] == 0
    &&& segs[2] == 0
    &&& segs[3] == 0
    &&& segs[4] == 0
    &&& segs[5] == 0xffff
}

/// The standard short text of an IPv6 address (RFC 5952): a mapped IPv4
/// address as `::ffff:a.b.c.d`; otherwise the groups in hexadecimal, the
/// first longest run of two or more zero groups written as `::`.
pub open spec fn v6_text(ip: nat) -> Seq<u8> {
    let segs = v6_segs(ip);
    if v4_mapped(segs) {
        seq![58u8, 58u8, 102u8, 102u8, 102u8, 102u8, 58u8] + v4_text(ip % 4294967296)
    } else if exists|s: nat, l: nat| #[trigger] best_zero_run(segs, s, l) {
        let (s, l) = choose|s: nat, l: nat| best_zero_run(segs, s, l);
        hex_join(segs.subrange(0, s as int)) + seq![58u8, 58u8] + hex_join(
            segs.subrange((s + l) as int, 8),
        )
    } else {
        hex_join(segs)
    }
}

pub open spec fn ip_text(ip: IpAddress) -> Seq<u8> {
    match ip {
        IpAddress::V4(a) => v4_text(a as nat),
        IpAddress::V6(a, scope) => seq![91u8] + v6_text(a as nat) + (if scope == 0 {
            Seq::<u8>::empty()
        } else {
            seq![37u8] + dec_text(scope as nat)
        }) + seq![93u8],
    }
}

/// `ip:port`, with an IPv6 address in its short form and in brackets,
/// followed by `%scope` inside them where it has a scope id.
pub open spec fn addr_text(a: SocketAddress) -> Seq<u8> {
    ip_text(a.ip) + seq![58u8] + dec_text(a.port as nat)
}

impl IpAddress {
    /// Whether `self` and `other` are the same address; what the sending
    /// host is checked by.
    pub fn same_host(&self, other: &IpAddress) -> (r: bool)
        ensures
            r == (*self == *other),
    {
        match (self, other) {
            (IpAddress::V4(a), IpAddress::V4(b)) => *a == *b,
            (IpAddress::V6(a, x), IpAddress::V6(b, y)) => *a == *b && *x == *y,
            _ => false,
        }
    }
}

fn push_v4(out: &mut Vec<u8>, ip: u32)
    ensures
        final(out)@ == old(out)@ + v4_text(ip as nat),
{
    push_dec(out, (ip / 16777216) as u64);
    out.push(46);
    push_dec(out, ((ip / 65536) % 256) as u64);
    out.push(46);
    push_dec(out, ((ip / 256) % 256) as u64);
    out.push(46);
    push_dec(out, (ip % 256) as u64);
    assert(final(out)@ =~= old(out)@ + v4_text(ip as nat));
}

/// Groups as numbers.
pub open spec fn seg_view(segs: Seq<u16>) -> Seq<nat> {
    segs.map_values(|g: u16| g as nat)
}

/// The eight groups of an IPv6 address.
fn v6_segments(ip: u128) -> (r: Vec<u16>)
    ensures
        seg_view(r@) == v6_segs(ip as nat),
{
    let mut r: Vec<u16> = Vec::new();
    let mut k: u32 = 0;
    let mut shift: u128 = 0x1_0000_0000_0000_0000_0000_0000_0000;
    proof {
        reveal_with_fuel(group_scale, 8);
    }
    while k < 8
        invariant
            k <= 8,
            shift > 0,
            k < 8 ==> shift as nat == group_scale((7 - k) as nat),
            r@.len() == k,
            forall|i: int| 0 <= i < k ==> (#[trigger] r@[i]) as nat == v6_group(ip as nat, i as nat),
        decreases 8 - k,
    {
        let g = (ip / shift) % 65536;
        assert(g as nat == v6_group(ip as nat, k as nat));
        r.push(g as u16);
        if k < 7 {
            let prev = shift;
            shift = shift / 65536;
            proof {
                let lower = group_scale((6 - k) as nat);
                lemma_group_scale_positive((6 - k) as nat);
                assert(group_scale((7 - k) as nat) == 65536 * lower);
                assert(shift as nat == lower && shift > 0) by (nonlinear_arith)
                    requires
                        prev as nat == 65536 * lower,
                        shift == prev / 65536,
                        lower > 0,
                ;
            }
        }
        k = k + 1;
    }
    assert(seg_view(r@) =~= v6_segs(ip as nat));
    r
}

/// Whether the `l` groups from `s` on are all zero.
fn has_zero_run(segs: &Vec<u16>, s: usize, l: usize) -> (r: bool)
    requires
        segs@.len() == 8,
        s + l <= 8,
    ensures
        r == zero_run(seg_view(segs@), s as nat, l as nat),
{
    let ghost sv = seg_view(segs@);
    let mut k: usize = s;
    while k < s + l
        invariant
            s <= k <= s + l <= 8,
            segs@.len() == 8,
            sv == seg_view(segs@),
            forall|j: int| s <= j < k ==> sv[j] == 0,
        decreases s + l - k,
    {
        if segs[k] != 0 {
            assert(sv[k as int] != 0);
            return false;
        }
        k = k + 1;
    }
    true
}

proof fn lemma_best_zero_run_unique(segs: Seq<nat>, s: nat, l: nat, s2: nat, l2: nat)
    requires
        best_zero_run(segs, s, l),
        best_zero_run(segs, s2, l2),
    ensures
        s == s2 && l == l2,
{
    assert(zero_run(segs, s2, l2));
    assert(zero_run(segs, s, l));
    assert(l2 <= l && l <= l2);
    if s2 < s {
        assert(!zero_run(segs, s2, l));
    } else if s < s2 {
        assert(!zero_run(segs, s, l2));
    }
}

/// The run of zero groups that the short form replaces, if any.
fn find_zero_run(segs: &Vec<u16>) -> (r: Option<(usize, usize)>)
    requires
        segs@.len() == 8,
    ensures
        match r {
            Some((s, l)) => best_zero_run(seg_view(segs@), s as nat, l as nat),
            None => !exists|s: nat, l: nat|
                #[trigger] best_zero_run(seg_view(segs@), s, l),
        },
{
    let ghost sv = seg_view(segs@);
    let mut l: usize = 8;
    while l >= 2
        invariant
            1 <= l <= 8,
            segs@.len() == 8,
            sv == seg_view(segs@),
            sv.len() == 8,
            forall|s2: nat, l2: nat| l2 > l && #[trigger] zero_run(sv, s2, l2) ==> false,
        decreases l,
    {
        let mut s: usize = 0;
        while s + l <= 8
            invariant
                2 <= l <= 8,
                s <= 8,
                segs@.len() == 8,
                sv == seg_view(segs@),
                sv.len() == 8,
                forall|s2: nat, l2: nat| l2 > l && #[trigger] zero_run(sv, s2, l2) ==> false,
                forall|s2: nat| s2 < s ==> !#[trigger] zero_run(sv, s2, l as nat),
            decreases 8 - s,
        {
            if has_zero_run(segs, s, l) {
                assert forall|s2: nat, l2: nat| #[trigger] zero_run(sv, s2, l2) implies l2 <= l by {
                    if l2 > l {
                        assert(false);
                    }
                }
                return Some((s, l));
            }
            s = s + 1;
        }
        assert forall|s2: nat, l2: nat| l2 > l - 1 && #[trigger] zero_run(sv, s2, l2) implies false by {
            if l2 == l {
                assert(s2 + l <= 8);
                assert(s2 < s);
            }
        }
        l = l - 1;
    }
    assert forall|s: nat, l2: nat| !#[trigger] best_zero_run(sv, s, l2) by {
        if best_zero_run(sv, s, l2) {
            assert(zero_run(sv, s, l2));
        }
    }
    None
}

/// Appends `segs[from..to]` in hexadecimal, joined by `:`.
fn push_hex_join(out: &mut Vec<u8>, segs: &Vec<u16>, from: usize, to: usize)
    requires
        from <= to <= segs@.len(),
    ensures
        final(out)@ == old(out)@ + hex_join(
            seg_view(segs@).subrange(from as int, to as int),
        ),
{
    let ghost sv = seg_view(segs@);
    let ghost start = out@;
    let mut k: usize = from;
    assert(sv.subrange(from as int, from as int) =~= Seq::<nat>::empty());
    while k < to
        invariant
            from <= k <= to <= segs@.len(),
            sv == seg_view(segs@),
            start == old(out)@,
            out@ == start + hex_join(sv.subrange(from as int, k as int)),
        decreases to - k,
    {
        if k > from {
            out.push(58);
        }
        push_num(out, segs[k] as u64, 16);
        proof {
            let next = sv.subrange(from as int, k + 1);
            assert(next.drop_last() =~= sv.subrange(from as int, k as int));
            assert(next.last() == sv[k as int]);
            if k == from {
                assert(next.len() == 1);
                assert(out@ =~= start + hex_join(next));
            } else {
                assert(out@ =~= start + hex_join(next));
            }
        }
        k = k + 1;
    }
}

/// Appends the short text of an IPv6 address.
fn push_v6(out: &mut Vec<u8>, ip: u128)
    ensures
        final(out)@ == old(out)@ + v6_text(ip as nat),
{
    let segs = v6_segments(ip);
    let ghost sv = seg_view(segs@);
    assert(sv.len() == 8);
    if segs[0] == 0 && segs[1] == 0 && segs[2] == 0 && segs[3] == 0 && segs[4] == 0 && segs[5]
        == 0xffff {
        assert(v4_mapped(sv));
        out.push(58);
        out.push(58);
        out.push(102);
        out.push(102);
        out.push(102);
        out.push(102);
        out.push(58);
        push_v4(out, (ip % 4294967296) as u32);
        assert(final(out)@ =~= old(out)@ + v6_text(ip as nat));
        return;
    }
    assert(!v4_mapped(sv));
    match find_zero_run(&segs) {
        Some((s, l)) => {
            proof {
                let pick = choose|s: nat, l: nat| best_zero_run(sv, s, l);
                lemma_best_zero_run_unique(sv, s as nat, l as nat, pick.0, pick.1);
            }
            push_hex_join(out, &segs, 0, s);
            out.push(58);
            out.push(58);
            push_hex_join(out, &segs, s + l, 8);
            assert(final(out)@ =~= old(out)@ + v6_text(ip as nat));
        },
        None => {
            push_hex_join(out, &segs, 0, 8);
            assert(sv.subrange(0, 8) =~= sv);
            assert(final(out)@ =~= old(out)@ + v6_text(ip as nat));
        },
    }
}

impl SocketAddress {
    /// Appends `ip:port`.
    pub fn push_text(&self, out: &mut Vec<u8>)
        ensures
            final(out)@ == old(out)@ + addr_text(*self),
    {
        match self.ip {
            IpAddress::V4(a) => push_v4(out, a),
            IpAddress::V6(a, scope) => {
                out.push(91);
                push_v6(out, a);
                if scope != 0 {
                    out.push(37);
                    push_dec(out, scope as u64);
                }
                out.push(93);
            },
        }
        out.push(58);
        push_dec(out, self.port as u64);
        assert(final(out)@ =~= old(out)@ + addr_text(*self));
    }
}

} // verus!
