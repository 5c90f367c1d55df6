//! IP address literals: a plain-value model of v4 and v6 addresses, with
//! verified text parsing and formatting.

use vstd::prelude::*;

use crate::grammar::{
    find_byte, spec_dec_val, spec_is_digit, spec_split, lemma_split_at_first, lemma_split_nonempty,
    DOT,
};
use crate::types::COLON;
use crate::xtext::{is_hex_digit, spec_hex_val, spec_is_hex_digit};

verus! {

/// An IPv4 address as four octets.
#[derive(Debug, Clone, Copy, PartialEq, Eq)]
pub struct Ipv4Addr {
    pub octets: [u8; 4],
}

/// An IPv6 address as eight 16-bit segments.
#[derive(Debug, Clone, Copy, PartialEq, Eq)]
pub struct Ipv6Addr {
    pub segments: [u16; 8],
}

/// An IP address, v4 or v6.
#[derive(Debug, Clone, Copy, PartialEq, Eq)]
pub enum IpAddr {
    V4(Ipv4Addr),
    V6(Ipv6Addr),
}

/// The mathematical value of an [`IpAddr`]: the octet or segment values.
pub enum IpV {
    V4(Seq<int>),
    V6(Seq<int>),
}

impl View for IpAddr {
    type V = IpV;

    open spec fn view(&self) -> IpV {
        match self {
            IpAddr::V4(a) => IpV::V4(Seq::<int>::new(4, |i: int| a.octets@[i] as int)),
            IpAddr::V6(a) => IpV::V6(Seq::<int>::new(8, |i: int| a.segments@[i] as int)),
        }
    }
}

/// A dotted-quad octet: one to three digits, no leading zero, at most 255.
pub open spec fn spec_octet(s: Seq<u8>) -> bool {
    1 <= s.len() <= 3 && (forall|i: int| 0 <= i < s.len() ==> spec_is_digit(#[trigger] s[i])) && (
    s.len() > 1 ==> s[0] != 0x30) && spec_dec_val(s) <= 255
}

/// A dotted-quad IPv4 literal: four octets joined by dots.
pub open spec fn spec_is_ipv4(s: Seq<u8>) -> bool {
    spec_split(s, DOT).len() == 4 && forall|i: int|
        0 <= i < 4 ==> spec_octet(#[trigger] spec_split(s, DOT)[i])
}

/// The `i`-th octet value of an IPv4 literal.
pub open spec fn spec_ipv4_seg(s: Seq<u8>, i: int) -> int {
    spec_dec_val(spec_split(s, DOT)[i])
}

/// The value of a hex digit string (0 when empty).
pub open spec fn spec_hex_group_val(s: Seq<u8>) -> int
    decreases s.len(),
{
    if s.len() == 0 {
        0
    } else {
        spec_hex_group_val(s.take(s.len() - 1)) * 16 + spec_hex_val(s[s.len() - 1])
    }
}

/// An IPv6 group: one to four hex digits.
pub open spec fn spec_hex_group(s: Seq<u8>) -> bool {
    1 <= s.len() <= 4 && forall|i: int| 0 <= i < s.len() ==> spec_is_hex_digit(#[trigger] s[i])
}

/// Every token of the split on `:` is a valid hex group.
pub open spec fn spec_groups_ok(s: Seq<u8>) -> bool {
    forall|i: int|
        0 <= i < spec_split(s, COLON).len() ==> spec_hex_group(#[trigger] spec_split(s, COLON)[i])
}

/// The group values of a `:`-joined hex group list.
pub open spec fn spec_group_vals(s: Seq<u8>) -> Seq<int> {
    Seq::<int>::new(spec_split(s, COLON).len(), |i: int| spec_hex_group_val(spec_split(s, COLON)[i]))
}

/// The position of the first `::` of `s`.
pub open spec fn spec_find_dcolon(s: Seq<u8>) -> Option<int>
    decreases s.len(),
{
    if s.len() < 2 {
        None
    } else if s[0] == COLON && s[1] == COLON {
        Some(0)
    } else {
        match spec_find_dcolon(s.skip(1)) {
            None => None,
            Some(i) => Some(i + 1),
        }
    }
}

/// The head or tail of a compressed IPv6 literal: empty, or a list of at
/// most seven valid groups.
pub open spec fn spec_ipv6_side_ok(s: Seq<u8>) -> bool {
    s.len() == 0 || spec_groups_ok(s)
}

/// The group count of a head or tail: zero when empty.
pub open spec fn spec_side_count(s: Seq<u8>) -> int {
    if s.len() == 0 {
        0
    } else {
        spec_split(s, COLON).len() as int
    }
}

/// The group values of a head or tail: none when empty.
pub open spec fn spec_side_vals(s: Seq<u8>) -> Seq<int> {
    if s.len() == 0 {
        Seq::<int>::empty()
    } else {
        spec_group_vals(s)
    }
}

/// An IPv6 literal: eight hex groups joined by `:`, or a single `::` that
/// stands for the missing zero groups.
pub open spec fn spec_is_ipv6(s: Seq<u8>) -> bool {
    match spec_find_dcolon(s) {
        None => spec_split(s, COLON).len() == 8 && spec_groups_ok(s),
        Some(q) => {
            let head = s.take(q);
            let tail = s.skip(q + 2);
            spec_ipv6_side_ok(head) && spec_ipv6_side_ok(tail) && spec_side_count(head)
                + spec_side_count(tail) <= 7
        },
    }
}

/// The eight segment values of an IPv6 literal.
pub open spec fn spec_ipv6_segs(s: Seq<u8>) -> Seq<int> {
    match spec_find_dcolon(s) {
        None => spec_group_vals(s),
        Some(q) => {
            let head = s.take(q);
            let tail = s.skip(q + 2);
            spec_side_vals(head) + Seq::<int>::new(
                (8 - spec_side_count(head) - spec_side_count(tail)) as nat,
                |i: int| 0,
            ) + spec_side_vals(tail)
        },
    }
}

/// Parse a dotted-quad octet.
pub(crate) fn parse_octet(g: &[u8]) -> (r: Option<u8>)
    ensures
        match r {
            Some(v) => spec_octet(g@) && v == spec_dec_val(g@),
            None => !spec_octet(g@),
        },
{
    if g.len() < 1 || g.len() > 3 {
        return None;
    }
    if g.len() > 1 && g[0] == 0x30 {
        return None;
    }
    let mut val: u16 = 0;
    let mut i: usize = 0;
    while i < g.len()
        invariant
            0 <= i <= g@.len(),
            g@.len() <= 3,
            val == spec_dec_val(g@.take(i as int)),
            i == 0 ==> val == 0,
            i == 1 ==> val <= 9,
            i == 2 ==> val <= 99,
            i >= 3 ==> val <= 999,
            forall|k: int| 0 <= k < i ==> spec_is_digit(#[trigger] g@[k]),
        decreases g@.len() - i,
    {
        let c = g[i];
        if c < 0x30 || c > 0x39 {
            return None;
        }
        proof {
            assert(g@.take(i + 1).take(i as int) =~= g@.take(i as int));
            assert(g@.take(i + 1)[i as int] == g@[i as int]);
        }
        val = val * 10 + (c - 0x30) as u16;
        i = i + 1;
    }
    proof {
        assert(g@.take(i as int) =~= g@);
    }
    if val > 255 {
        return None;
    }
    Some(val as u8)
}

/// Parse an IPv6 hex group.
pub(crate) fn parse_hex_group(g: &[u8]) -> (r: Option<u16>)
    ensures
        match r {
            Some(v) => spec_hex_group(g@) && v == spec_hex_group_val(g@),
            None => !spec_hex_group(g@),
        },
{
    if g.len() < 1 || g.len() > 4 {
        return None;
    }
    let mut val: u32 = 0;
    let mut i: usize = 0;
    while i < g.len()
        invariant
            0 <= i <= g@.len(),
            g@.len() <= 4,
            val == spec_hex_group_val(g@.take(i as int)),
            i == 0 ==> val == 0,
            i == 1 ==> val <= 0xf,
            i == 2 ==> val <= 0xff,
            i == 3 ==> val <= 0xfff,
            i >= 4 ==> val <= 0xffff,
            forall|k: int| 0 <= k < i ==> spec_is_hex_digit(#[trigger] g@[k]),
        decreases g@.len() - i,
    {
        let c = g[i];
        if !is_hex_digit(c) {
            return None;
        }
        proof {
            assert(g@.take(i + 1).take(i as int) =~= g@.take(i as int));
            assert(g@.take(i + 1)[i as int] == g@[i as int]);
        }
        let d = crate::xtext::decode_hex(c);
        val = val * 16 + d as u32;
        i = i + 1;
    }
    proof {
        assert(g@.take(i as int) =~= g@);
    }
    Some(val as u16)
}

/// Parse a dotted-quad IPv4 literal.
#[verifier::rlimit(50)]
pub fn parse_ipv4(s: &[u8]) -> (r: Option<Ipv4Addr>)
    ensures
        match r {
            Some(ip) => spec_is_ipv4(s@) && forall|i: int|
                0 <= i < 4 ==> ip.octets@[i] == spec_ipv4_seg(s@, i),
            None => !spec_is_ipv4(s@),
        },
{
    let ghost whole = s@;
    let n = s.len();
    // First dot.
    let j1 = match find_byte(s, 0, DOT) {
        Some(j) => j,
        None => {
            proof {
                lemma_split_at_first(whole, DOT, whole.len() as int);
            }
            return None;
        },
    };
    let ghost rest1 = whole.skip(j1 + 1);
    proof {
        lemma_split_at_first(whole, DOT, j1 as int);
        lemma_split_nonempty(rest1, DOT);
    }
    // Second dot.
    let j2 = match find_byte(s, j1 + 1, DOT) {
        Some(j) => j,
        None => {
            proof {
                assert(forall|k: int| 0 <= k < rest1.len() ==> rest1[k] != DOT);
                lemma_split_at_first(rest1, DOT, rest1.len() as int);
            }
            return None;
        },
    };
    let ghost rest2 = whole.skip(j2 + 1);
    proof {
        assert(forall|k: int| 0 <= k < j2 - j1 - 1 ==> rest1[k] != DOT);
        assert(rest1[j2 - j1 - 1] == whole[j2 as int]);
        lemma_split_at_first(rest1, DOT, j2 - j1 - 1);
        assert(rest1.skip(j2 - j1 - 1 + 1) =~= rest2);
        lemma_split_nonempty(rest2, DOT);
    }
    // Third dot.
    let j3 = match find_byte(s, j2 + 1, DOT) {
        Some(j) => j,
        None => {
            proof {
                assert(forall|k: int| 0 <= k < rest2.len() ==> rest2[k] != DOT);
                lemma_split_at_first(rest2, DOT, rest2.len() as int);
            }
            return None;
        },
    };
    let ghost rest3 = whole.skip(j3 + 1);
    proof {
        assert(forall|k: int| 0 <= k < j3 - j2 - 1 ==> rest2[k] != DOT);
        assert(rest2[j3 - j2 - 1] == whole[j3 as int]);
        lemma_split_at_first(rest2, DOT, j3 - j2 - 1);
        assert(rest2.skip(j3 - j2 - 1 + 1) =~= rest3);
        lemma_split_nonempty(rest3, DOT);
    }
    // No fourth dot.
    match find_byte(s, j3 + 1, DOT) {
        Some(j4) => {
            proof {
                assert(rest3[j4 - j3 - 1] == whole[j4 as int]);
                lemma_dot_means_longer(rest3, DOT, j4 - j3 - 1);
            }
            return None;
        },
        None => {},
    };
    proof {
        assert(forall|k: int| 0 <= k < rest3.len() ==> rest3[k] != DOT);
        lemma_split_at_first(rest3, DOT, rest3.len() as int);
        assert(spec_split(whole, DOT) =~~= seq![
            whole.take(j1 as int),
            rest1.take(j2 - j1 - 1),
            rest2.take(j3 - j2 - 1),
            rest3,
        ]);
    }
    let t1 = vstd::slice::slice_subrange(s, 0, j1);
    let t2 = vstd::slice::slice_subrange(s, j1 + 1, j2);
    let t3 = vstd::slice::slice_subrange(s, j2 + 1, j3);
    let t4 = vstd::slice::slice_subrange(s, j3 + 1, n);
    proof {
        assert(t1@ =~= spec_split(whole, DOT)[0]);
        assert(t2@ =~= spec_split(whole, DOT)[1]);
        assert(t3@ =~= spec_split(whole, DOT)[2]);
        assert(t4@ =~= spec_split(whole, DOT)[3]);
    }
    let a = match parse_octet(t1) {
        Some(v) => v,
        None => {
            return None;
        },
    };
    let b = match parse_octet(t2) {
        Some(v) => v,
        None => {
            return None;
        },
    };
    let c = match parse_octet(t3) {
        Some(v) => v,
        None => {
            return None;
        },
    };
    let d = match parse_octet(t4) {
        Some(v) => v,
        None => {
            return None;
        },
    };
    Some(Ipv4Addr { octets: [a, b, c, d] })
}

/// Parse a `:`-joined list of hex groups, yielding their values.
pub(crate) fn parse_groups(s: &[u8]) -> (r: Option<Vec<u16>>)
    ensures
        match r {
            Some(v) => spec_groups_ok(s@) && v@.len() == spec_split(s@, COLON).len() && forall|
                i: int,
            |
                0 <= i < v@.len() ==> #[trigger] v@[i] == spec_group_vals(s@)[i],
            None => !spec_groups_ok(s@),
        },
{
    let ghost whole = s@;
    let mut out: Vec<u16> = Vec::new();
    proof {
        assert(whole.skip(0) =~= whole);
    }
    let mut start: usize = 0;
    loop
        invariant
            0 <= start <= whole.len(),
            s@ == whole,
            spec_split(whole, COLON) =~~= spec_split(whole, COLON).take(out@.len() as int)
                + spec_split(whole.skip(start as int), COLON),
            out@.len() <= spec_split(whole, COLON).len(),
            forall|i: int|
                0 <= i < out@.len() ==> spec_hex_group(#[trigger] spec_split(whole, COLON)[i])
                    && out@[i] == spec_hex_group_val(spec_split(whole, COLON)[i]),
        decreases whole.len() - start,
    {
        let ghost rem = whole.skip(start as int);
        let ghost parts = spec_split(whole, COLON);
        let ghost k = out@.len() as int;
        let end = match find_byte(s, start, COLON) {
            Some(j) => j,
            None => s.len(),
        };
        let token = vstd::slice::slice_subrange(s, start, end);
        let ghost jrel = end - start;
        proof {
            lemma_split_at_first(rem, COLON, jrel);
            assert(token@ =~= rem.take(jrel));
            lemma_split_nonempty(rem, COLON);
            assert(parts[k] == spec_split(rem, COLON)[0]);
        }
        let v = match parse_hex_group(token) {
            Some(v) => v,
            None => {
                proof {
                    if jrel == rem.len() {
                        assert(rem.take(jrel) =~= rem);
                        assert(spec_split(rem, COLON) =~~= seq![token@]);
                    }
                    assert(parts[k] == token@);
                    assert(!spec_hex_group(parts[k]));
                }
                return None;
            },
        };
        out.push(v);
        if end == s.len() {
            proof {
                assert(rem.take(jrel) =~= rem);
                assert(spec_split(rem, COLON) =~~= seq![token@]);
                assert(parts =~~= parts.take(k) + seq![token@]);
                assert(out@.len() == parts.len());
            }
            return Some(out);
        }
        proof {
            assert(rem.skip(jrel + 1) =~= whole.skip(end + 1));
            assert(spec_split(rem, COLON) =~~= seq![token@] + spec_split(
                whole.skip(end + 1),
                COLON,
            ));
            assert(parts =~~= parts.take(k + 1) + spec_split(whole.skip(end + 1), COLON));
        }
        start = end + 1;
    }
}

/// Find the first `::` of `s`, matching `spec_find_dcolon`.
pub(crate) fn find_dcolon(s: &[u8]) -> (r: Option<usize>)
    ensures
        match r {
            Some(j) => spec_find_dcolon(s@) == Some(j as int) && j + 2 <= s@.len(),
            None => spec_find_dcolon(s@) == None::<int>,
        },
{
    if s.len() < 2 {
        return None;
    }
    let mut i: usize = 0;
    while i < s.len() - 1
        invariant
            s@.len() >= 2,
            0 <= i <= s@.len() - 1,
            forall|k: int| 0 <= k < i ==> !(#[trigger] s@[k] == COLON && s@[k + 1] == COLON),
        decreases s@.len() - i,
    {
        if s[i] == COLON && s[i + 1] == COLON {
            proof {
                lemma_dcolon_found(s@, i as int);
            }
            return Some(i);
        }
        i = i + 1;
    }
    proof {
        lemma_dcolon_absent(s@);
    }
    None
}

/// A first adjacent colon pair at `j` is what `spec_find_dcolon` finds.
proof fn lemma_dcolon_found(s: Seq<u8>, j: int)
    requires
        0 <= j < s.len() - 1,
        s[j] == COLON && s[j + 1] == COLON,
        forall|k: int| 0 <= k < j ==> !(#[trigger] s[k] == COLON && s[k + 1] == COLON),
    ensures
        spec_find_dcolon(s) == Some(j),
    decreases j,
{
    if j > 0 {
        lemma_dcolon_found(s.skip(1), j - 1);
    }
}

/// With no adjacent colon pair, `spec_find_dcolon` finds nothing.
proof fn lemma_dcolon_absent(s: Seq<u8>)
    requires
        forall|k: int| 0 <= k < s.len() - 1 ==> !(#[trigger] s[k] == COLON && s[k + 1] == COLON),
    ensures
        spec_find_dcolon(s) == None::<int>,
    decreases s.len(),
{
    if s.len() >= 2 {
        lemma_dcolon_absent(s.skip(1));
    }
}

/// One segment of a compressed IPv6 address: head groups, then zeros, then
/// tail groups.
fn seg_at(headv: &Vec<u16>, tailv: &Vec<u16>, i: usize) -> (r: u16)
    requires
        headv@.len() + tailv@.len() <= 7,
        i < 8,
    ensures
        r as int == (spec_vals_of(headv@) + Seq::<int>::new(
            (8 - headv@.len() - tailv@.len()) as nat,
            |k: int| 0,
        ) + spec_vals_of(tailv@))[i as int],
{
    let h = headv.len();
    let t = tailv.len();
    if i < h {
        headv[i]
    } else if i < 8 - t {
        0
    } else {
        tailv[i - (8 - t)]
    }
}

/// The integer values of a vector of segments.
pub open spec fn spec_vals_of(v: Seq<u16>) -> Seq<int> {
    Seq::<int>::new(v.len(), |i: int| v[i] as int)
}

/// Parse an IPv6 literal, with `::` standing for the missing zero groups.
pub fn parse_ipv6(s: &[u8]) -> (r: Option<Ipv6Addr>)
    ensures
        match r {
            Some(ip) => spec_is_ipv6(s@) && forall|i: int|
                0 <= i < 8 ==> ip.segments@[i] as int == spec_ipv6_segs(s@)[i],
            None => !spec_is_ipv6(s@),
        },
{
    let ghost whole = s@;
    match find_dcolon(s) {
        None => {
            let v = match parse_groups(s) {
                Some(v) => v,
                None => {
                    return None;
                },
            };
            if v.len() != 8 {
                return None;
            }
            let segments = [v[0], v[1], v[2], v[3], v[4], v[5], v[6], v[7]];
            proof {
                assert forall|i: int| 0 <= i < 8 implies segments@[i] as int == spec_ipv6_segs(
                    whole,
                )[i] by {
                    assert(v@[i] == spec_group_vals(whole)[i]);
                }
            }
            Some(Ipv6Addr { segments })
        },
        Some(q) => {
            let n = s.len();
            let head = vstd::slice::slice_subrange(s, 0, q);
            let tail = vstd::slice::slice_subrange(s, q + 2, n);
            proof {
                assert(head@ =~= whole.take(q as int));
                assert(tail@ =~= whole.skip(q + 2));
            }
            let headv: Vec<u16> = if head.len() == 0 {
                Vec::new()
            } else {
                match parse_groups(head) {
                    Some(v) => v,
                    None => {
                        return None;
                    },
                }
            };
            let tailv: Vec<u16> = if tail.len() == 0 {
                Vec::new()
            } else {
                match parse_groups(tail) {
                    Some(v) => v,
                    None => {
                        return None;
                    },
                }
            };
            proof {
                assert(headv@.len() == spec_side_count(whole.take(q as int)));
                assert(tailv@.len() == spec_side_count(whole.skip(q + 2)));
            }
            if headv.len() > 7 || tailv.len() > 7 || headv.len() + tailv.len() > 7 {
                return None;
            }
            let segments = [
                seg_at(&headv, &tailv, 0),
                seg_at(&headv, &tailv, 1),
                seg_at(&headv, &tailv, 2),
                seg_at(&headv, &tailv, 3),
                seg_at(&headv, &tailv, 4),
                seg_at(&headv, &tailv, 5),
                seg_at(&headv, &tailv, 6),
                seg_at(&headv, &tailv, 7),
            ];
            proof {
                let ghost hseq = spec_side_vals(whole.take(q as int));
                let ghost tseq = spec_side_vals(whole.skip(q + 2));
                assert(spec_vals_of(headv@) =~= hseq);
                assert(spec_vals_of(tailv@) =~= tseq);
                assert forall|i: int| 0 <= i < 8 implies segments@[i] as int == spec_ipv6_segs(
                    whole,
                )[i] by {}
            }
            Some(Ipv6Addr { segments })
        },
    }
}

/// A dot strictly inside the remainder means its split has more than one
/// token.
proof fn lemma_dot_means_longer(rem: Seq<u8>, d: u8, k: int)
    requires
        0 <= k < rem.len(),
        rem[k] == d,
    ensures
        spec_split(rem, d).len() >= 2,
    decreases k,
{
    lemma_split_nonempty(rem.skip(1), d);
    if k > 0 {
        if rem[0] != d {
            lemma_dot_means_longer(rem.skip(1), d, k - 1);
        }
    }
}

} // verus!
