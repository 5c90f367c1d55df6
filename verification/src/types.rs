//! Opaque newtypes wrapping validated byte slices: each value carries its
//! grammar as an invariant established at construction.

use vstd::prelude::*;

use crate::bytebuf::{bytes_as_slice, bytes_len, bytes_new, bytes_slice, bytes_view};
use crate::error::Error;
use crate::grammar::{
    find_byte, is_domain, is_local_part, rfind_byte, spec_is_alnum, spec_is_domain,
    spec_is_local_part, spec_is_subdomain, spec_split, lemma_split_at_first, DOT,
};
use crate::max;

verus! {

/// `@`, the separator of an email address.
pub const AT: u8 = 0x40;

/// `:`, the separator inside an address literal.
pub const COLON: u8 = 0x3a;

/// `[`, opening an address literal.
pub const BRACKET_OPEN: u8 = 0x5b;

/// `]`, closing an address literal.
pub const BRACKET_CLOSE: u8 = 0x5d;

/// The bytes `IPv6`, the reserved address-literal tag.
pub open spec fn spec_ipv6_tag() -> Seq<u8> {
    seq![0x49u8, 0x50u8, 0x76u8, 0x36u8]
}

/// A sequence of base64 alphabet bytes (not validated bit-exact).
pub open spec fn spec_is_base64(s: Seq<u8>) -> bool {
    forall|i: int|
        0 <= i < s.len() ==> spec_is_alnum(#[trigger] s[i]) || s[i] == 0x2b || s[i] == 0x2f || s[i]
            == 0x3d
}

/// `j` is the position of the last `@` of `s`.
pub open spec fn spec_last_at(s: Seq<u8>, j: int) -> bool {
    0 <= j < s.len() && s[j] == AT && forall|k: int| j < k < s.len() ==> s[k] != AT
}

/// The split of an email at `j` meets every length and grammar bound: the
/// local part before, the domain after, and the RFC 5321 ceilings.
pub open spec fn spec_email_split_ok(s: Seq<u8>, j: int) -> bool {
    spec_last_at(s, j) && j <= max::LOCAL_PART && spec_is_local_part(s.take(j)) && s.len() - j - 1
        <= max::DOMAIN && spec_is_domain(s.skip(j + 1)) && s.len() <= max::EMAIL
}

/// A valid email address: `<local-part>@<domain>` within the length
/// ceilings, split at the last `@`.
pub open spec fn spec_is_email(s: Seq<u8>) -> bool {
    exists|j: int| spec_email_split_ok(s, j)
}

/// The canonical stored form of a domain: one lone trailing dot is dropped.
pub open spec fn spec_domain_canon(s: Seq<u8>) -> Seq<u8> {
    if s.len() > 0 && s[s.len() - 1] == DOT {
        s.take(s.len() - 1)
    } else {
        s
    }
}

/// `j` is the position of the first `:` of `inner`.
pub open spec fn spec_first_colon(inner: Seq<u8>, j: int) -> bool {
    0 <= j < inner.len() && inner[j] == COLON && forall|k: int| 0 <= k < j ==> inner[k] != COLON
}

/// A valid address literal: `[tag:content]` with a non-empty tag other than
/// `IPv6`.
pub open spec fn spec_is_address(s: Seq<u8>) -> bool {
    s.len() >= 2 && s[0] == BRACKET_OPEN && s[s.len() - 1] == BRACKET_CLOSE && exists|j: int|
        #[trigger] spec_first_colon(s.subrange(1, s.len() - 1), j) && j > 0 && s.subrange(
            1,
            s.len() - 1,
        ).take(j) != spec_ipv6_tag()
}

/// Base64-encoded bytes, carried opaquely.
#[derive(Debug)]
pub struct Base64(bytes::Bytes);

impl View for Base64 {
    type V = Seq<u8>;

    closed spec fn view(&self) -> Seq<u8> {
        bytes_view(self.0)
    }
}

impl Base64 {
    /// The bytes are drawn from the base64 alphabet.
    pub open spec fn wf(&self) -> bool {
        spec_is_base64(self@)
    }

    /// Consume the `Base64`, returning the inner bytes.
    pub fn into_bytes(self) -> (r: bytes::Bytes)
        ensures
            bytes_view(r) == self@,
    {
        self.0
    }

    /// A reference to the inner bytes.
    pub fn bytes(&self) -> (r: &bytes::Bytes)
        ensures
            bytes_view(*r) == self@,
    {
        &self.0
    }

    /// Wrap bytes without validating.  The caller owes the base64 alphabet.
    pub fn new_unchecked(bytes: bytes::Bytes) -> (r: Base64)
        requires
            spec_is_base64(bytes_view(bytes)),
        ensures
            r@ == bytes_view(bytes),
            r.wf(),
    {
        Base64(bytes)
    }
}

/// A domain name, validated at construction.
#[derive(Debug)]
pub struct Domain(bytes::Bytes);

impl View for Domain {
    type V = Seq<u8>;

    closed spec fn view(&self) -> Seq<u8> {
        bytes_view(self.0)
    }
}

impl Domain {
    /// The bytes are a valid domain.
    pub open spec fn wf(&self) -> bool {
        spec_is_domain(self@)
    }

    /// Validate `input` as a domain.  A lone trailing dot is accepted and
    /// dropped from the stored bytes.
    pub fn parse(input: bytes::Bytes) -> (r: Result<Domain, Error>)
        ensures
            match r {
                Ok(d) => spec_is_domain(bytes_view(input)) && d@ == spec_domain_canon(
                    bytes_view(input),
                ) && d.wf(),
                Err(e) => !spec_is_domain(bytes_view(input)) && e == Error::InvalidSyntax,
            },
    {
        let s = bytes_as_slice(&input);
        let ghost whole = bytes_view(input);
        if is_domain(s) {
            // A trailing dot can only be the lone-label special form; drop
            // it so that the stored bytes are canonical.
            if s.len() > 0 && s[s.len() - 1] == DOT {
                let stripped = bytes_slice(&input, 0, bytes_len(&input) - 1);
                proof {
                    lemma_domain_trailing_dot(whole);
                }
                Ok(Domain(stripped))
            } else {
                Ok(Domain(input))
            }
        } else {
            Err(Error::InvalidSyntax)
        }
    }

    /// Consume the `Domain`, returning the inner bytes.
    pub fn into_bytes(self) -> (r: bytes::Bytes)
        ensures
            bytes_view(r) == self@,
    {
        self.0
    }

    /// A reference to the inner bytes.
    pub fn bytes(&self) -> (r: &bytes::Bytes)
        ensures
            bytes_view(*r) == self@,
    {
        &self.0
    }

    /// Wrap bytes without validating.  The caller owes the domain grammar.
    pub fn new_unchecked(bytes: bytes::Bytes) -> (r: Domain)
        requires
            spec_is_domain(bytes_view(bytes)),
        ensures
            r@ == bytes_view(bytes),
            r.wf(),
    {
        Domain(bytes)
    }
}

/// A sequence ending in the delimiter splits into at least two tokens, the
/// last of them empty.
pub proof fn lemma_split_trailing(s: Seq<u8>, d: u8)
    requires
        s.len() > 0,
        s[s.len() - 1] == d,
    ensures
        spec_split(s, d).len() >= 2,
        spec_split(s, d)[spec_split(s, d).len() - 1].len() == 0,
    decreases s.len(),
{
    let parts = spec_split(s, d);
    if s.len() == 1 {
        assert(s[0] == d);
        assert(s.skip(1).len() == 0);
        assert(spec_split(s.skip(1), d) == seq![s.skip(1)]);
        assert(parts == seq![Seq::<u8>::empty()] + seq![s.skip(1)]);
        assert(parts.len() == 2);
        assert(parts[1] == s.skip(1));
        assert(parts[parts.len() - 1].len() == 0);
    } else {
        let t = s.skip(1);
        let r = spec_split(t, d);
        assert(t[t.len() - 1] == d);
        lemma_split_trailing(t, d);
        assert(parts[parts.len() - 1] == r[r.len() - 1]);
    }
}

/// A domain with a trailing dot is the lone-label special form, and the
/// label before the dot is itself a domain.
pub proof fn lemma_domain_trailing_dot(s: Seq<u8>)
    requires
        spec_is_domain(s),
        s.len() > 0,
        s[s.len() - 1] == DOT,
    ensures
        spec_is_domain(s.take(s.len() - 1)),
{
    let parts = spec_split(s, DOT);
    lemma_split_trailing(s, DOT);
    assert(!spec_is_subdomain(parts[parts.len() - 1]));
    // So the trailing-dot special form holds.
    assert(parts.len() == 2 && parts[1].len() == 0 && spec_is_subdomain(parts[0]));
    // The first dot closes the head token, and everything after it splits
    // into the one remaining token, which is empty: the dot is last.
    lemma_first_occurrence_exists(s, DOT, s.len() - 1);
    let j = choose|j: int|
        0 <= j < s.len() && s[j] == DOT && forall|m: int| 0 <= m < j ==> s[m] != DOT;
    lemma_split_at_first(s, DOT, j);
    let rest = s.skip(j + 1);
    assert(spec_split(rest, DOT).len() == 1);
    lemma_split_single_is_whole(rest, DOT);
    assert(rest =~= parts[1]);
    assert(j == s.len() - 1);
    let head = s.take(s.len() - 1);
    assert(head =~= parts[0]);
    assert(forall|k: int| 0 <= k < head.len() ==> head[k] != DOT);
    lemma_split_at_first(head, DOT, head.len() as int);
    assert(spec_split(head, DOT) =~~= seq![head]);
}


/// A first occurrence of `d` at or before a known occurrence `k` exists.
proof fn lemma_first_occurrence_exists(s: Seq<u8>, d: u8, k: int)
    requires
        0 <= k < s.len(),
        s[k] == d,
    ensures
        exists|j: int| 0 <= j <= k && s[j] == d && forall|m: int| 0 <= m < j ==> s[m] != d,
    decreases k,
{
    if forall|m: int| 0 <= m < k ==> s[m] != d {
        assert(0 <= k <= k && s[k] == d && forall|m: int| 0 <= m < k ==> s[m] != d);
    } else {
        let k2 = choose|m: int| 0 <= m < k && s[m] == d;
        lemma_first_occurrence_exists(s, d, k2);
        let j = choose|j: int|
            0 <= j <= k2 && s[j] == d && forall|m: int| 0 <= m < j ==> s[m] != d;
        assert(0 <= j <= k && s[j] == d && forall|m: int| 0 <= m < j ==> s[m] != d);
    }
}

/// When a split has a single token, that token is the whole input.
pub proof fn lemma_split_single_is_whole(s: Seq<u8>, d: u8)
    requires
        spec_split(s, d).len() == 1,
    ensures
        spec_split(s, d)[0] =~= s,
        forall|k: int| 0 <= k < s.len() ==> s[k] != d,
    decreases s.len(),
{
    if s.len() == 0 {
    } else if s[0] == d {
        crate::grammar::lemma_split_nonempty(s.skip(1), d);
        assert(false);
    } else {
        crate::grammar::lemma_split_nonempty(s.skip(1), d);
        lemma_split_single_is_whole(s.skip(1), d);
        assert(spec_split(s, d)[0] == seq![s[0]] + spec_split(s.skip(1), d)[0]);
        assert(seq![s[0]] + s.skip(1) =~= s);
    }
}

/// An email address `<local-part>@<domain>`, validated at construction.
#[derive(Debug)]
pub struct Email(bytes::Bytes);

impl View for Email {
    type V = Seq<u8>;

    closed spec fn view(&self) -> Seq<u8> {
        bytes_view(self.0)
    }
}

impl Email {
    /// The bytes are a valid email address.
    pub open spec fn wf(&self) -> bool {
        spec_is_email(self@)
    }

    /// Validate `input` as an email address, splitting at the last `@`.
    pub fn parse(input: bytes::Bytes) -> (r: Result<Email, Error>)
        ensures
            match r {
                Ok(e) => spec_is_email(bytes_view(input)) && e@ == bytes_view(input) && e.wf(),
                Err(e) => !spec_is_email(bytes_view(input)) && e == Error::InvalidSyntax,
            },
    {
        let s = bytes_as_slice(&input);
        let ghost whole = bytes_view(input);
        let at = match rfind_byte(s, AT) {
            Some(j) => j,
            None => {
                proof {
                    assert forall|j: int| !spec_email_split_ok(whole, j) by {}
                }
                return Err(Error::InvalidSyntax);
            },
        };
        let n = s.len();
        let local = vstd::slice::slice_subrange(s, 0, at);
        let domain = vstd::slice::slice_subrange(s, at + 1, n);
        proof {
            assert(local@ =~= whole.take(at as int));
            assert(domain@ =~= whole.skip(at + 1));
        }
        if local.len() <= max::LOCAL_PART && is_local_part(local) && domain.len() <= max::DOMAIN
            && is_domain(domain) && s.len() <= max::EMAIL {
            proof {
                assert(spec_email_split_ok(whole, at as int));
            }
            Ok(Email(input))
        } else {
            proof {
                assert forall|j: int| !spec_email_split_ok(whole, j) by {
                    if spec_last_at(whole, j) {
                        assert(j == at);
                    }
                }
            }
            Err(Error::InvalidSyntax)
        }
    }

    /// Consume the `Email`, returning the inner bytes.
    pub fn into_bytes(self) -> (r: bytes::Bytes)
        ensures
            bytes_view(r) == self@,
    {
        self.0
    }

    /// A reference to the inner bytes.
    pub fn bytes(&self) -> (r: &bytes::Bytes)
        ensures
            bytes_view(*r) == self@,
    {
        &self.0
    }

    /// Wrap bytes without validating.  The caller owes the email grammar.
    pub fn new_unchecked(bytes: bytes::Bytes) -> (r: Email)
        requires
            spec_is_email(bytes_view(bytes)),
        ensures
            r@ == bytes_view(bytes),
            r.wf(),
    {
        Email(bytes)
    }
}

/// An address literal `[tag:content]`, validated at construction.
#[derive(Debug)]
pub struct Address(bytes::Bytes);

impl View for Address {
    type V = Seq<u8>;

    closed spec fn view(&self) -> Seq<u8> {
        bytes_view(self.0)
    }
}

impl Address {
    /// The bytes are a valid address literal.
    pub open spec fn wf(&self) -> bool {
        spec_is_address(self@)
    }

    /// The `tag` and `content` parts of the address literal, split at the
    /// first `:` inside the brackets.
    pub fn parts(&self) -> (r: (bytes::Bytes, bytes::Bytes))
        requires
            self.wf(),
        ensures
            exists|j: int|
                #[trigger] spec_first_colon(self@.subrange(1, self@.len() - 1), j) && bytes_view(
                    r.0,
                )
                    =~= self@.subrange(1, self@.len() - 1).take(j) && bytes_view(r.1)
                    =~= self@.subrange(1, self@.len() - 1).skip(j + 1),
    {
        let s = bytes_as_slice(&self.0);
        let ghost inner = self@.subrange(1, self@.len() - 1);
        let ghost w = choose|j: int|
            spec_first_colon(inner, j) && j > 0 && inner.take(j) != spec_ipv6_tag();
        proof {
            assert(inner[w] == self@[w + 1]);
        }
        // Well-formedness guarantees a colon strictly inside the brackets.
        let colon = match find_byte(s, 1, COLON) {
            Some(j) => j,
            None => {
                proof {
                    assert(s@[w + 1] == COLON);
                    assert(false);
                }
                return (bytes_new(), bytes_new());
            },
        };
        if colon >= s.len() - 1 {
            proof {
                assert(s@[w + 1] == COLON);
                assert(colon <= w + 1);
                assert(false);
            }
            return (bytes_new(), bytes_new());
        }
        let tag = bytes_slice(&self.0, 1, colon);
        let content = bytes_slice(&self.0, colon + 1, bytes_len(&self.0) - 1);
        proof {
            let jj = colon - 1;
            assert(spec_first_colon(inner, jj)) by {
                assert(inner[jj] == self@[colon as int]);
                assert forall|k: int| 0 <= k < jj implies inner[k] != COLON by {
                    assert(inner[k] == self@[k + 1]);
                }
            }
            assert(bytes_view(tag) =~= inner.take(jj));
            assert(bytes_view(content) =~= inner.skip(jj + 1));
        }
        (tag, content)
    }

    /// A reference to the inner bytes.
    pub fn bytes(&self) -> (r: &bytes::Bytes)
        ensures
            bytes_view(*r) == self@,
    {
        &self.0
    }

    /// Consume the `Address`, returning the inner bytes.
    pub fn into_bytes(self) -> (r: bytes::Bytes)
        ensures
            bytes_view(r) == self@,
    {
        self.0
    }

    /// Wrap bytes without validating.  The caller owes the address-literal
    /// grammar.
    pub fn new_unchecked(bytes: bytes::Bytes) -> (r: Address)
        requires
            spec_is_address(bytes_view(bytes)),
        ensures
            r@ == bytes_view(bytes),
            r.wf(),
    {
        Address(bytes)
    }
}

} // verus!
