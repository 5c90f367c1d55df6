//! Grammar validators for RFC 5321 tokens: pure, total predicates over byte
//! slices, each proved equal to its specification.

use vstd::prelude::*;

verus! {

/// `.`, the label separator of domains and dot-strings.
pub const DOT: u8 = 0x2e;

/// `-`, allowed inside subdomains but not at either end.
pub const HYPHEN: u8 = 0x2d;

/// ASCII digit, upper-case letter, or lower-case letter.
pub open spec fn spec_is_alnum(c: u8) -> bool {
    (0x30 <= c <= 0x39) || (0x41 <= c <= 0x5a) || (0x61 <= c <= 0x7a)
}

/// A byte allowed in an atext atom: alphanumeric or one of
/// `! # $ % & ' * + - / = ? ^ _ ` { | }`.
pub open spec fn spec_is_atext_byte(c: u8) -> bool {
    spec_is_alnum(c) || c == 0x21 || (0x23 <= c <= 0x27) || (0x2a <= c <= 0x2b) || c == 0x2d || c
        == 0x2f || c == 0x3d || c == 0x3f || c == 0x5e || c == 0x5f || c == 0x60 || (0x7b <= c
        <= 0x7d)
}

/// A non-empty run of atext bytes.
pub open spec fn spec_is_atext(s: Seq<u8>) -> bool {
    s.len() > 0 && forall|i: int| 0 <= i < s.len() ==> spec_is_atext_byte(#[trigger] s[i])
}

/// A byte allowed unescaped inside a quoted string: printable ASCII except
/// `"` and `\`.
pub open spec fn spec_is_qtext(c: u8) -> bool {
    (0x20 <= c <= 0x21) || (0x23 <= c <= 0x5b) || (0x5d <= c <= 0x7e)
}

/// A byte allowed after `\` in a quoted string: any printable ASCII.
pub open spec fn spec_is_quoted_pair(c: u8) -> bool {
    0x20 <= c <= 0x7e
}

/// The interior of a quoted string, scanned left to right: a `\` consumes the
/// following quoted-pair byte, any other byte must be qtext.
pub open spec fn spec_quoted_interior(s: Seq<u8>) -> bool
    decreases s.len(),
{
    if s.len() == 0 {
        true
    } else if s[0] == 0x5c {
        s.len() >= 2 && spec_is_quoted_pair(s[1]) && spec_quoted_interior(s.skip(2))
    } else {
        spec_is_qtext(s[0]) && spec_quoted_interior(s.skip(1))
    }
}

/// A quoted string: `"` interior `"`.
pub open spec fn spec_is_quoted_string(s: Seq<u8>) -> bool {
    s.len() >= 2 && s[0] == 0x22 && s[s.len() - 1] == 0x22 && spec_quoted_interior(
        s.subrange(1, s.len() - 1),
    )
}

/// A subdomain: non-empty, alphanumeric or `-`, with neither end a `-`.
pub open spec fn spec_is_subdomain(s: Seq<u8>) -> bool {
    s.len() > 0 && s[0] != HYPHEN && s[s.len() - 1] != HYPHEN && forall|i: int|
        0 <= i < s.len() ==> spec_is_alnum(#[trigger] s[i]) || s[i] == HYPHEN
}

/// The tokens of `s` split on the byte `d`.  Every occurrence of `d`
/// separates two tokens, so the result always holds at least one token and
/// the empty sequence splits to one empty token.
pub open spec fn spec_split(s: Seq<u8>, d: u8) -> Seq<Seq<u8>>
    decreases s.len(),
{
    if s.len() == 0 {
        seq![s]
    } else if s[0] == d {
        seq![Seq::<u8>::empty()] + spec_split(s.skip(1), d)
    } else {
        let rest = spec_split(s.skip(1), d);
        seq![seq![s[0]] + rest[0]] + rest.skip(1)
    }
}

/// A dot-string: atext atoms joined by single dots, with no leading,
/// trailing, or consecutive dot.
pub open spec fn spec_is_dot_string(s: Seq<u8>) -> bool {
    forall|i: int|
        0 <= i < spec_split(s, DOT).len() ==> spec_is_atext(#[trigger] spec_split(s, DOT)[i])
}

/// A domain: subdomains joined by single dots.  As a special case a single
/// subdomain may carry one trailing dot.
pub open spec fn spec_is_domain(s: Seq<u8>) -> bool {
    (forall|i: int|
        0 <= i < spec_split(s, DOT).len() ==> spec_is_subdomain(#[trigger] spec_split(s, DOT)[i]))
        || (spec_split(s, DOT).len() == 2 && spec_split(s, DOT)[1].len() == 0 && spec_is_subdomain(
        spec_split(s, DOT)[0],
    ))
}

/// A local part: dot-string or quoted string.
pub open spec fn spec_is_local_part(s: Seq<u8>) -> bool {
    spec_is_dot_string(s) || spec_is_quoted_string(s)
}

/// Splitting has at least one token.
pub proof fn lemma_split_nonempty(s: Seq<u8>, d: u8)
    ensures
        spec_split(s, d).len() >= 1,
    decreases s.len(),
{
    if s.len() != 0 && s[0] != d {
        lemma_split_nonempty(s.skip(1), d);
    }
}

/// Splitting at the first occurrence of the delimiter: if `j` is that
/// occurrence, the first token is everything before it and the rest splits
/// the suffix; if there is no occurrence, the whole input is the one token.
pub proof fn lemma_split_at_first(s: Seq<u8>, d: u8, j: int)
    requires
        0 <= j <= s.len(),
        forall|k: int| 0 <= k < j ==> s[k] != d,
        j < s.len() ==> s[j] == d,
    ensures
        j == s.len() ==> spec_split(s, d) =~= seq![s],
        j < s.len() ==> spec_split(s, d) =~~= seq![s.take(j)] + spec_split(s.skip(j + 1), d),
    decreases j,
{
    lemma_split_nonempty(s, d);
    if j == 0 {
        if j < s.len() {
            assert(s.take(0) =~= Seq::<u8>::empty());
            assert(s.skip(1) =~= s.skip(j + 1));
        } else {
            assert(s =~= Seq::<u8>::empty());
        }
    } else {
        let t = s.skip(1);
        lemma_split_at_first(t, d, j - 1);
        lemma_split_nonempty(t, d);
        if j == s.len() {
            assert(spec_split(t, d) =~= seq![t]);
            assert(seq![s[0]] + t =~= s);
        } else {
            assert(spec_split(t, d) =~~= seq![t.take(j - 1)] + spec_split(t.skip(j), d));
            assert(seq![s[0]] + t.take(j - 1) =~= s.take(j));
            assert(t.skip(j) =~= s.skip(j + 1));
            assert(spec_split(s, d) =~~= seq![s.take(j)] + spec_split(s.skip(j + 1), d));
        }
    }
}

/// Every token of `seq![head] + rest` is atext exactly when `head` is and
/// every token of `rest` is.
pub proof fn lemma_atext_cons(ts: Seq<Seq<u8>>, head: Seq<u8>, rest: Seq<Seq<u8>>)
    requires
        ts =~~= seq![head] + rest,
    ensures
        (forall|i: int| 0 <= i < ts.len() ==> spec_is_atext(#[trigger] ts[i])) <==> (spec_is_atext(
            head,
        ) && forall|i: int| 0 <= i < rest.len() ==> spec_is_atext(#[trigger] rest[i])),
{
    assert(ts[0] == head);
    if spec_is_atext(head) && (forall|i: int|
        0 <= i < rest.len() ==> spec_is_atext(#[trigger] rest[i])) {
        assert forall|i: int| 0 <= i < ts.len() implies spec_is_atext(#[trigger] ts[i]) by {
            if i > 0 {
                assert(ts[i] == rest[i - 1]);
            }
        }
    }
    if forall|i: int| 0 <= i < ts.len() ==> spec_is_atext(#[trigger] ts[i]) {
        assert forall|i: int| 0 <= i < rest.len() implies spec_is_atext(#[trigger] rest[i]) by {
            assert(rest[i] == ts[i + 1]);
        }
    }
}

/// Every token of `seq![head] + rest` is a subdomain exactly when `head` is
/// and every token of `rest` is.
pub proof fn lemma_subdomain_cons(ts: Seq<Seq<u8>>, head: Seq<u8>, rest: Seq<Seq<u8>>)
    requires
        ts =~~= seq![head] + rest,
    ensures
        (forall|i: int| 0 <= i < ts.len() ==> spec_is_subdomain(#[trigger] ts[i]))
            <==> (spec_is_subdomain(head) && forall|i: int|
            0 <= i < rest.len() ==> spec_is_subdomain(#[trigger] rest[i])),
{
    assert(ts[0] == head);
    if spec_is_subdomain(head) && (forall|i: int|
        0 <= i < rest.len() ==> spec_is_subdomain(#[trigger] rest[i])) {
        assert forall|i: int| 0 <= i < ts.len() implies spec_is_subdomain(#[trigger] ts[i]) by {
            if i > 0 {
                assert(ts[i] == rest[i - 1]);
            }
        }
    }
    if forall|i: int| 0 <= i < ts.len() ==> spec_is_subdomain(#[trigger] ts[i]) {
        assert forall|i: int| 0 <= i < rest.len() implies spec_is_subdomain(
            #[trigger] rest[i],
        ) by {
            assert(rest[i] == ts[i + 1]);
        }
    }
}

/// Find the first occurrence of `d` in `s` at or after `start`.
pub(crate) fn find_byte(s: &[u8], start: usize, d: u8) -> (r: Option<usize>)
    requires
        start <= s@.len(),
    ensures
        match r {
            Some(j) => start <= j < s@.len() && s@[j as int] == d && forall|k: int|
                start <= k < j ==> s@[k] != d,
            None => forall|k: int| start <= k < s@.len() ==> s@[k] != d,
        },
{
    let mut i: usize = start;
    while i < s.len()
        invariant
            start <= i <= s@.len(),
            forall|k: int| start <= k < i ==> s@[k] != d,
        decreases s@.len() - i,
    {
        if s[i] == d {
            return Some(i);
        }
        i = i + 1;
    }
    None
}

/// An ASCII decimal digit.
pub open spec fn spec_is_digit(c: u8) -> bool {
    0x30 <= c <= 0x39
}

/// The value of a decimal digit string (0 when empty).
pub open spec fn spec_dec_val(s: Seq<u8>) -> int
    decreases s.len(),
{
    if s.len() == 0 {
        0
    } else {
        spec_dec_val(s.take(s.len() - 1)) * 10 + (s[s.len() - 1] - 0x30)
    }
}

/// A well-formed decimal number: non-empty and all digits.
pub open spec fn spec_is_dec(s: Seq<u8>) -> bool {
    s.len() > 0 && forall|i: int| 0 <= i < s.len() ==> spec_is_digit(#[trigger] s[i])
}

/// How a decimal byte string reads as a machine word.
#[derive(Debug, Clone, Copy, PartialEq, Eq, Structural)]
pub enum Decimal {
    /// A number that fits.
    Value(usize),
    /// A well-formed number too large for `usize`.
    Overflow,
    /// Empty, or holding a non-digit.
    Malformed,
}

/// Read an unsigned decimal number.
pub fn parse_decimal(s: &[u8]) -> (r: Decimal)
    ensures
        match r {
            Decimal::Value(v) => spec_is_dec(s@) && v == spec_dec_val(s@) && spec_dec_val(s@)
                <= usize::MAX,
            Decimal::Overflow => spec_is_dec(s@) && spec_dec_val(s@) > usize::MAX,
            Decimal::Malformed => !spec_is_dec(s@),
        },
{
    if s.len() == 0 {
        return Decimal::Malformed;
    }
    let mut val: usize = 0;
    let mut over = false;
    let mut i: usize = 0;
    while i < s.len()
        invariant
            0 <= i <= s@.len(),
            forall|k: int| 0 <= k < i ==> spec_is_digit(#[trigger] s@[k]),
            !over ==> val == spec_dec_val(s@.take(i as int)),
            over ==> spec_dec_val(s@.take(i as int)) > usize::MAX,
        decreases s@.len() - i,
    {
        let c = s[i];
        if c < 0x30 || c > 0x39 {
            return Decimal::Malformed;
        }
        let d = (c - 0x30) as usize;
        proof {
            assert(s@.take(i + 1).take(i as int) =~= s@.take(i as int));
            assert(s@.take(i + 1)[i as int] == s@[i as int]);
        }
        if !over {
            if val > usize::MAX / 10 || (val == usize::MAX / 10 && d > usize::MAX % 10) {
                over = true;
                proof {
                    assert(usize::MAX == (usize::MAX / 10) * 10 + usize::MAX % 10);
                    assert(spec_dec_val(s@.take(i + 1)) == val * 10 + d);
                }
            } else {
                proof {
                    assert(usize::MAX == (usize::MAX / 10) * 10 + usize::MAX % 10);
                    assert(val * 10 + d <= usize::MAX);
                }
                val = val * 10 + d;
            }
        } else {
            proof {
                assert(spec_dec_val(s@.take(i + 1)) == spec_dec_val(s@.take(i as int)) * 10 + d);
            }
        }
        i = i + 1;
    }
    proof {
        assert(s@.take(i as int) =~= s@);
    }
    if over {
        Decimal::Overflow
    } else {
        Decimal::Value(val)
    }
}

/// A byte folded to upper case: lower-case ASCII letters are raised, all
/// other bytes stand.
pub open spec fn spec_upper_byte(c: u8) -> u8 {
    if 0x61 <= c <= 0x7a {
        (c - 0x20) as u8
    } else {
        c
    }
}

/// A byte string folded to upper case.
pub open spec fn spec_upper(s: Seq<u8>) -> Seq<u8> {
    Seq::<u8>::new(s.len(), |i: int| spec_upper_byte(s[i]))
}

/// Fold a byte to upper case.
pub fn upper_byte(c: u8) -> (r: u8)
    ensures
        r == spec_upper_byte(c),
{
    if 0x61 <= c && c <= 0x7a {
        c - 0x20
    } else {
        c
    }
}

/// Compare a byte string case-insensitively against an upper-case pattern.
pub fn eq_ci<const N: usize>(t: &[u8], expect: &[u8; N]) -> (r: bool)
    ensures
        r == (spec_upper(t@) == expect@),
{
    if t.len() != expect.len() {
        return false;
    }
    let mut i: usize = 0;
    while i < t.len()
        invariant
            0 <= i <= t@.len(),
            t@.len() == expect@.len(),
            forall|k: int| 0 <= k < i ==> spec_upper_byte(#[trigger] t@[k]) == expect@[k],
        decreases t@.len() - i,
    {
        if upper_byte(t[i]) != expect[i] {
            proof {
                assert(spec_upper(t@)[i as int] != expect@[i as int]);
            }
            return false;
        }
        i = i + 1;
    }
    proof {
        assert(spec_upper(t@) =~= expect@);
    }
    true
}

/// Compare a byte string against an exact pattern.
pub fn eq_bytes<const N: usize>(t: &[u8], expect: &[u8; N]) -> (r: bool)
    ensures
        r == (t@ == expect@),
{
    if t.len() != N {
        return false;
    }
    let mut i: usize = 0;
    while i < t.len()
        invariant
            0 <= i <= t@.len(),
            t@.len() == expect@.len(),
            forall|k: int| 0 <= k < i ==> t@[k] == expect@[k],
        decreases t@.len() - i,
    {
        if t[i] != expect[i] {
            return false;
        }
        i = i + 1;
    }
    proof {
        assert(t@ =~= expect@);
    }
    true
}

/// The position of the first occurrence of `d` in `s`.
pub open spec fn spec_find(s: Seq<u8>, d: u8) -> Option<int>
    decreases s.len(),
{
    if s.len() == 0 {
        None
    } else if s[0] == d {
        Some(0)
    } else {
        match spec_find(s.skip(1), d) {
            None => None,
            Some(i) => Some(i + 1),
        }
    }
}

/// A first occurrence at `j` is what `spec_find` finds.
pub proof fn lemma_find_found(s: Seq<u8>, d: u8, j: int)
    requires
        0 <= j < s.len(),
        s[j] == d,
        forall|k: int| 0 <= k < j ==> s[k] != d,
    ensures
        spec_find(s, d) == Some(j),
    decreases j,
{
    if j > 0 {
        lemma_find_found(s.skip(1), d, j - 1);
    }
}

/// With no occurrence, `spec_find` finds nothing.
pub proof fn lemma_find_absent(s: Seq<u8>, d: u8)
    requires
        forall|k: int| 0 <= k < s.len() ==> s[k] != d,
    ensures
        spec_find(s, d) == None::<int>,
    decreases s.len(),
{
    if s.len() > 0 {
        lemma_find_absent(s.skip(1), d);
    }
}

/// The position of the first occurrence of `pat` as a contiguous
/// subsequence of `s`.
pub open spec fn spec_find_seq(s: Seq<u8>, pat: Seq<u8>) -> Option<int>
    decreases s.len(),
{
    if s.len() < pat.len() {
        None
    } else if s.len() == 0 {
        Some(0)
    } else if s.take(pat.len() as int) == pat {
        Some(0)
    } else {
        match spec_find_seq(s.skip(1), pat) {
            None => None,
            Some(i) => Some(i + 1),
        }
    }
}

/// Whatever `spec_find_seq` finds lies within bounds.
pub proof fn lemma_find_seq_bounds(s: Seq<u8>, pat: Seq<u8>)
    ensures
        match spec_find_seq(s, pat) {
            Some(p) => 0 <= p && p + pat.len() <= s.len() && s.subrange(p, p + pat.len()) == pat,
            None => true,
        },
    decreases s.len(),
{
    if s.len() >= pat.len() && s.len() > 0 && s.take(pat.len() as int) != pat {
        lemma_find_seq_bounds(s.skip(1), pat);
        if spec_find_seq(s.skip(1), pat) is Some {
            let i = spec_find_seq(s.skip(1), pat)->Some_0;
            assert(s.skip(1).subrange(i, i + pat.len()) =~= s.subrange(i + 1, i + 1 + pat.len()));
        }
    } else if s.len() >= pat.len() {
        assert(s.take(pat.len() as int) =~= s.subrange(0, pat.len() as int));
        if s.len() == 0 {
            assert(s.take(pat.len() as int) =~= pat);
        }
    }
}

/// A first match at `j` is what `spec_find_seq` finds.
pub proof fn lemma_find_seq_found(s: Seq<u8>, pat: Seq<u8>, j: int)
    requires
        0 <= j,
        j + pat.len() <= s.len(),
        s.subrange(j, j + pat.len()) == pat,
        forall|k: int| 0 <= k < j ==> #[trigger] s.subrange(k, k + pat.len()) != pat,
    ensures
        spec_find_seq(s, pat) == Some(j),
    decreases j,
{
    if j == 0 {
        assert(s.take(pat.len() as int) =~= s.subrange(0, 0 + pat.len() as int));
    } else {
        assert(s.len() > 0);
        assert(s.subrange(0, 0 + pat.len() as int) != pat);
        assert(s.take(pat.len() as int) =~= s.subrange(0, 0 + pat.len() as int));
        let t = s.skip(1);
        assert(t.subrange(j - 1, j - 1 + pat.len()) =~= s.subrange(j, j + pat.len()));
        assert forall|k: int| 0 <= k < j - 1 implies #[trigger] t.subrange(k, k + pat.len())
            != pat by {
            assert(t.subrange(k, k + pat.len()) =~= s.subrange(k + 1, k + 1 + pat.len()));
        }
        lemma_find_seq_found(t, pat, j - 1);
    }
}

/// With no match anywhere, `spec_find_seq` finds nothing.
pub proof fn lemma_find_seq_absent(s: Seq<u8>, pat: Seq<u8>)
    requires
        forall|k: int| 0 <= k && k + pat.len() <= s.len() ==> #[trigger] s.subrange(k, k + pat.len()) != pat,
    ensures
        spec_find_seq(s, pat) == None::<int>,
    decreases s.len(),
{
    if s.len() >= pat.len() && s.len() == 0 {
        // The empty pattern matches at position zero, contradicting the
        // hypothesis.
        assert(s.subrange(0, 0 + pat.len() as int) =~= pat);
    } else if s.len() >= pat.len() {
        assert(s.subrange(0, 0 + pat.len() as int) != pat);
        assert(s.take(pat.len() as int) =~= s.subrange(0, 0 + pat.len() as int));
        let t = s.skip(1);
        assert forall|k: int| 0 <= k && k + pat.len() <= t.len() implies #[trigger] t.subrange(
            k,
            k + pat.len(),
        ) != pat by {
            assert(t.subrange(k, k + pat.len()) =~= s.subrange(k + 1, k + 1 + pat.len()));
        }
        lemma_find_seq_absent(t, pat);
    }
}

/// Compare two byte slices for equality.
pub fn slices_eq(a: &[u8], b: &[u8]) -> (r: bool)
    ensures
        r == (a@ == b@),
{
    if a.len() != b.len() {
        return false;
    }
    let mut i: usize = 0;
    while i < a.len()
        invariant
            0 <= i <= a@.len(),
            a@.len() == b@.len(),
            forall|k: int| 0 <= k < i ==> a@[k] == b@[k],
        decreases a@.len() - i,
    {
        if a[i] != b[i] {
            return false;
        }
        i = i + 1;
    }
    proof {
        assert(a@ =~= b@);
    }
    true
}

/// Find the first occurrence of `pat` as a contiguous subsequence of `s` at
/// or after `start`.
pub fn find_seq<const N: usize>(s: &[u8], start: usize, pat: &[u8; N]) -> (r: Option<usize>)
    requires
        N >= 1,
        start <= s@.len(),
    ensures
        match r {
            Some(j) => start <= j && j + N <= s@.len() && s@.subrange(j as int, j + N) == pat@
                && forall|k: int| start <= k < j ==> #[trigger] s@.subrange(k, k + N) != pat@,
            None => forall|k: int|
                start <= k && k + N <= s@.len() ==> #[trigger] s@.subrange(k, k + N) != pat@,
        },
{
    if s.len() < N {
        return None;
    }
    if start > s.len() - N {
        return None;
    }
    let mut j: usize = start;
    while j <= s.len() - N
        invariant
            N >= 1,
            N <= s@.len(),
            start <= j,
            j <= s@.len(),
            forall|k: int| start <= k < j ==> #[trigger] s@.subrange(k, k + N) != pat@,
        decreases s@.len() - j,
    {
        let window = vstd::slice::slice_subrange(s, j, j + N);
        let pslice = pat.as_slice();
        if slices_eq(window, pslice) {
            proof {
                assert(s@.subrange(j as int, j + N) =~= window@);
            }
            return Some(j);
        }
        proof {
            assert(s@.subrange(j as int, j + N) =~= window@);
        }
        j = j + 1;
    }
    None
}

/// Find the last occurrence of `d` in `s`.
pub(crate) fn rfind_byte(s: &[u8], d: u8) -> (r: Option<usize>)
    ensures
        match r {
            Some(j) => j < s@.len() && s@[j as int] == d && forall|k: int|
                j < k < s@.len() ==> s@[k] != d,
            None => forall|k: int| 0 <= k < s@.len() ==> s@[k] != d,
        },
{
    let mut i: usize = s.len();
    while i > 0
        invariant
            0 <= i <= s@.len(),
            forall|k: int| i <= k < s@.len() ==> s@[k] != d,
        decreases i,
    {
        i = i - 1;
        if s[i] == d {
            return Some(i);
        }
    }
    None
}

/// Classify one byte of an atext atom.
fn is_atext_byte(c: u8) -> (r: bool)
    ensures
        r == spec_is_atext_byte(c),
{
    (0x30 <= c && c <= 0x39) || (0x41 <= c && c <= 0x5a) || (0x61 <= c && c <= 0x7a) || c == 0x21
        || (0x23 <= c && c <= 0x27) || (0x2a <= c && c <= 0x2b) || c == 0x2d || c == 0x2f || c
        == 0x3d || c == 0x3f || c == 0x5e || c == 0x5f || c == 0x60 || (0x7b <= c && c <= 0x7d)
}

/// Classify one byte as alphanumeric or `-`, the subdomain alphabet.
fn is_subdomain_byte(c: u8) -> (r: bool)
    ensures
        r == (spec_is_alnum(c) || c == HYPHEN),
{
    (0x30 <= c && c <= 0x39) || (0x41 <= c && c <= 0x5a) || (0x61 <= c && c <= 0x7a) || c == HYPHEN
}

/// A non-empty run of atext bytes.
pub fn is_atext(input: &[u8]) -> (r: bool)
    ensures
        r == spec_is_atext(input@),
{
    if input.len() == 0 {
        return false;
    }
    let mut i: usize = 0;
    while i < input.len()
        invariant
            0 <= i <= input@.len(),
            forall|k: int| 0 <= k < i ==> spec_is_atext_byte(#[trigger] input@[k]),
        decreases input@.len() - i,
    {
        if !is_atext_byte(input[i]) {
            return false;
        }
        i = i + 1;
    }
    true
}

/// A byte allowed unescaped inside a quoted string.
pub fn is_qtext(input: u8) -> (r: bool)
    ensures
        r == spec_is_qtext(input),
{
    (0x20 <= input && input <= 0x21) || (0x23 <= input && input <= 0x5b) || (0x5d <= input && input
        <= 0x7e)
}

/// A byte allowed after `\` in a quoted string.
pub fn is_quoted_pair(input: u8) -> (r: bool)
    ensures
        r == spec_is_quoted_pair(input),
{
    0x20 <= input && input <= 0x7e
}

/// Strip one leading and one trailing `"`.
pub fn strip_quotes(input: &[u8]) -> (r: Option<&[u8]>)
    ensures
        match r {
            Some(inner) => input@.len() >= 2 && input@[0] == 0x22 && input@[input@.len() - 1]
                == 0x22 && inner@ == input@.subrange(1, input@.len() - 1),
            None => !(input@.len() >= 2 && input@[0] == 0x22 && input@[input@.len() - 1] == 0x22),
        },
{
    if input.len() >= 2 && input[0] == 0x22 && input[input.len() - 1] == 0x22 {
        Some(vstd::slice::slice_subrange(input, 1, input.len() - 1))
    } else {
        None
    }
}

/// A quoted string: `"` around a scanned interior.
pub fn is_quoted_string(input: &[u8]) -> (r: bool)
    ensures
        r == spec_is_quoted_string(input@),
{
    let stripped = match strip_quotes(input) {
        Some(stripped) => stripped,
        None => {
            return false;
        },
    };
    let ghost interior = input@.subrange(1, input@.len() - 1);
    proof {
        assert(interior.skip(0) =~= interior);
    }
    let mut i: usize = 0;
    while i < stripped.len()
        invariant
            0 <= i <= stripped@.len(),
            stripped@ == interior,
            input@.len() >= 2,
            input@[0] == 0x22,
            input@[input@.len() - 1] == 0x22,
            interior == input@.subrange(1, input@.len() - 1),
            spec_quoted_interior(interior) <==> spec_quoted_interior(interior.skip(i as int)),
        decreases stripped@.len() - i,
    {
        let ghost before = interior.skip(i as int);
        if stripped[i] == 0x5c {
            if i + 1 < stripped.len() && is_quoted_pair(stripped[i + 1]) {
                proof {
                    assert(before[0] == 0x5c && before[1] == interior[i + 1]);
                    assert(before.skip(2) =~= interior.skip(i + 2));
                }
                i = i + 2;
                continue ;
            }
            proof {
                assert(before[0] == 0x5c);
                if i + 1 < stripped.len() {
                    assert(!spec_is_quoted_pair(before[1]));
                }
                assert(!spec_quoted_interior(before));
            }
            return false;
        } else if !is_qtext(stripped[i]) {
            proof {
                assert(before[0] == interior[i as int]);
                assert(!spec_quoted_interior(before));
            }
            return false;
        }
        proof {
            assert(before[0] == interior[i as int]);
            assert(before.skip(1) =~= interior.skip(i + 1));
        }
        i = i + 1;
    }
    proof {
        assert(interior.skip(i as int) =~= Seq::<u8>::empty());
    }
    true
}

/// A subdomain: non-empty, alphanumeric or `-`, with neither end a `-`.
pub fn is_subdomain(input: &[u8]) -> (r: bool)
    ensures
        r == spec_is_subdomain(input@),
{
    if input.len() == 0 {
        return false;
    }
    if input[0] == HYPHEN || input[input.len() - 1] == HYPHEN {
        return false;
    }
    let mut i: usize = 0;
    while i < input.len()
        invariant
            0 <= i <= input@.len(),
            forall|k: int|
                0 <= k < i ==> spec_is_alnum(#[trigger] input@[k]) || input@[k] == HYPHEN,
        decreases input@.len() - i,
    {
        if !is_subdomain_byte(input[i]) {
            return false;
        }
        i = i + 1;
    }
    true
}

/// Every token of the split of `s` on `d` is atext.
pub open spec fn spec_split_all_atext(s: Seq<u8>, d: u8) -> bool {
    forall|i: int| 0 <= i < spec_split(s, d).len() ==> spec_is_atext(#[trigger] spec_split(s, d)[i])
}

/// Every token of the split of `s` on `d` is a subdomain.
pub open spec fn spec_split_all_subdomain(s: Seq<u8>, d: u8) -> bool {
    forall|i: int|
        0 <= i < spec_split(s, d).len() ==> spec_is_subdomain(#[trigger] spec_split(s, d)[i])
}

/// A dot-string: atext atoms joined by single dots.
pub fn is_dot_string(input: &[u8]) -> (r: bool)
    ensures
        r == spec_is_dot_string(input@),
{
    let ghost whole = input@;
    proof {
        assert(whole.skip(0) =~= whole);
    }
    let mut start: usize = 0;
    loop
        invariant
            0 <= start <= whole.len(),
            input@ == whole,
            spec_is_dot_string(whole) <==> spec_split_all_atext(whole.skip(start as int), DOT),
        decreases whole.len() - start,
    {
        let ghost rem = whole.skip(start as int);
        let end = match find_byte(input, start, DOT) {
            Some(j) => j,
            None => input.len(),
        };
        let token = vstd::slice::slice_subrange(input, start, end);
        let ghost jrel = end - start;
        proof {
            assert(forall|k: int| 0 <= k < jrel ==> rem[k] != DOT);
            lemma_split_at_first(rem, DOT, jrel);
            assert(token@ =~= rem.take(jrel));
        }
        let token_ok = is_atext(token);
        if end == input.len() {
            proof {
                assert(rem.take(jrel) =~= rem);
                assert(spec_split(rem, DOT) =~~= seq![token@] + Seq::<Seq<u8>>::empty());
                lemma_atext_cons(spec_split(rem, DOT), token@, Seq::<Seq<u8>>::empty());
            }
            return token_ok;
        }
        proof {
            lemma_atext_cons(spec_split(rem, DOT), token@, spec_split(rem.skip(jrel + 1), DOT));
            assert(rem.skip(jrel + 1) =~= whole.skip(end + 1));
        }
        if !token_ok {
            return false;
        }
        start = end + 1;
    }
}

/// A domain: subdomains joined by single dots, or one subdomain with a
/// trailing dot.
pub fn is_domain(input: &[u8]) -> (r: bool)
    ensures
        r == spec_is_domain(input@),
{
    let ghost whole = input@;
    let first_dot = match find_byte(input, 0, DOT) {
        Some(j) => j,
        None => input.len(),
    };
    proof {
        lemma_split_at_first(whole, DOT, first_dot as int);
    }
    let head = vstd::slice::slice_subrange(input, 0, first_dot);
    proof {
        assert(head@ =~= whole.take(first_dot as int));
        if first_dot == whole.len() {
            assert(head@ =~= whole);
        }
    }
    let ghost tail_split = spec_split(whole.skip(first_dot + 1), DOT);
    proof {
        if first_dot < whole.len() {
            lemma_subdomain_cons(spec_split(whole, DOT), head@, tail_split);
            lemma_split_nonempty(whole.skip(first_dot + 1), DOT);
        }
    }
    if !is_subdomain(head) {
        proof {
            if first_dot < whole.len() {
                lemma_domain_needs_head(whole, first_dot as int, tail_split);
            } else {
                assert(spec_split(whole, DOT) =~~= seq![whole]);
                assert(spec_split(whole, DOT)[0] == whole);
            }
        }
        return false;
    }
    if first_dot == input.len() {
        return true;
    }
    // One label followed by a single trailing dot.
    if first_dot + 1 == input.len() {
        proof {
            assert(whole.skip(first_dot + 1) =~= Seq::<u8>::empty());
            assert(spec_split(whole, DOT) =~~= seq![head@, Seq::<u8>::empty()]);
        }
        return true;
    }
    // More input follows the dot, so the trailing-dot special case cannot
    // apply and every remaining label must itself be a subdomain.
    proof {
        lemma_domain_second_form(whole, first_dot as int, tail_split);
    }
    let mut start: usize = first_dot + 1;
    loop
        invariant
            first_dot + 1 <= start <= whole.len(),
            input@ == whole,
            first_dot < whole.len(),
            tail_split == spec_split(whole.skip(first_dot + 1), DOT),
            spec_is_domain(whole) <==> (spec_is_subdomain(head@) && forall|i: int|
                0 <= i < tail_split.len() ==> spec_is_subdomain(#[trigger] tail_split[i])),
            spec_is_subdomain(head@),
            (forall|i: int| 0 <= i < tail_split.len() ==> spec_is_subdomain(#[trigger] tail_split[i]))
                <==> spec_split_all_subdomain(whole.skip(start as int), DOT),
        decreases whole.len() - start,
    {
        let ghost rem = whole.skip(start as int);
        let end = match find_byte(input, start, DOT) {
            Some(j) => j,
            None => input.len(),
        };
        let token = vstd::slice::slice_subrange(input, start, end);
        let ghost jrel = end - start;
        proof {
            lemma_split_at_first(rem, DOT, jrel);
            assert(token@ =~= rem.take(jrel));
        }
        let token_ok = is_subdomain(token);
        if end == input.len() {
            proof {
                assert(rem.take(jrel) =~= rem);
                assert(spec_split(rem, DOT) =~~= seq![token@] + Seq::<Seq<u8>>::empty());
                lemma_subdomain_cons(spec_split(rem, DOT), token@, Seq::<Seq<u8>>::empty());
            }
            return token_ok;
        }
        proof {
            lemma_subdomain_cons(spec_split(rem, DOT), token@, spec_split(rem.skip(jrel + 1), DOT));
            assert(rem.skip(jrel + 1) =~= whole.skip(end + 1));
        }
        if !token_ok {
            return false;
        }
        start = end + 1;
    }
}

/// A split whose first token is not a subdomain describes no domain.
proof fn lemma_domain_needs_head(whole: Seq<u8>, first_dot: int, tail_split: Seq<Seq<u8>>)
    requires
        0 <= first_dot < whole.len(),
        spec_split(whole, DOT) =~~= seq![whole.take(first_dot)] + tail_split,
        !spec_is_subdomain(whole.take(first_dot)),
    ensures
        !spec_is_domain(whole),
{
    assert(spec_split(whole, DOT)[0] == whole.take(first_dot));
}

/// With at least one byte after the first dot, the trailing-dot special case
/// is impossible, so being a domain means every label is a subdomain.
proof fn lemma_domain_second_form(whole: Seq<u8>, first_dot: int, tail_split: Seq<Seq<u8>>)
    requires
        0 <= first_dot < whole.len(),
        first_dot + 1 < whole.len(),
        spec_is_subdomain(whole.take(first_dot)),
        tail_split == spec_split(whole.skip(first_dot + 1), DOT),
        spec_split(whole, DOT) =~~= seq![whole.take(first_dot)] + tail_split,
    ensures
        spec_is_domain(whole) <==> (spec_is_subdomain(whole.take(first_dot)) && forall|i: int|
            0 <= i < tail_split.len() ==> spec_is_subdomain(#[trigger] tail_split[i])),
{
    let parts = spec_split(whole, DOT);
    lemma_subdomain_cons(parts, whole.take(first_dot), tail_split);
    if parts.len() == 2 && parts[1].len() == 0 {
        // The suffix after the dot would be one empty label, yet it holds at
        // least one byte: its first token is a prefix of that suffix.
        assert(tail_split.len() == 1);
        assert(tail_split[0].len() == 0);
        lemma_split_first_token_prefix(whole.skip(first_dot + 1), DOT);
        assert(false);
    }
}

/// A non-empty input never splits into one lone empty token: its first token
/// starts with the input's first byte unless that byte is the delimiter, and
/// then there are two tokens.
proof fn lemma_split_first_token_prefix(s: Seq<u8>, d: u8)
    requires
        s.len() > 0,
        spec_split(s, d).len() == 1,
    ensures
        spec_split(s, d)[0].len() > 0,
{
    if s[0] == d {
        lemma_split_nonempty(s.skip(1), d);
    } else {
        lemma_split_nonempty(s.skip(1), d);
        assert(spec_split(s, d)[0] == seq![s[0]] + spec_split(s.skip(1), d)[0]);
    }
}

/// A local part: dot-string or quoted string.
pub fn is_local_part(input: &[u8]) -> (r: bool)
    ensures
        r == spec_is_local_part(input@),
{
    is_dot_string(input) || is_quoted_string(input)
}

} // verus!
