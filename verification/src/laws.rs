//! Round-trip laws: what the serializer emits, the parser reads back.

use vstd::prelude::*;

use crate::command::{spec_parse_command, CommandV, HostV, SPACE};
use crate::mail::{MailV, ReversePathV};
use crate::rcpt::RcptV;
use crate::types::spec_is_email;
use crate::error::Error;
use crate::grammar::{
    lemma_split_at_first, lemma_split_nonempty, spec_dec_val, spec_is_alnum, spec_is_dec,
    spec_is_domain, spec_is_subdomain, spec_split, spec_upper, DOT, HYPHEN,
};
use crate::parser::{spec_crlf, spec_step, State, StepV};
use crate::rcpt::{
    spec_fold_notify, spec_lit_delay, spec_lit_failure, spec_lit_never, spec_lit_success,
    spec_parse_notify, COMMA,
};
use crate::serialize::{spec_notify_value, spec_wire_command};
use crate::tokens::spec_tokens;

verus! {

/// One delimiter-free token splits to itself.
proof fn lemma_tokens_one(a: Seq<u8>, d: u8)
    requires
        a.len() > 0,
        forall|i: int| 0 <= i < a.len() ==> a[i] != d,
    ensures
        spec_tokens(a, d) =~~= seq![a],
{
    lemma_split_at_first(a, d, a.len() as int);
}

/// Two delimiter-free tokens joined by the delimiter split back to the
/// pair.
proof fn lemma_tokens_two(a: Seq<u8>, b: Seq<u8>, d: u8)
    requires
        a.len() > 0,
        b.len() > 0,
        forall|i: int| 0 <= i < a.len() ==> a[i] != d,
        forall|i: int| 0 <= i < b.len() ==> b[i] != d,
    ensures
        spec_tokens(a + seq![d] + b, d) =~~= seq![a, b],
{
    let v = a + seq![d] + b;
    assert(forall|k: int| 0 <= k < a.len() ==> v[k] == a[k]);
    assert(v[a.len() as int] == d);
    lemma_split_at_first(v, d, a.len() as int);
    assert(v.take(a.len() as int) =~= a);
    assert(v.skip(a.len() as int + 1) =~= b);
    lemma_split_at_first(b, d, b.len() as int);
}

/// Three delimiter-free tokens joined by the delimiter split back to the
/// triple.
proof fn lemma_tokens_three(a: Seq<u8>, b: Seq<u8>, c: Seq<u8>, d: u8)
    requires
        a.len() > 0,
        b.len() > 0,
        c.len() > 0,
        forall|i: int| 0 <= i < a.len() ==> a[i] != d,
        forall|i: int| 0 <= i < b.len() ==> b[i] != d,
        forall|i: int| 0 <= i < c.len() ==> c[i] != d,
    ensures
        spec_tokens(a + seq![d] + b + seq![d] + c, d) =~~= seq![a, b, c],
{
    let v = a + seq![d] + b + seq![d] + c;
    assert(forall|k: int| 0 <= k < a.len() ==> v[k] == a[k]);
    assert(v[a.len() as int] == d);
    lemma_split_at_first(v, d, a.len() as int);
    assert(v.take(a.len() as int) =~= a);
    assert(v.skip(a.len() as int + 1) =~= b + seq![d] + c);
    lemma_tokens_two(b, c, d);
}

/// Folding a single recognized flag token.
proof fn lemma_fold_one(b0: u8, t: Seq<u8>)
    requires
        crate::rcpt::spec_notify_flag(t) is Ok,
    ensures
        spec_fold_notify(b0, seq![t]) == Ok::<u8, Error>(
            b0 | crate::rcpt::spec_notify_flag(t)->Ok_0,
        ),
{
    let f = crate::rcpt::spec_notify_flag(t)->Ok_0;
    assert(seq![t].skip(1) =~= Seq::<Seq<u8>>::empty());
    assert(spec_fold_notify((b0 | f) as u8, Seq::<Seq<u8>>::empty()) == Ok::<u8, Error>(b0 | f));
    assert(seq![t][0] == t);
}

/// Folding two recognized flag tokens.
proof fn lemma_fold_two(b0: u8, t1: Seq<u8>, t2: Seq<u8>)
    requires
        crate::rcpt::spec_notify_flag(t1) is Ok,
        crate::rcpt::spec_notify_flag(t2) is Ok,
    ensures
        spec_fold_notify(b0, seq![t1, t2]) == Ok::<u8, Error>(
            (b0 | crate::rcpt::spec_notify_flag(t1)->Ok_0) | crate::rcpt::spec_notify_flag(
                t2,
            )->Ok_0,
        ),
{
    assert(seq![t1, t2].skip(1) =~= seq![t2]);
    lemma_fold_one(b0 | crate::rcpt::spec_notify_flag(t1)->Ok_0, t2);
}

/// Folding three recognized flag tokens.
proof fn lemma_fold_three(b0: u8, t1: Seq<u8>, t2: Seq<u8>, t3: Seq<u8>)
    requires
        crate::rcpt::spec_notify_flag(t1) is Ok,
        crate::rcpt::spec_notify_flag(t2) is Ok,
        crate::rcpt::spec_notify_flag(t3) is Ok,
    ensures
        spec_fold_notify(b0, seq![t1, t2, t3]) == Ok::<u8, Error>(
            ((b0 | crate::rcpt::spec_notify_flag(t1)->Ok_0) | crate::rcpt::spec_notify_flag(
                t2,
            )->Ok_0) | crate::rcpt::spec_notify_flag(t3)->Ok_0,
        ),
{
    assert(seq![t1, t2, t3].skip(1) =~= seq![t2, t3]);
    lemma_fold_two(b0 | crate::rcpt::spec_notify_flag(t1)->Ok_0, t2, t3);
}

/// Reparsing the encoded form of a notify bitset yields the same bitset:
/// the `NOTIFY` value normalizes to itself.
pub proof fn lemma_notify_round_trip(bits: u8)
    requires
        bits < 8,
    ensures
        spec_parse_notify(spec_notify_value(bits)) == Ok::<u8, Error>(bits),
{
    let dl = spec_lit_delay();
    let fl = spec_lit_failure();
    let sl = spec_lit_success();
    assert(spec_upper(spec_lit_never()) =~= spec_lit_never());
    assert(spec_upper(dl) =~= dl);
    assert(spec_upper(fl) =~= fl);
    assert(spec_upper(sl) =~= sl);
    if bits == 0 {
    } else {
        let v = spec_notify_value(bits);
        // The value starts with `D`, `F` or `S`, never `N`.
        assert(spec_upper(v) != spec_lit_never()) by {
            if spec_upper(v) == spec_lit_never() {
                assert(spec_upper(v).len() == spec_lit_never().len());
                assert(spec_upper(v)[0] == spec_lit_never()[0]);
                if bits & 1 != 0 {
                    assert(v[0] == dl[0]);
                } else if bits & 2 != 0 {
                    assert(v[0] == fl[0]);
                } else {
                    assert(bits & 4 != 0) by (bit_vector)
                        requires
                            0 < bits < 8 && bits & 1 == 0 && bits & 2 == 0,
                    ;
                    assert(v[0] == sl[0]);
                }
            }
        }
        if bits == 1 {
            assert(bits & 1 == 1 && bits & 2 == 0 && bits & 4 == 0) by (bit_vector)
                requires
                    bits == 1,
            ;
            assert(v =~= dl);
            lemma_tokens_one(dl, COMMA);
            lemma_fold_one(0, dl);
            assert(0u8 | 1u8 == 1u8) by (bit_vector);
        } else if bits == 2 {
            assert(bits & 1 == 0 && bits & 2 == 2 && bits & 4 == 0) by (bit_vector)
                requires
                    bits == 2,
            ;
            assert(v =~= fl);
            lemma_tokens_one(fl, COMMA);
            lemma_fold_one(0, fl);
            assert(0u8 | 2u8 == 2u8) by (bit_vector);
        } else if bits == 3 {
            assert(bits & 1 == 1 && bits & 2 == 2 && bits & 4 == 0) by (bit_vector)
                requires
                    bits == 3,
            ;
            assert(v =~= dl + seq![COMMA] + fl);
            lemma_tokens_two(dl, fl, COMMA);
            lemma_fold_two(0, dl, fl);
            assert(0u8 | 1u8 == 1u8) by (bit_vector);
            assert(1u8 | 2u8 == 3u8) by (bit_vector);
        } else if bits == 4 {
            assert(bits & 1 == 0 && bits & 2 == 0 && bits & 4 == 4) by (bit_vector)
                requires
                    bits == 4,
            ;
            assert(v =~= sl);
            lemma_tokens_one(sl, COMMA);
            lemma_fold_one(0, sl);
            assert(0u8 | 4u8 == 4u8) by (bit_vector);
        } else if bits == 5 {
            assert(bits & 1 == 1 && bits & 2 == 0 && bits & 4 == 4) by (bit_vector)
                requires
                    bits == 5,
            ;
            assert(v =~= dl + seq![COMMA] + sl);
            lemma_tokens_two(dl, sl, COMMA);
            lemma_fold_two(0, dl, sl);
            assert(0u8 | 1u8 == 1u8) by (bit_vector);
            assert(1u8 | 4u8 == 5u8) by (bit_vector);
        } else if bits == 6 {
            assert(bits & 1 == 0 && bits & 2 == 2 && bits & 4 == 4) by (bit_vector)
                requires
                    bits == 6,
            ;
            assert(v =~= fl + seq![COMMA] + sl);
            lemma_tokens_two(fl, sl, COMMA);
            lemma_fold_two(0, fl, sl);
            assert(0u8 | 2u8 == 2u8) by (bit_vector);
            assert(2u8 | 4u8 == 6u8) by (bit_vector);
        } else {
            assert(bits == 7) by (bit_vector)
                requires
                    bits < 8 && bits != 0 && bits != 1 && bits != 2 && bits != 3 && bits != 4
                        && bits != 5 && bits != 6,
            ;
            assert(bits & 1 == 1 && bits & 2 == 2 && bits & 4 == 4) by (bit_vector)
                requires
                    bits == 7,
            ;
            assert(v =~= dl + seq![COMMA] + fl + seq![COMMA] + sl);
            lemma_tokens_three(dl, fl, sl, COMMA);
            lemma_fold_three(0, dl, fl, sl);
            assert(0u8 | 1u8 == 1u8) by (bit_vector);
            assert(1u8 | 2u8 == 3u8) by (bit_vector);
            assert(3u8 | 4u8 == 7u8) by (bit_vector);
        }
    }
}

/// Parsing the encoded form of a parameterless command — `RSET`, `NOOP` or
/// `QUIT` — yields the same command and consumes the whole encoding: the
/// round-trip law for the commands without arguments.
pub proof fn lemma_round_trip_no_args(c: CommandV, max: usize)
    requires
        c is Rset || c is Noop || c is Quit,
        6 <= max,
    ensures
        spec_step(State::Command, max, spec_wire_command(c)) == (StepV {
            state: State::Command,
            buf: Seq::<u8>::empty(),
            result: Ok::<Option<CommandV>, Error>(Some(c)),
        }),
{
    let wire = spec_wire_command(c);
    let line = wire.take(4);
    assert(wire.len() == 6);
    assert forall|k: int| 0 <= k < 4 implies #[trigger] wire.subrange(k, k + 2)
        != spec_crlf() by {
        if wire.subrange(k, k + 2) == spec_crlf() {
            assert(wire.subrange(k, k + 2)[0] == wire[k]);
            assert(wire[k] == 0x0d);
        }
    }
    assert(wire.subrange(4, 6) =~= spec_crlf());
    crate::grammar::lemma_find_seq_found(wire, spec_crlf(), 4);
    assert(forall|i: int| 0 <= i < line.len() ==> line[i] != SPACE);
    lemma_tokens_one(line, SPACE);
    assert(spec_upper(line) =~= line);
    assert(seq![line].skip(1) =~= Seq::<Seq<u8>>::empty());
    assert(wire.skip(6) =~= Seq::<u8>::empty());
    match c {
        CommandV::Rset => {
            assert(line =~= crate::command::spec_lit_rset());
            assert(line != crate::command::spec_lit_helo()) by {
                assert(line[0] != crate::command::spec_lit_helo()[0]);
            }
            assert(line != crate::command::spec_lit_ehlo()) by {
                assert(line[0] != crate::command::spec_lit_ehlo()[0]);
            }
            assert(line != crate::command::spec_lit_mail()) by {
                assert(line[0] != crate::command::spec_lit_mail()[0]);
            }
            assert(line != crate::command::spec_lit_rcpt()) by {
                assert(line[1] != crate::command::spec_lit_rcpt()[1]);
            }
            assert(line != crate::command::spec_lit_data()) by {
                assert(line[0] != crate::command::spec_lit_data()[0]);
            }
        },
        CommandV::Noop => {
            assert(line =~= crate::command::spec_lit_noop());
            assert(line != crate::command::spec_lit_helo()) by {
                assert(line[0] != crate::command::spec_lit_helo()[0]);
            }
            assert(line != crate::command::spec_lit_ehlo()) by {
                assert(line[0] != crate::command::spec_lit_ehlo()[0]);
            }
            assert(line != crate::command::spec_lit_mail()) by {
                assert(line[0] != crate::command::spec_lit_mail()[0]);
            }
            assert(line != crate::command::spec_lit_rcpt()) by {
                assert(line[0] != crate::command::spec_lit_rcpt()[0]);
            }
            assert(line != crate::command::spec_lit_data()) by {
                assert(line[0] != crate::command::spec_lit_data()[0]);
            }
            assert(line != crate::command::spec_lit_rset()) by {
                assert(line[0] != crate::command::spec_lit_rset()[0]);
            }
        },
        _ => {
            assert(line =~= crate::command::spec_lit_quit());
            assert(line != crate::command::spec_lit_helo()) by {
                assert(line[0] != crate::command::spec_lit_helo()[0]);
            }
            assert(line != crate::command::spec_lit_ehlo()) by {
                assert(line[0] != crate::command::spec_lit_ehlo()[0]);
            }
            assert(line != crate::command::spec_lit_mail()) by {
                assert(line[0] != crate::command::spec_lit_mail()[0]);
            }
            assert(line != crate::command::spec_lit_rcpt()) by {
                assert(line[0] != crate::command::spec_lit_rcpt()[0]);
            }
            assert(line != crate::command::spec_lit_data()) by {
                assert(line[0] != crate::command::spec_lit_data()[0]);
            }
            assert(line != crate::command::spec_lit_rset()) by {
                assert(line[0] != crate::command::spec_lit_rset()[0]);
            }
            assert(line != crate::command::spec_lit_noop()) by {
                assert(line[0] != crate::command::spec_lit_noop()[0]);
            }
        },
    }
    assert(spec_parse_command(line) == Ok::<CommandV, Error>(c));
    assert(spec_step(State::Command, max, wire) == (StepV {
        state: State::Command,
        buf: Seq::<u8>::empty(),
        result: Ok::<Option<CommandV>, Error>(Some(c)),
    }));
}

/// When every split token holds only alphanumerics and hyphens, every byte
/// of the input is alphanumeric, a hyphen, or the delimiter.
proof fn lemma_split_bytes(s: Seq<u8>, d: u8)
    requires
        forall|i: int, j: int|
            0 <= i < spec_split(s, d).len() && 0 <= j < spec_split(s, d)[i].len()
                ==> spec_is_alnum(#[trigger] spec_split(s, d)[i][j]) || spec_split(s, d)[i][j]
                == HYPHEN,
    ensures
        forall|k: int|
            0 <= k < s.len() ==> spec_is_alnum(#[trigger] s[k]) || s[k] == HYPHEN || s[k] == d,
    decreases s.len(),
{
    if s.len() == 0 {
    } else if s[0] == d {
        let t = s.skip(1);
        assert forall|i: int, j: int|
            0 <= i < spec_split(t, d).len() && 0 <= j < spec_split(t, d)[i].len() implies
            spec_is_alnum(#[trigger] spec_split(t, d)[i][j]) || spec_split(t, d)[i][j]
            == HYPHEN by {
            assert(spec_split(s, d)[i + 1] == spec_split(t, d)[i]);
            assert(spec_is_alnum(spec_split(s, d)[i + 1][j]) || spec_split(s, d)[i + 1][j]
                == HYPHEN);
        }
        lemma_split_bytes(t, d);
        assert forall|k: int|
            0 <= k < s.len() implies spec_is_alnum(#[trigger] s[k]) || s[k] == HYPHEN || s[k]
            == d by {
            if k > 0 {
                assert(s[k] == t[k - 1]);
            }
        }
    } else {
        let t = s.skip(1);
        let r = spec_split(t, d);
        lemma_split_nonempty(t, d);
        assert(spec_split(s, d)[0] == seq![s[0]] + r[0]);
        assert forall|i: int, j: int|
            0 <= i < r.len() && 0 <= j < r[i].len() implies spec_is_alnum(#[trigger] r[i][j])
            || r[i][j] == HYPHEN by {
            if i == 0 {
                assert(spec_split(s, d)[0][j + 1] == r[0][j]);
                assert(spec_is_alnum(spec_split(s, d)[0][j + 1]) || spec_split(s, d)[0][j + 1]
                    == HYPHEN);
            } else {
                assert(spec_split(s, d)[i] == r[i]);
                assert(spec_is_alnum(spec_split(s, d)[i][j]) || spec_split(s, d)[i][j] == HYPHEN);
            }
        }
        lemma_split_bytes(t, d);
        assert forall|k: int|
            0 <= k < s.len() implies spec_is_alnum(#[trigger] s[k]) || s[k] == HYPHEN || s[k]
            == d by {
            if k == 0 {
                assert(s[0] == spec_split(s, d)[0][0]);
                assert(spec_is_alnum(spec_split(s, d)[0][0]) || spec_split(s, d)[0][0] == HYPHEN);
            } else {
                assert(s[k] == t[k - 1]);
            }
        }
    }
}

/// Every byte of a domain is alphanumeric, a hyphen, or a dot.
pub proof fn lemma_domain_bytes(s: Seq<u8>)
    requires
        spec_is_domain(s),
    ensures
        forall|k: int|
            0 <= k < s.len() ==> spec_is_alnum(#[trigger] s[k]) || s[k] == HYPHEN || s[k] == DOT,
        s.len() > 0,
{
    let parts = spec_split(s, DOT);
    assert forall|i: int, j: int|
        0 <= i < parts.len() && 0 <= j < parts[i].len() implies spec_is_alnum(
        #[trigger] parts[i][j],
    ) || parts[i][j] == HYPHEN by {
        if forall|i2: int| 0 <= i2 < parts.len() ==> spec_is_subdomain(#[trigger] parts[i2]) {
            assert(spec_is_subdomain(parts[i]));
        } else {
            assert(parts.len() == 2 && parts[1].len() == 0 && spec_is_subdomain(parts[0]));
            assert(spec_is_subdomain(parts[i]) || parts[i].len() == 0);
        }
    }
    lemma_split_bytes(s, DOT);
    if s.len() == 0 {
        assert(s =~= Seq::<u8>::empty());
        assert(parts =~~= seq![Seq::<u8>::empty()]);
        assert(!spec_is_subdomain(parts[0]));
        assert(false);
    }
}

/// The decimal digit string of a number is well formed and reads back to
/// the number.
pub proof fn lemma_dec_str_val(v: int)
    requires
        0 <= v,
    ensures
        spec_is_dec(crate::serialize::spec_dec_str(v)),
        spec_dec_val(crate::serialize::spec_dec_str(v)) == v,
    decreases v,
{
    let s = crate::serialize::spec_dec_str(v);
    if v < 10 {
        assert(s =~= seq![(0x30 + v) as u8]);
        assert(s.take(s.len() - 1) =~= Seq::<u8>::empty());
        assert(spec_dec_val(Seq::<u8>::empty()) == 0);
        assert(s[s.len() - 1] == (0x30 + v) as u8);
    } else {
        lemma_dec_str_val(v / 10);
        let p = crate::serialize::spec_dec_str(v / 10);
        assert(s == p.push((0x30 + v % 10) as u8));
        assert(s.take(s.len() - 1) =~= p);
        assert(s[s.len() - 1] == (0x30 + v % 10) as u8);
        assert(spec_dec_val(s) == spec_dec_val(p) * 10 + v % 10);
        assert((v / 10) * 10 + v % 10 == v) by (nonlinear_arith)
            requires
                v >= 0,
        ;
        assert forall|i: int| 0 <= i < s.len() implies crate::grammar::spec_is_digit(
            #[trigger] s[i],
        ) by {
            if i < s.len() - 1 {
                assert(s[i] == p[i]);
            }
        }
    }
}

/// Ten to the `n`-th power.
spec fn spec_pow10(n: nat) -> int
    decreases n,
{
    if n == 0 {
        1
    } else {
        10 * spec_pow10((n - 1) as nat)
    }
}

/// A number below ten to the `n`-th has at most `n` digits (one digit for
/// zero).
proof fn lemma_dec_str_len(v: int, n: nat)
    requires
        0 <= v < spec_pow10(n),
        n >= 1,
    ensures
        crate::serialize::spec_dec_str(v).len() <= n,
    decreases v,
{
    if v >= 10 {
        assert(spec_pow10(n) == 10 * spec_pow10((n - 1) as nat));
        assert(v / 10 < spec_pow10((n - 1) as nat)) by (nonlinear_arith)
            requires
                v < 10 * spec_pow10((n - 1) as nat) && v >= 10,
        ;
        assert((n - 1) as nat >= 1) by {
            if n == 1 {
                assert(spec_pow10(1int as nat) == 10);
                assert(false);
            }
        }
        lemma_dec_str_len(v / 10, (n - 1) as nat);
    }
}

/// The digit string of any machine-word number has at most twenty digits.
pub proof fn lemma_dec_str_len_word(v: usize)
    ensures
        crate::serialize::spec_dec_str(v as int).len() <= 20,
{
    assert(spec_pow10(0) == 1);
    assert(spec_pow10(1) == 10);
    assert(spec_pow10(2) == 100);
    assert(spec_pow10(3) == 1000);
    assert(spec_pow10(4) == 10000);
    assert(spec_pow10(5) == 100000);
    assert(spec_pow10(6) == 1000000);
    assert(spec_pow10(7) == 10000000);
    assert(spec_pow10(8) == 100000000);
    assert(spec_pow10(9) == 1000000000);
    assert(spec_pow10(10) == 10000000000);
    assert(spec_pow10(11) == 100000000000);
    assert(spec_pow10(12) == 1000000000000);
    assert(spec_pow10(13) == 10000000000000);
    assert(spec_pow10(14) == 100000000000000);
    assert(spec_pow10(15) == 1000000000000000);
    assert(spec_pow10(16) == 10000000000000000);
    assert(spec_pow10(17) == 100000000000000000);
    assert(spec_pow10(18) == 1000000000000000000);
    assert(spec_pow10(19) == 10000000000000000000);
    assert(spec_pow10(20) == 100000000000000000000);
    assert((v as int) < spec_pow10(20));
    lemma_dec_str_len(v as int, 20);
}

/// Parsing the encoded form of a `HELO` command with a canonically stored
/// domain yields the same command and consumes the whole encoding.
pub proof fn lemma_round_trip_helo(d: Seq<u8>, max: usize)
    requires
        spec_is_domain(d),
        d[d.len() - 1] != DOT,
        d.len() <= 505,
        d.len() + 7 <= max,
    ensures
        spec_step(State::Command, max, spec_wire_command(CommandV::Helo(HostV::Domain(d)))) == (
        StepV {
            state: State::Command,
            buf: Seq::<u8>::empty(),
            result: Ok::<Option<CommandV>, Error>(Some(CommandV::Helo(HostV::Domain(d)))),
        }),
{
    lemma_domain_bytes(d);
    let head = seq![0x48u8, 0x45u8, 0x4cu8, 0x4fu8, 0x20u8];
    let wire = spec_wire_command(CommandV::Helo(HostV::Domain(d)));
    let pos = 5 + d.len() as int;
    assert(wire == head + crate::serialize::spec_wire_host(HostV::Domain(d))
        + crate::parser::spec_crlf());
    assert(wire.len() == pos + 2);
    // No byte before the terminator is a CR: the verb, the space, and the
    // domain's alphabet exclude it.
    assert forall|k: int| 0 <= k < pos implies #[trigger] wire.subrange(k, k + 2)
        != spec_crlf() by {
        if wire.subrange(k, k + 2) == spec_crlf() {
            assert(wire.subrange(k, k + 2)[0] == wire[k]);
            if k >= 5 {
                assert(wire[k] == d[k - 5]);
            }
            assert(wire[k] == 0x0d);
        }
    }
    assert(wire.subrange(pos, pos + 2) =~= spec_crlf());
    crate::grammar::lemma_find_seq_found(wire, spec_crlf(), pos);
    let line = wire.take(pos);
    assert(line =~= head + d);
    // The line splits at the single space into the verb and the domain.
    let verb = seq![0x48u8, 0x45u8, 0x4cu8, 0x4fu8];
    assert(forall|i: int| 0 <= i < verb.len() ==> verb[i] != SPACE);
    assert forall|i: int| 0 <= i < d.len() implies d[i] != SPACE by {
        assert(spec_is_alnum(d[i]) || d[i] == HYPHEN || d[i] == DOT);
    }
    assert(line =~= verb + seq![SPACE] + d);
    lemma_tokens_two(verb, d, SPACE);
    assert(spec_upper(verb) =~= verb);
    assert(verb =~= crate::command::spec_lit_helo());
    assert(seq![verb, d].skip(1) =~= seq![d]);
    assert(crate::types::spec_domain_canon(d) == d);
    assert(spec_parse_command(line) == Ok::<CommandV, Error>(CommandV::Helo(HostV::Domain(d))));
    assert(wire.skip(pos + 2) =~= Seq::<u8>::empty());
    assert(spec_step(State::Command, max, wire) == (StepV {
        state: State::Command,
        buf: Seq::<u8>::empty(),
        result: Ok::<Option<CommandV>, Error>(Some(CommandV::Helo(HostV::Domain(d)))),
    }));
}

/// Parsing the encoded form of an `EHLO` command with a canonically stored
/// domain yields the same command and consumes the whole encoding.
pub proof fn lemma_round_trip_ehlo_domain(d: Seq<u8>, max: usize)
    requires
        spec_is_domain(d),
        d[d.len() - 1] != DOT,
        d.len() <= 505,
        d.len() + 7 <= max,
    ensures
        spec_step(State::Command, max, spec_wire_command(CommandV::Ehlo(HostV::Domain(d)))) == (
        StepV {
            state: State::Command,
            buf: Seq::<u8>::empty(),
            result: Ok::<Option<CommandV>, Error>(Some(CommandV::Ehlo(HostV::Domain(d)))),
        }),
{
    lemma_domain_bytes(d);
    let head = seq![0x45u8, 0x48u8, 0x4cu8, 0x4fu8, 0x20u8];
    let wire = spec_wire_command(CommandV::Ehlo(HostV::Domain(d)));
    let pos = 5 + d.len() as int;
    assert(wire == head + crate::serialize::spec_wire_host(HostV::Domain(d))
        + crate::parser::spec_crlf());
    assert(wire.len() == pos + 2);
    assert forall|k: int| 0 <= k < pos implies #[trigger] wire.subrange(k, k + 2)
        != spec_crlf() by {
        if wire.subrange(k, k + 2) == spec_crlf() {
            assert(wire.subrange(k, k + 2)[0] == wire[k]);
            if k >= 5 {
                assert(wire[k] == d[k - 5]);
            }
            assert(wire[k] == 0x0d);
        }
    }
    assert(wire.subrange(pos, pos + 2) =~= spec_crlf());
    crate::grammar::lemma_find_seq_found(wire, spec_crlf(), pos);
    let line = wire.take(pos);
    assert(line =~= head + d);
    let verb = seq![0x45u8, 0x48u8, 0x4cu8, 0x4fu8];
    assert(forall|i: int| 0 <= i < verb.len() ==> verb[i] != SPACE);
    assert forall|i: int| 0 <= i < d.len() implies d[i] != SPACE by {
        assert(spec_is_alnum(d[i]) || d[i] == HYPHEN || d[i] == DOT);
    }
    assert(line =~= verb + seq![SPACE] + d);
    lemma_tokens_two(verb, d, SPACE);
    assert(spec_upper(verb) =~= verb);
    assert(verb =~= crate::command::spec_lit_ehlo());
    assert(verb != crate::command::spec_lit_helo()) by {
        assert(verb[0] != crate::command::spec_lit_helo()[0]);
    }
    assert(seq![verb, d].skip(1) =~= seq![d]);
    // The domain is not bracketed, so the host reads as a domain.
    assert(d[0] != crate::types::BRACKET_OPEN) by {
        assert(spec_is_alnum(d[0]) || d[0] == HYPHEN || d[0] == DOT);
    }
    assert(crate::types::spec_domain_canon(d) == d);
    assert(crate::command::spec_parse_host(d) == Ok::<HostV, Error>(HostV::Domain(d)));
    assert(spec_parse_command(line) == Ok::<CommandV, Error>(CommandV::Ehlo(HostV::Domain(d))));
    assert(wire.skip(pos + 2) =~= Seq::<u8>::empty());
    assert(spec_step(State::Command, max, wire) == (StepV {
        state: State::Command,
        buf: Seq::<u8>::empty(),
        result: Ok::<Option<CommandV>, Error>(Some(CommandV::Ehlo(HostV::Domain(d)))),
    }));
}

/// Parsing the encoded form of a `RCPT` command with no parameters and a
/// recipient free of spaces and carriage returns yields the same command
/// and consumes the whole encoding.
#[verifier::rlimit(100)]
#[verifier::spinoff_prover]
pub proof fn lemma_round_trip_rcpt_basic(e: Seq<u8>, max: usize)
    requires
        spec_is_email(e),
        forall|k: int| 0 <= k < e.len() ==> e[k] != SPACE && e[k] != 0x0du8,
        e.len() <= 500,
        e.len() + 12 <= max,
    ensures
        ({
            let r = RcptV { orcpt: None, notify: None, to: e };
            spec_step(State::Command, max, spec_wire_command(CommandV::Rcpt(r))) == (StepV {
                state: State::Command,
                buf: Seq::<u8>::empty(),
                result: Ok::<Option<CommandV>, Error>(Some(CommandV::Rcpt(r))),
            })
        }),
{
    let r = RcptV { orcpt: None, notify: None, to: e };
    let wire = spec_wire_command(CommandV::Rcpt(r));
    let head = seq![0x52u8, 0x43u8, 0x50u8, 0x54u8, 0x20u8, 0x54u8, 0x4fu8, 0x3au8, 0x3cu8];
    let pos = 10 + e.len() as int;
    assert(wire =~= head + e + seq![0x3eu8] + spec_crlf());
    assert(wire.len() == pos + 2);
    assert forall|k: int| 0 <= k < pos implies #[trigger] wire.subrange(k, k + 2)
        != spec_crlf() by {
        if wire.subrange(k, k + 2) == spec_crlf() {
            assert(wire.subrange(k, k + 2)[0] == wire[k]);
            if 9 <= k < 9 + e.len() {
                assert(wire[k] == e[k - 9]);
            }
            assert(wire[k] == 0x0d);
        }
    }
    assert(wire.subrange(pos, pos + 2) =~= spec_crlf());
    crate::grammar::lemma_find_seq_found(wire, spec_crlf(), pos);
    let line = wire.take(pos);
    let verb = seq![0x52u8, 0x43u8, 0x50u8, 0x54u8];
    let arg = seq![0x54u8, 0x4fu8, 0x3au8, 0x3cu8] + e + seq![0x3eu8];
    assert(line =~= verb + seq![SPACE] + arg);
    assert(forall|i: int| 0 <= i < verb.len() ==> verb[i] != SPACE);
    assert forall|i: int| 0 <= i < arg.len() implies arg[i] != SPACE by {
        if 4 <= i < 4 + e.len() {
            assert(arg[i] == e[i - 4]);
        }
    }
    lemma_tokens_two(verb, arg, SPACE);
    assert(spec_upper(verb) =~= verb);
    assert(verb =~= crate::command::spec_lit_rcpt());
    assert(verb != crate::command::spec_lit_helo()) by {
        assert(verb[0] != crate::command::spec_lit_helo()[0]);
    }
    assert(verb != crate::command::spec_lit_ehlo()) by {
        assert(verb[0] != crate::command::spec_lit_ehlo()[0]);
    }
    assert(verb != crate::command::spec_lit_mail()) by {
        assert(verb[0] != crate::command::spec_lit_mail()[0]);
    }
    assert(seq![verb, arg].skip(1) =~= seq![arg]);
    // The argument carries the `TO:` prefix and the angled address.
    assert(arg.len() >= 3);
    assert(spec_upper(arg.take(3)) =~= crate::command::spec_lit_to_colon());
    let rp = arg.skip(3);
    assert(rp =~= seq![0x3cu8] + e + seq![0x3eu8]);
    assert(rp[0] == 0x3cu8 && rp[rp.len() - 1] == 0x3eu8);
    assert(rp.subrange(1, rp.len() - 1) =~= e);
    assert(seq![arg].skip(1) =~= Seq::<Seq<u8>>::empty());
    assert(crate::rcpt::spec_fold_rcpt_params(r, Seq::<Seq<u8>>::empty()) == Ok::<RcptV, Error>(
        r,
    ));
    assert(spec_parse_command(line) == Ok::<CommandV, Error>(CommandV::Rcpt(r)));
    assert(wire.skip(pos + 2) =~= Seq::<u8>::empty());
    assert(spec_step(State::Command, max, wire) == (StepV {
        state: State::Command,
        buf: Seq::<u8>::empty(),
        result: Ok::<Option<CommandV>, Error>(Some(CommandV::Rcpt(r))),
    }));
}

/// Parsing the encoded form of a `MAIL` command with no parameters and a
/// reverse path free of spaces and carriage returns yields the same
/// command and consumes the whole encoding.
#[verifier::rlimit(100)]
#[verifier::spinoff_prover]
pub proof fn lemma_round_trip_mail_basic(from: ReversePathV, max: usize)
    requires
        match from {
            ReversePathV::Null => true,
            ReversePathV::Email(e) => spec_is_email(e) && e.len() <= 490 && forall|k: int|
                0 <= k < e.len() ==> e[k] != SPACE && e[k] != 0x0du8,
        },
        512 <= max,
    ensures
        ({
            let m = MailV { size: None, ret: None, envid: None, auth: None, body: None, from };
            spec_step(State::Command, max, spec_wire_command(CommandV::Mail(m))) == (StepV {
                state: State::Command,
                buf: Seq::<u8>::empty(),
                result: Ok::<Option<CommandV>, Error>(Some(CommandV::Mail(m))),
            })
        }),
{
    let m = MailV { size: None, ret: None, envid: None, auth: None, body: None, from };
    let wire = spec_wire_command(CommandV::Mail(m));
    let head = seq![0x4du8, 0x41u8, 0x49u8, 0x4cu8, 0x20u8, 0x46u8, 0x52u8, 0x4fu8, 0x4du8,
        0x3au8];
    let rpw = crate::serialize::spec_wire_reverse_path(from);
    assert(wire =~= head + rpw + spec_crlf());
    let pos = 10 + rpw.len() as int;
    assert(wire.len() == pos + 2);
    assert(rpw[0] == 0x3cu8 && rpw[rpw.len() - 1] == 0x3eu8);
    assert forall|k: int| 0 <= k < rpw.len() implies rpw[k] != SPACE && rpw[k] != 0x0du8 by {
        match from {
            ReversePathV::Null => {},
            ReversePathV::Email(e) => {
                assert(rpw =~= seq![0x3cu8] + e + seq![0x3eu8]);
                if 1 <= k < 1 + e.len() {
                    assert(rpw[k] == e[k - 1]);
                }
            },
        }
    }
    assert forall|k: int| 0 <= k < pos implies #[trigger] wire.subrange(k, k + 2)
        != spec_crlf() by {
        if wire.subrange(k, k + 2) == spec_crlf() {
            assert(wire.subrange(k, k + 2)[0] == wire[k]);
            if k >= 10 {
                assert(wire[k] == rpw[k - 10]);
            }
            assert(wire[k] == 0x0d);
        }
    }
    assert(wire.subrange(pos, pos + 2) =~= spec_crlf());
    crate::grammar::lemma_find_seq_found(wire, spec_crlf(), pos);
    let line = wire.take(pos);
    let verb = seq![0x4du8, 0x41u8, 0x49u8, 0x4cu8];
    let arg = seq![0x46u8, 0x52u8, 0x4fu8, 0x4du8, 0x3au8] + rpw;
    assert(line =~= verb + seq![SPACE] + arg);
    assert(forall|i: int| 0 <= i < verb.len() ==> verb[i] != SPACE);
    assert forall|i: int| 0 <= i < arg.len() implies arg[i] != SPACE by {
        if i >= 5 {
            assert(arg[i] == rpw[i - 5]);
        }
    }
    lemma_tokens_two(verb, arg, SPACE);
    assert(spec_upper(verb) =~= verb);
    assert(verb =~= crate::command::spec_lit_mail());
    assert(verb != crate::command::spec_lit_helo()) by {
        assert(verb[0] != crate::command::spec_lit_helo()[0]);
    }
    assert(verb != crate::command::spec_lit_ehlo()) by {
        assert(verb[0] != crate::command::spec_lit_ehlo()[0]);
    }
    assert(seq![verb, arg].skip(1) =~= seq![arg]);
    assert(arg.len() >= 5);
    assert(spec_upper(arg.take(5)) =~= crate::command::spec_lit_from_colon());
    let rp = arg.skip(5);
    assert(rp =~= rpw);
    match from {
        ReversePathV::Null => {
            assert(rp =~= crate::mail::spec_lit_null_path());
        },
        ReversePathV::Email(e) => {
            assert(rp != crate::mail::spec_lit_null_path()) by {
                assert(e.len() > 0) by {
                    if e.len() == 0 {
                        assert(!spec_is_email(e));
                    }
                }
                assert(rp.len() != 2 || rp[1] != 0x3eu8 || e.len() == 1);
                if rp == crate::mail::spec_lit_null_path() {
                    assert(rp.len() == 2);
                    assert(e.len() == 0);
                }
            }
            assert(rp.subrange(1, rp.len() - 1) =~= e);
        },
    }
    assert(seq![arg].skip(1) =~= Seq::<Seq<u8>>::empty());
    assert(crate::mail::spec_fold_mail_params(m, Seq::<Seq<u8>>::empty()) == Ok::<MailV, Error>(
        m,
    ));
    assert(spec_parse_command(line) == Ok::<CommandV, Error>(CommandV::Mail(m)));
    assert(wire.skip(pos + 2) =~= Seq::<u8>::empty());
    assert(spec_step(State::Command, max, wire) == (StepV {
        state: State::Command,
        buf: Seq::<u8>::empty(),
        result: Ok::<Option<CommandV>, Error>(Some(CommandV::Mail(m))),
    }));
}

/// Parsing the encoded form of a `BDAT` command whose announced size is its
/// payload's length yields the same command and consumes the whole encoding.
#[verifier::rlimit(100)]
#[verifier::spinoff_prover]
pub proof fn lemma_round_trip_bdat(b: crate::command::BdatV, max: usize)
    requires
        b.size == b.payload.len(),
        b.payload.len() + 40 <= max,
    ensures
        spec_step(State::Command, max, spec_wire_command(CommandV::Bdat(b))) == (StepV {
            state: State::Command,
            buf: Seq::<u8>::empty(),
            result: Ok::<Option<CommandV>, Error>(Some(CommandV::Bdat(b))),
        }),
{
    let verb = seq![0x42u8, 0x44u8, 0x41u8, 0x54u8];
    let num = crate::serialize::spec_dec_str(b.size as int);
    let lastlit = crate::command::spec_lit_last();
    let tail: Seq<u8> = if b.last {
        seq![0x20u8] + lastlit
    } else {
        Seq::<u8>::empty()
    };
    let wire = spec_wire_command(CommandV::Bdat(b));
    lemma_dec_str_val(b.size as int);
    lemma_dec_str_len_word(b.size);
    let pos = 5 + num.len() as int + tail.len() as int;
    assert(wire =~= verb + seq![SPACE] + num + tail + spec_crlf() + b.payload);
    assert(pos <= 31);
    assert(wire.len() <= max);
    // The header holds no CR: verb letters, a space, digits, and possibly
    // a space and `LAST`.
    assert forall|k: int| 0 <= k < pos implies #[trigger] wire.subrange(k, k + 2)
        != spec_crlf() by {
        if wire.subrange(k, k + 2) == spec_crlf() {
            assert(wire.subrange(k, k + 2)[0] == wire[k]);
            if 5 <= k < 5 + num.len() {
                assert(wire[k] == num[k - 5]);
                assert(crate::grammar::spec_is_digit(num[k - 5]));
            }
            if b.last && k >= 5 + num.len() + 1 {
                assert(wire[k] == lastlit[k - 5 - num.len() - 1]);
            }
            assert(wire[k] == 0x0d);
        }
    }
    assert(wire.subrange(pos, pos + 2) =~= spec_crlf());
    crate::grammar::lemma_find_seq_found(wire, spec_crlf(), pos);
    let line = wire.take(pos);
    assert(forall|i: int| 0 <= i < verb.len() ==> verb[i] != SPACE);
    assert forall|i: int| 0 <= i < num.len() implies num[i] != SPACE by {
        assert(crate::grammar::spec_is_digit(num[i]));
    }
    assert(forall|i: int| 0 <= i < lastlit.len() ==> lastlit[i] != SPACE);
    if b.last {
        assert(line =~= verb + seq![SPACE] + num + seq![SPACE] + lastlit);
        lemma_tokens_three(verb, num, lastlit, SPACE);
        assert(seq![verb, num, lastlit].skip(1) =~= seq![num, lastlit]);
        assert(spec_upper(lastlit) =~= lastlit);
    } else {
        assert(line =~= verb + seq![SPACE] + num);
        lemma_tokens_two(verb, num, SPACE);
        assert(seq![verb, num].skip(1) =~= seq![num]);
    }
    assert(spec_upper(verb) =~= verb);
    assert(verb =~= crate::command::spec_lit_bdat());
    assert(verb != crate::command::spec_lit_helo()) by {
        assert(verb[0] != crate::command::spec_lit_helo()[0]);
    }
    assert(verb != crate::command::spec_lit_ehlo()) by {
        assert(verb[0] != crate::command::spec_lit_ehlo()[0]);
    }
    assert(verb != crate::command::spec_lit_mail()) by {
        assert(verb[0] != crate::command::spec_lit_mail()[0]);
    }
    assert(verb != crate::command::spec_lit_rcpt()) by {
        assert(verb[0] != crate::command::spec_lit_rcpt()[0]);
    }
    assert(verb != crate::command::spec_lit_data()) by {
        assert(verb[1] != crate::command::spec_lit_data()[1]);
    }
    assert(verb != crate::command::spec_lit_rset()) by {
        assert(verb[0] != crate::command::spec_lit_rset()[0]);
    }
    assert(verb != crate::command::spec_lit_noop()) by {
        assert(verb[0] != crate::command::spec_lit_noop()[0]);
    }
    assert(verb != crate::command::spec_lit_quit()) by {
        assert(verb[0] != crate::command::spec_lit_quit()[0]);
    }
    let placeholder = crate::command::BdatV { size: b.size, last: b.last, payload: Seq::<u8>::empty() };
    assert(spec_parse_command(line) == Ok::<CommandV, Error>(CommandV::Bdat(placeholder)));
    // The line is consumed and the machine turns to chunk framing, where
    // exactly the payload remains.
    let rest = wire.skip(pos + 2);
    assert(rest =~= b.payload);
    assert(rest.take(b.size as int) =~= b.payload);
    assert(rest.skip(b.size as int) =~= Seq::<u8>::empty());
    assert(spec_step(State::Bdat { size: b.size, last: b.last }, max, rest) == (StepV {
        state: State::Command,
        buf: Seq::<u8>::empty(),
        result: Ok::<Option<CommandV>, Error>(Some(CommandV::Bdat(b))),
    }));
    assert(spec_step(State::Command, max, wire) == spec_step(
        State::Bdat { size: b.size, last: b.last },
        max,
        rest,
    ));
}

/// Parsing the encoded form of a `DATA` command whose payload holds no body
/// terminator and no over-long complete line yields the same command and
/// consumes the whole encoding.
pub proof fn lemma_round_trip_data(p: Seq<u8>, max: usize)
    requires
        forall|k: int|
            0 <= k < p.len() ==> #[trigger] (p + crate::parser::spec_data_end()).subrange(k, k + 5)
                != crate::parser::spec_data_end(),
        crate::parser::spec_data_lines_ok(p),
        p.len() + 11 <= max,
    ensures
        spec_step(State::Command, max, spec_wire_command(CommandV::Data(p))) == (StepV {
            state: State::Command,
            buf: Seq::<u8>::empty(),
            result: Ok::<Option<CommandV>, Error>(Some(CommandV::Data(p))),
        }),
{
    let verb = seq![0x44u8, 0x41u8, 0x54u8, 0x41u8];
    let term = crate::parser::spec_data_end();
    let wire = spec_wire_command(CommandV::Data(p));
    assert(wire =~= verb + spec_crlf() + p + term);
    // The verb holds no CR, so the line ends right after it.
    assert forall|k: int| 0 <= k < 4 implies #[trigger] wire.subrange(k, k + 2)
        != spec_crlf() by {
        if wire.subrange(k, k + 2) == spec_crlf() {
            assert(wire.subrange(k, k + 2)[0] == wire[k]);
            assert(wire[k] == 0x0d);
        }
    }
    assert(wire.subrange(4, 6) =~= spec_crlf());
    crate::grammar::lemma_find_seq_found(wire, spec_crlf(), 4);
    let line = wire.take(4);
    assert(line =~= verb);
    lemma_tokens_one(verb, SPACE);
    assert(spec_upper(verb) =~= verb);
    assert(verb =~= crate::command::spec_lit_data());
    assert(verb != crate::command::spec_lit_helo()) by {
        assert(verb[0] != crate::command::spec_lit_helo()[0]);
    }
    assert(verb != crate::command::spec_lit_ehlo()) by {
        assert(verb[0] != crate::command::spec_lit_ehlo()[0]);
    }
    assert(verb != crate::command::spec_lit_mail()) by {
        assert(verb[0] != crate::command::spec_lit_mail()[0]);
    }
    assert(verb != crate::command::spec_lit_rcpt()) by {
        assert(verb[0] != crate::command::spec_lit_rcpt()[0]);
    }
    assert(seq![verb].skip(1) =~= Seq::<Seq<u8>>::empty());
    assert(spec_parse_command(line) == Ok::<CommandV, Error>(CommandV::Data(Seq::<u8>::empty())));
    // The machine turns to body framing; the terminator is first found
    // right after the payload.
    let rest = wire.skip(6);
    assert(rest =~= p + term);
    assert(rest.subrange(p.len() as int, p.len() as int + 5) =~= term);
    crate::grammar::lemma_find_seq_found(rest, term, p.len() as int);
    assert(rest.take(p.len() as int) =~= p);
    assert(rest.skip(p.len() as int + 5) =~= Seq::<u8>::empty());
    assert(spec_step(State::Data, max, rest) == (StepV {
        state: State::Command,
        buf: Seq::<u8>::empty(),
        result: Ok::<Option<CommandV>, Error>(Some(CommandV::Data(p))),
    }));
}

} // verus!
