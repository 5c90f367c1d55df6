//! The streaming command parser: a state machine that consumes bytes from
//! the front of a caller-owned buffer and produces commands, managing
//! command, `DATA` and `BDAT` framing and the length ceilings.

use vstd::prelude::*;

use crate::bytebuf::{
    bytes_as_slice, bytes_mut_advance, bytes_mut_as_slice, bytes_mut_clear, bytes_mut_freeze,
    bytes_mut_len, bytes_mut_split_to, bytes_mut_view,
};
use crate::command::{Bdat, Command, CommandV};
use crate::error::Error;
use crate::grammar::{find_seq, lemma_find_seq_absent, lemma_find_seq_found, spec_find_seq};
use crate::max;

verus! {

/// `\r`, the first byte of a line terminator.
pub const CR: u8 = 0x0d;

/// `\n`, the second byte of a line terminator.
pub const LF: u8 = 0x0a;

/// The default whole-buffer ceiling: 25 MiB.
pub const DEFAULT_MAX: usize = 1024 * 1024 * 25;

/// The line terminator `\r\n`.
pub open spec fn spec_crlf() -> Seq<u8> {
    seq![0x0du8, 0x0au8]
}

/// The `DATA` body terminator `\r\n.\r\n`.
pub open spec fn spec_data_end() -> Seq<u8> {
    seq![0x0du8, 0x0au8, 0x2eu8, 0x0du8, 0x0au8]
}

/// Every complete `\r\n`-terminated line of a `DATA` body stays within the
/// line ceiling.  The tail after the last terminator is not a line.
pub open spec fn spec_data_lines_ok(s: Seq<u8>) -> bool
    decreases s.len(),
{
    match spec_find_seq(s, spec_crlf()) {
        None => true,
        Some(p) => if 0 <= p && p + 2 <= s.len() {
            p <= max::DATA_LINE && spec_data_lines_ok(s.skip(p + 2))
        } else {
            true
        },
    }
}

/// The parser's framing state.
#[derive(Debug, Clone, Copy, PartialEq, Eq, Structural)]
pub enum State {
    /// Awaiting a command line.
    Command,
    /// Consuming a `DATA` body up to `\r\n.\r\n`.
    Data,
    /// Consuming a length-prefixed `BDAT` chunk.
    Bdat { size: usize, last: bool },
}

/// The outcome of one `parse` call: the next state, the remaining buffer,
/// and what the caller receives.
pub struct StepV {
    pub state: State,
    pub buf: Seq<u8>,
    pub result: Result<Option<CommandV>, Error>,
}

/// What one `parse` call does, as a function of state, ceiling and buffer.
///
/// An over-full buffer is cleared.  In command framing, an over-long line is
/// discarded up to (but not including) its CRLF; otherwise the line is
/// consumed together with its CRLF and read as a command, and `DATA` or
/// `BDAT` switch framing and continue on the rest.  In `DATA` framing the
/// body runs to `\r\n.\r\n` and its complete lines are held to the line
/// ceiling.  In `BDAT` framing an announced size over the ceiling discards
/// what has arrived; otherwise exactly `size` bytes are the payload.
pub open spec fn spec_step(state: State, max: usize, buf: Seq<u8>) -> StepV
    decreases buf.len(),
{
    if buf.len() > max {
        StepV {
            state: State::Command,
            buf: Seq::<u8>::empty(),
            result: Err(Error::TooLong),
        }
    } else {
        match state {
            State::Command => match spec_find_seq(buf, spec_crlf()) {
                None => StepV { state: State::Command, buf, result: Ok(None) },
                Some(pos) => if !(0 <= pos && pos + 2 <= buf.len()) {
                    StepV { state: State::Command, buf, result: Ok(None) }
                } else if pos > max::COMMAND_LINE {
                    StepV {
                        state: State::Command,
                        buf: buf.skip(pos),
                        result: Err(Error::TooLong),
                    }
                } else {
                    let rest = buf.skip(pos + 2);
                    match crate::command::spec_parse_command(buf.take(pos)) {
                        Err(e) => StepV { state: State::Command, buf: rest, result: Err(e) },
                        Ok(CommandV::Data(_)) => spec_step(State::Data, max, rest),
                        Ok(CommandV::Bdat(b)) => spec_step(
                            State::Bdat { size: b.size, last: b.last },
                            max,
                            rest,
                        ),
                        Ok(c) => StepV { state: State::Command, buf: rest, result: Ok(Some(c)) },
                    }
                },
            },
            State::Data => match spec_find_seq(buf, spec_data_end()) {
                None => StepV { state: State::Data, buf, result: Ok(None) },
                Some(pos) => if !(0 <= pos && pos + 5 <= buf.len()) {
                    StepV { state: State::Data, buf, result: Ok(None) }
                } else {
                    let payload = buf.take(pos);
                    let rest = buf.skip(pos + 5);
                    if spec_data_lines_ok(payload) {
                        StepV {
                            state: State::Command,
                            buf: rest,
                            result: Ok(Some(CommandV::Data(payload))),
                        }
                    } else {
                        StepV { state: State::Command, buf: rest, result: Err(Error::TooLong) }
                    }
                },
            },
            State::Bdat { size, last } => if size > max {
                let m: int = if size <= buf.len() {
                    size as int
                } else {
                    buf.len() as int
                };
                StepV { state: State::Command, buf: buf.skip(m), result: Err(Error::TooLong) }
            } else if buf.len() < size {
                StepV { state, buf, result: Ok(None) }
            } else {
                StepV {
                    state: State::Command,
                    buf: buf.skip(size as int),
                    result: Ok(
                        Some(
                            CommandV::Bdat(
                                crate::command::BdatV {
                                    size,
                                    last,
                                    payload: buf.take(size as int),
                                },
                            ),
                        ),
                    ),
                }
            },
        }
    }
}

/// Check the complete lines of a `DATA` body against the line ceiling.
fn data_lines_ok(s: &[u8]) -> (r: bool)
    ensures
        r == spec_data_lines_ok(s@),
{
    let ghost whole = s@;
    proof {
        assert(whole.skip(0) =~= whole);
    }
    let mut i: usize = 0;
    loop
        invariant
            0 <= i <= whole.len(),
            s@ == whole,
            spec_data_lines_ok(whole) <==> spec_data_lines_ok(whole.skip(i as int)),
        decreases whole.len() - i,
    {
        let ghost rem = whole.skip(i as int);
        proof {
            assert(spec_crlf() =~= seq![0x0du8, 0x0au8]);
        }
        let j = match find_seq(s, i, &[CR, LF]) {
            Some(j) => j,
            None => {
                proof {
                    assert forall|k: int| 0 <= k && k + 2 <= rem.len() implies #[trigger] rem
                        .subrange(k, k + 2) != spec_crlf() by {
                        assert(rem.subrange(k, k + 2) =~= whole.subrange(i + k, i + k + 2));
                    }
                    lemma_find_seq_absent(rem, spec_crlf());
                }
                return true;
            },
        };
        proof {
            assert(rem.subrange(j - i, j - i + 2) =~= whole.subrange(j as int, j + 2));
            assert forall|k: int| 0 <= k < j - i implies #[trigger] rem.subrange(k, k + 2)
                != spec_crlf() by {
                assert(rem.subrange(k, k + 2) =~= whole.subrange(i + k, i + k + 2));
            }
            lemma_find_seq_found(rem, spec_crlf(), j - i);
            assert(rem.skip(j - i + 2) =~= whole.skip(j + 2));
        }
        if j - i > max::DATA_LINE {
            return false;
        }
        let n = s.len();
        proof {
            assert(j + 2 <= n);
        }
        i = j + 2;
    }
}

/// # Parser State Machine
///
/// Consumes bytes from the front of a caller-owned buffer and produces
/// commands, exactly as [`spec_step`] describes.
#[derive(Debug)]
pub struct Parser {
    state: State,
    max: usize,
}

impl Parser {
    /// The current framing state.
    pub closed spec fn spec_state(&self) -> State {
        self.state
    }

    /// The whole-buffer ceiling.
    pub closed spec fn spec_max(&self) -> usize {
        self.max
    }

    /// A parser with a custom whole-buffer ceiling.
    pub fn new(max: usize) -> (r: Parser)
        ensures
            r.spec_state() == State::Command,
            r.spec_max() == max,
    {
        Parser { state: State::Command, max }
    }

    /// Read and parse bytes from the front of `buf`.
    ///
    /// Returns a command, `None` when more bytes are needed, or an error;
    /// the buffer and the parser state move exactly as [`spec_step`] says.
    pub fn parse(&mut self, buf: &mut bytes::BytesMut) -> (r: Result<Option<Command>, Error>)
        ensures
            ({
                let st = spec_step(
                    old(self).spec_state(),
                    old(self).spec_max(),
                    bytes_mut_view(*old(buf)),
                );
                &&& final(self).spec_state() == st.state
                &&& final(self).spec_max() == old(self).spec_max()
                &&& bytes_mut_view(*final(buf)) == st.buf
                &&& match r {
                    Ok(Some(c)) => st.result == Ok::<Option<CommandV>, Error>(Some(c@)) && c.wf(),
                    Ok(None) => st.result == Ok::<Option<CommandV>, Error>(None),
                    Err(e) => st.result == Err::<Option<CommandV>, Error>(e),
                }
            }),
    {
        let ghost st0 = self.state;
        let ghost max0 = self.max;
        let ghost buf0 = bytes_mut_view(*old(buf));
        loop
            invariant
                self.max == max0,
                st0 == old(self).spec_state(),
                max0 == old(self).spec_max(),
                buf0 == bytes_mut_view(*old(buf)),
                spec_step(st0, max0, buf0) == spec_step(
                    self.state,
                    self.max,
                    bytes_mut_view(*buf),
                ),
            decreases bytes_mut_view(*buf).len(),
        {
            let ghost cur = bytes_mut_view(*buf);
            let blen = bytes_mut_len(buf);
            if blen > self.max {
                bytes_mut_clear(buf);
                self.state = State::Command;
                return Err(Error::TooLong);
            }
            let st = self.state;
            match st {
                State::Command => {
                    proof {
                        assert(spec_crlf() =~= seq![0x0du8, 0x0au8]);
                    }
                    let pos = match find_seq(bytes_mut_as_slice(buf), 0, &[CR, LF]) {
                        None => {
                            proof {
                                lemma_find_seq_absent(cur, spec_crlf());
                            }
                            return Ok(None);
                        },
                        Some(j) => {
                            proof {
                                lemma_find_seq_found(cur, spec_crlf(), j as int);
                            }
                            j
                        },
                    };
                    if pos > max::COMMAND_LINE {
                        bytes_mut_advance(buf, pos);
                        return Err(Error::TooLong);
                    }
                    let line_mut = bytes_mut_split_to(buf, pos);
                    bytes_mut_advance(buf, 2);
                    proof {
                        assert(bytes_mut_view(*buf) =~= cur.skip(pos + 2));
                    }
                    let line = bytes_mut_freeze(line_mut);
                    match Command::parse(line) {
                        Err(e) => {
                            return Err(e);
                        },
                        Ok(c) => match c {
                            Command::Data(_) => {
                                self.state = State::Data;
                            },
                            Command::Bdat(b) => {
                                self.state = State::Bdat { size: b.size, last: b.last };
                            },
                            c2 => {
                                return Ok(Some(c2));
                            },
                        },
                    }
                },
                State::Data => {
                    proof {
                        assert(spec_data_end() =~= seq![0x0du8, 0x0au8, 0x2eu8, 0x0du8, 0x0au8]);
                    }
                    let pos = match find_seq(
                        bytes_mut_as_slice(buf),
                        0,
                        &[CR, LF, 0x2e, CR, LF],
                    ) {
                        None => {
                            proof {
                                lemma_find_seq_absent(cur, spec_data_end());
                            }
                            return Ok(None);
                        },
                        Some(j) => {
                            proof {
                                lemma_find_seq_found(cur, spec_data_end(), j as int);
                            }
                            j
                        },
                    };
                    let payload_mut = bytes_mut_split_to(buf, pos);
                    bytes_mut_advance(buf, 5);
                    proof {
                        assert(bytes_mut_view(*buf) =~= cur.skip(pos + 5));
                    }
                    let payload = bytes_mut_freeze(payload_mut);
                    self.state = State::Command;
                    if data_lines_ok(bytes_as_slice(&payload)) {
                        return Ok(Some(Command::Data(payload)));
                    } else {
                        return Err(Error::TooLong);
                    }
                },
                State::Bdat { size, last } => {
                    if size > self.max {
                        let skipn = if size < blen {
                            size
                        } else {
                            blen
                        };
                        bytes_mut_advance(buf, skipn);
                        self.state = State::Command;
                        return Err(Error::TooLong);
                    }
                    if blen < size {
                        return Ok(None);
                    }
                    let payload_mut = bytes_mut_split_to(buf, size);
                    let payload = bytes_mut_freeze(payload_mut);
                    self.state = State::Command;
                    return Ok(Some(Command::Bdat(Bdat { size, last, payload })));
                },
            }
        }
    }
}

impl Default for Parser {
    /// A parser with the default 25 MiB whole-buffer ceiling.
    fn default() -> (r: Parser)
        ensures
            r.spec_state() == State::Command,
            r.spec_max() == DEFAULT_MAX,
    {
        Parser::new(DEFAULT_MAX)
    }
}

/// After any step, the remaining buffer stays within the ceiling.
pub proof fn lemma_step_keeps_ceiling(state: State, max: usize, buf: Seq<u8>)
    ensures
        spec_step(state, max, buf).buf.len() <= max,
    decreases buf.len(),
{
    if buf.len() > max {
    } else {
        match state {
            State::Command => match spec_find_seq(buf, spec_crlf()) {
                None => {},
                Some(pos) => {
                    if 0 <= pos && pos + 2 <= buf.len() && pos <= max::COMMAND_LINE {
                        let rest = buf.skip(pos + 2);
                        match crate::command::spec_parse_command(buf.take(pos)) {
                            Err(_) => {},
                            Ok(CommandV::Data(_)) => {
                                lemma_step_keeps_ceiling(State::Data, max, rest);
                            },
                            Ok(CommandV::Bdat(b)) => {
                                lemma_step_keeps_ceiling(
                                    State::Bdat { size: b.size, last: b.last },
                                    max,
                                    rest,
                                );
                            },
                            Ok(_) => {},
                        }
                    }
                },
            },
            State::Data => {},
            State::Bdat { .. } => {},
        }
    }
}

/// After an error — `TooLong` included — the machine is back in command
/// framing, ready for the next line.
pub proof fn lemma_step_error_resets(state: State, max: usize, buf: Seq<u8>)
    ensures
        spec_step(state, max, buf).result is Err ==> spec_step(state, max, buf).state
            == State::Command,
    decreases buf.len(),
{
    if buf.len() > max {
    } else {
        match state {
            State::Command => match spec_find_seq(buf, spec_crlf()) {
                None => {},
                Some(pos) => {
                    if 0 <= pos && pos + 2 <= buf.len() && pos <= max::COMMAND_LINE {
                        let rest = buf.skip(pos + 2);
                        match crate::command::spec_parse_command(buf.take(pos)) {
                            Err(_) => {},
                            Ok(CommandV::Data(_)) => {
                                lemma_step_error_resets(State::Data, max, rest);
                            },
                            Ok(CommandV::Bdat(b)) => {
                                lemma_step_error_resets(
                                    State::Bdat { size: b.size, last: b.last },
                                    max,
                                    rest,
                                );
                            },
                            Ok(_) => {},
                        }
                    }
                },
            },
            State::Data => {},
            State::Bdat { .. } => {},
        }
    }
}

/// The remaining buffer is always a suffix of the input buffer.
pub proof fn lemma_step_suffix(state: State, max: usize, buf: Seq<u8>)
    ensures
        spec_step(state, max, buf).buf.len() <= buf.len(),
        spec_step(state, max, buf).buf =~= buf.skip(
            buf.len() - spec_step(state, max, buf).buf.len(),
        ),
    decreases buf.len(),
{
    if buf.len() > max {
        assert(Seq::<u8>::empty() =~= buf.skip(buf.len() as int));
    } else {
        match state {
            State::Command => match spec_find_seq(buf, spec_crlf()) {
                None => {
                    assert(buf =~= buf.skip(0));
                },
                Some(pos) => {
                    if 0 <= pos && pos + 2 <= buf.len() && pos <= max::COMMAND_LINE {
                        let rest = buf.skip(pos + 2);
                        match crate::command::spec_parse_command(buf.take(pos)) {
                            Err(_) => {},
                            Ok(CommandV::Data(_)) => {
                                lemma_step_suffix(State::Data, max, rest);
                                lemma_skip_skip(buf, pos + 2, rest.len() - spec_step(
                                    State::Data,
                                    max,
                                    rest,
                                ).buf.len());
                            },
                            Ok(CommandV::Bdat(b)) => {
                                let st2 = State::Bdat { size: b.size, last: b.last };
                                lemma_step_suffix(st2, max, rest);
                                lemma_skip_skip(buf, pos + 2, rest.len() - spec_step(
                                    st2,
                                    max,
                                    rest,
                                ).buf.len());
                            },
                            Ok(_) => {},
                        }
                    } else {
                        assert(buf =~= buf.skip(0));
                    }
                },
            },
            State::Data => {
                if spec_find_seq(buf, spec_data_end()) is None {
                    assert(buf =~= buf.skip(0));
                } else {
                    assert(buf =~= buf.skip(0));
                }
            },
            State::Bdat { .. } => {
                assert(buf =~= buf.skip(0));
            },
        }
    }
}

/// Skipping twice is skipping the sum.
proof fn lemma_skip_skip(s: Seq<u8>, a: int, b: int)
    requires
        0 <= a,
        0 <= b,
        a + b <= s.len(),
    ensures
        s.skip(a).skip(b) =~= s.skip(a + b),
{
}

/// A produced `DATA` or `BDAT` payload lies entirely inside the bytes the
/// step consumed from the front of the buffer: it never extends past them.
pub proof fn lemma_step_payload_within(state: State, max: usize, buf: Seq<u8>)
    ensures
        ({
            let st = spec_step(state, max, buf);
            match st.result {
                Ok(Some(CommandV::Data(p))) => exists|a: int, b: int|
                    0 <= a <= b <= buf.len() - st.buf.len() && p =~= buf.subrange(a, b),
                Ok(Some(CommandV::Bdat(bd))) => exists|a: int, b: int|
                    0 <= a <= b <= buf.len() - st.buf.len() && bd.payload =~= buf.subrange(a, b),
                _ => true,
            }
        }),
    decreases buf.len(),
{
    lemma_step_suffix(state, max, buf);
    let st = spec_step(state, max, buf);
    if buf.len() > max {
    } else {
        match state {
            State::Command => match spec_find_seq(buf, spec_crlf()) {
                None => {},
                Some(pos) => {
                    if 0 <= pos && pos + 2 <= buf.len() && pos <= max::COMMAND_LINE {
                        let rest = buf.skip(pos + 2);
                        match crate::command::spec_parse_command(buf.take(pos)) {
                            Err(_) => {},
                            Ok(CommandV::Data(_)) => {
                                lemma_step_payload_within(State::Data, max, rest);
                                lemma_step_suffix(State::Data, max, rest);
                                lemma_payload_shift(buf, pos + 2, State::Data, max);
                            },
                            Ok(CommandV::Bdat(b)) => {
                                let st2 = State::Bdat { size: b.size, last: b.last };
                                lemma_step_payload_within(st2, max, rest);
                                lemma_step_suffix(st2, max, rest);
                                lemma_payload_shift(buf, pos + 2, st2, max);
                            },
                            Ok(_) => {},
                        }
                    }
                },
            },
            State::Data => {
                if st.result is Ok && st.result->Ok_0 is Some {
                    let pos = spec_find_seq(buf, spec_data_end())->Some_0;
                    if 0 <= pos && pos + 5 <= buf.len() {
                        assert(buf.take(pos) =~= buf.subrange(0, pos));
                        assert(0 <= 0 <= pos <= buf.len() - st.buf.len() && buf.take(pos)
                            =~= buf.subrange(0, pos));
                    }
                }
            },
            State::Bdat { size, last } => {
                if !(size > max) && buf.len() >= size {
                    assert(buf.take(size as int) =~= buf.subrange(0, size as int));
                    assert(0 <= 0 <= size as int <= buf.len() - st.buf.len() && buf.take(
                        size as int,
                    ) =~= buf.subrange(0, size as int));
                }
            },
        }
    }
}

/// A payload found within the consumed bytes of the suffix computation is
/// within the consumed bytes of the whole buffer.
proof fn lemma_payload_shift(buf: Seq<u8>, k: int, state: State, max: usize)
    requires
        0 <= k <= buf.len(),
        ({
            let rest = buf.skip(k);
            let st = spec_step(state, max, rest);
            st.buf.len() <= rest.len() && match st.result {
                Ok(Some(CommandV::Data(p))) => exists|a: int, b: int|
                    0 <= a <= b <= rest.len() - st.buf.len() && p =~= rest.subrange(a, b),
                Ok(Some(CommandV::Bdat(bd))) => exists|a: int, b: int|
                    0 <= a <= b <= rest.len() - st.buf.len() && bd.payload =~= rest.subrange(a, b),
                _ => true,
            }
        }),
    ensures
        ({
            let rest = buf.skip(k);
            let st = spec_step(state, max, rest);
            match st.result {
                Ok(Some(CommandV::Data(p))) => exists|a: int, b: int|
                    0 <= a <= b <= buf.len() - st.buf.len() && p =~= buf.subrange(a, b),
                Ok(Some(CommandV::Bdat(bd))) => exists|a: int, b: int|
                    0 <= a <= b <= buf.len() - st.buf.len() && bd.payload =~= buf.subrange(a, b),
                _ => true,
            }
        }),
{
    let rest = buf.skip(k);
    let st = spec_step(state, max, rest);
    match st.result {
        Ok(Some(CommandV::Data(p))) => {
            let (a, b) = choose|a: int, b: int|
                0 <= a <= b <= rest.len() - st.buf.len() && p =~= rest.subrange(a, b);
            assert(rest.subrange(a, b) =~= buf.subrange(a + k, b + k));
            assert(0 <= a + k <= b + k <= buf.len() - st.buf.len() && p =~= buf.subrange(
                a + k,
                b + k,
            ));
        },
        Ok(Some(CommandV::Bdat(bd))) => {
            let (a, b) = choose|a: int, b: int|
                0 <= a <= b <= rest.len() - st.buf.len() && bd.payload =~= rest.subrange(a, b);
            assert(rest.subrange(a, b) =~= buf.subrange(a + k, b + k));
            assert(0 <= a + k <= b + k <= buf.len() - st.buf.len() && bd.payload =~= buf.subrange(
                a + k,
                b + k,
            ));
        },
        _ => {},
    }
}

/// The machine is deterministic: equal states, ceilings and buffers step to
/// equal outcomes.
pub proof fn lemma_step_deterministic(
    s1: State,
    m1: usize,
    b1: Seq<u8>,
    s2: State,
    m2: usize,
    b2: Seq<u8>,
)
    requires
        s1 == s2,
        m1 == m2,
        b1 == b2,
    ensures
        spec_step(s1, m1, b1) == spec_step(s2, m2, b2),
{
}

} // verus!
