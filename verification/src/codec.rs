//! A line-framing adapter: cuts `\r\n`-terminated frames out of a caller's
//! buffer and reads each as one command.  The transport glue that drives it
//! lives outside the verified core.

use vstd::prelude::*;

use crate::bytebuf::{
    bytes_mut_advance, bytes_mut_as_slice, bytes_mut_clear, bytes_mut_extend_from_slice,
    bytes_mut_freeze, bytes_mut_len, bytes_mut_split_to, bytes_mut_view,
};
use crate::command::{Command, CommandV};
use crate::error::Error;
use crate::grammar::{find_seq, lemma_find_seq_absent, lemma_find_seq_found, spec_find_seq};
use crate::parser::{spec_crlf, CR, LF};

verus! {

/// Maximum line length for an encoded command, CRLF excluded.
pub const COMMAND_MAX: usize = 512;

/// Why a frame could not be decoded or encoded.
#[derive(Debug, Clone, Copy, PartialEq, Eq, Structural, Hash)]
pub enum SmtpError {
    /// The framed line did not read as a command.
    Command(Error),
    /// Maximum length exceeded.
    TooBig,
}

/// The outcome of one `decode` call: the new search index, the remaining
/// buffer, and what the caller receives.
pub struct DecodeV {
    pub next_index: usize,
    pub buf: Seq<u8>,
    pub result: Result<Option<CommandV>, SmtpError>,
}

/// What one `decode` call does: with a complete line present, the line is
/// consumed with its CRLF and read as a command; otherwise the search
/// index is parked before the buffer's end and an over-full buffer is
/// cleared.
pub open spec fn spec_decode(ni: usize, maxl: usize, buf: Seq<u8>) -> DecodeV {
    let start: usize = if ni <= buf.len() {
        ni
    } else {
        buf.len() as usize
    };
    match spec_find_seq(buf.skip(start as int), spec_crlf()) {
        Some(rel) => {
            let pos = start + rel;
            if 0 <= rel && pos + 2 <= buf.len() {
                DecodeV {
                    next_index: 0,
                    buf: buf.skip(pos + 2),
                    result: match crate::command::spec_parse_command(buf.take(pos)) {
                        Ok(c) => Ok(Some(c)),
                        Err(e) => Err(SmtpError::Command(e)),
                    },
                }
            } else {
                DecodeV { next_index: start, buf, result: Ok(None) }
            }
        },
        None => {
            let parked: usize = if buf.len() > 0 {
                (buf.len() - 1) as usize
            } else {
                0
            };
            if buf.len() > maxl {
                DecodeV { next_index: parked, buf: Seq::<u8>::empty(), result: Err(SmtpError::TooBig) }
            } else {
                DecodeV { next_index: parked, buf, result: Ok(None) }
            }
        },
    }
}

/// # Line-Framing Codec
///
/// Holds the resume point of the CRLF search and the buffer ceiling.
#[derive(Debug)]
pub struct Smtp {
    next_index: usize,
    max_length: usize,
}

impl Smtp {
    /// The search resume point.
    pub closed spec fn spec_next_index(&self) -> usize {
        self.next_index
    }

    /// The buffer ceiling.
    pub closed spec fn spec_max_length(&self) -> usize {
        self.max_length
    }

    /// A codec with a 1 MiB buffer ceiling.
    pub fn new() -> (r: Smtp)
        ensures
            r.spec_next_index() == 0,
            r.spec_max_length() == 1024 * 1024,
    {
        Smtp { next_index: 0, max_length: 1024 * 1024 }
    }

    /// A codec with a custom buffer ceiling.
    pub fn with_max_length(max_length: usize) -> (r: Smtp)
        ensures
            r.spec_next_index() == 0,
            r.spec_max_length() == max_length,
    {
        Smtp { next_index: 0, max_length }
    }

    /// Cut the next complete line out of `src` and read it as a command.
    pub fn decode(&mut self, src: &mut bytes::BytesMut) -> (r: Result<Option<Command>, SmtpError>)
        ensures
            ({
                let st = spec_decode(
                    old(self).spec_next_index(),
                    old(self).spec_max_length(),
                    bytes_mut_view(*old(src)),
                );
                &&& final(self).spec_next_index() == st.next_index
                &&& final(self).spec_max_length() == old(self).spec_max_length()
                &&& bytes_mut_view(*final(src)) == st.buf
                &&& match r {
                    Ok(Some(c)) => st.result == Ok::<Option<CommandV>, SmtpError>(Some(c@))
                        && c.wf(),
                    Ok(None) => st.result == Ok::<Option<CommandV>, SmtpError>(None),
                    Err(e) => st.result == Err::<Option<CommandV>, SmtpError>(e),
                }
            }),
    {
        let ghost cur = bytes_mut_view(*src);
        let n = bytes_mut_len(src);
        let start = if self.next_index <= n {
            self.next_index
        } else {
            n
        };
        match find_seq(bytes_mut_as_slice(src), start, &[CR, LF]) {
            Some(pos) => {
                proof {
                    assert(spec_crlf() =~= seq![0x0du8, 0x0au8]);
                    assert forall|k: int| 0 <= k < pos - start implies #[trigger] cur.skip(
                        start as int,
                    ).subrange(k, k + 2) != spec_crlf() by {
                        assert(cur.skip(start as int).subrange(k, k + 2) =~= cur.subrange(
                            start + k,
                            start + k + 2,
                        ));
                    }
                    assert(cur.skip(start as int).subrange(pos - start, pos - start + 2)
                        =~= cur.subrange(pos as int, pos + 2));
                    lemma_find_seq_found(cur.skip(start as int), spec_crlf(), pos - start);
                }
                let line_mut = bytes_mut_split_to(src, pos);
                bytes_mut_advance(src, 2);
                proof {
                    assert(bytes_mut_view(*src) =~= cur.skip(pos + 2));
                }
                self.next_index = 0;
                let line = bytes_mut_freeze(line_mut);
                match Command::parse(line) {
                    Ok(c) => Ok(Some(c)),
                    Err(e) => Err(SmtpError::Command(e)),
                }
            },
            None => {
                proof {
                    assert(spec_crlf() =~= seq![0x0du8, 0x0au8]);
                    assert forall|k: int|
                        0 <= k && k + 2 <= cur.skip(start as int).len() implies #[trigger] cur.skip(
                        start as int,
                    ).subrange(k, k + 2) != spec_crlf() by {
                        assert(cur.skip(start as int).subrange(k, k + 2) =~= cur.subrange(
                            start + k,
                            start + k + 2,
                        ));
                    }
                    lemma_find_seq_absent(cur.skip(start as int), spec_crlf());
                }
                self.next_index = if n > 0 {
                    n - 1
                } else {
                    0
                };
                if n > self.max_length {
                    bytes_mut_clear(src);
                    return Err(SmtpError::TooBig);
                }
                Ok(None)
            },
        }
    }

    /// Append one command line to `dst` with its CRLF, holding the line to
    /// the command ceiling and the whole frame to the buffer ceiling.
    pub fn encode(&mut self, item: &[u8], dst: &mut bytes::BytesMut) -> (r: Result<(), SmtpError>)
        ensures
            final(self).spec_next_index() == old(self).spec_next_index(),
            final(self).spec_max_length() == old(self).spec_max_length(),
            item@.len() > COMMAND_MAX || item@.len() + 2 > old(self).spec_max_length() ==> r
                == Err::<(), SmtpError>(SmtpError::TooBig) && bytes_mut_view(*final(dst))
                == bytes_mut_view(*old(dst)),
            item@.len() <= COMMAND_MAX && item@.len() + 2 <= old(self).spec_max_length() ==> r
                == Ok::<(), SmtpError>(()) && bytes_mut_view(*final(dst)) == bytes_mut_view(
                *old(dst),
            ) + item@ + spec_crlf(),
    {
        if item.len() > COMMAND_MAX {
            return Err(SmtpError::TooBig);
        }
        if item.len() > self.max_length || item.len() + 2 > self.max_length {
            return Err(SmtpError::TooBig);
        }
        bytes_mut_extend_from_slice(dst, item);
        bytes_mut_extend_from_slice(dst, &[CR, LF]);
        proof {
            assert((&[CR, LF])@ =~= spec_crlf());
        }
        Ok(())
    }
}

impl Default for Smtp {
    /// A codec with the default 1 MiB buffer ceiling.
    fn default() -> (r: Smtp)
        ensures
            r.spec_next_index() == 0,
            r.spec_max_length() == 1024 * 1024,
    {
        Smtp::new()
    }
}

} // verus!
