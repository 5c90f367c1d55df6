//! A lazy delimiter-split iterator over a shared byte slice.

use vstd::prelude::*;

use crate::bytebuf::{bytes_as_slice, bytes_len, bytes_slice, bytes_view};
use crate::error::Error;
use crate::grammar::{
    find_byte, find_seq, lemma_find_seq_absent, lemma_find_seq_found, spec_find_seq, spec_split,
    lemma_split_at_first, lemma_split_nonempty,
};

verus! {

/// The token list denoted by a buffer: nothing for an empty buffer, its
/// split on the delimiter otherwise.  A trailing delimiter yields a final
/// empty token.
pub open spec fn spec_tokens(s: Seq<u8>, d: u8) -> Seq<Seq<u8>> {
    if s.len() == 0 {
        Seq::<Seq<u8>>::empty()
    } else {
        spec_split(s, d)
    }
}

/// Yields successive tokens of a byte buffer separated by a single
/// delimiter byte, sharing the buffer without copying.
#[derive(Debug)]
pub struct Tokens {
    bytes: bytes::Bytes,
    delim: u8,
    done: bool,
}

impl View for Tokens {
    type V = Seq<Seq<u8>>;

    /// The tokens not yet yielded.
    closed spec fn view(&self) -> Seq<Seq<u8>> {
        if self.done {
            Seq::<Seq<u8>>::empty()
        } else {
            spec_split(bytes_view(self.bytes), self.delim)
        }
    }
}

impl Tokens {
    /// Iterate the tokens of `bytes` separated by `delim`.
    pub fn new(bytes: bytes::Bytes, delim: u8) -> (r: Tokens)
        ensures
            r@ == spec_tokens(bytes_view(bytes), delim),
    {
        let done = bytes_len(&bytes) == 0;
        Tokens { bytes, delim, done }
    }

    /// The next token: everything up to the next delimiter, which is
    /// consumed with it.
    pub fn next(&mut self) -> (r: Option<bytes::Bytes>)
        ensures
            match r {
                Some(t) => old(self)@.len() >= 1 && bytes_view(t) == old(self)@[0] && final(self)@
                    =~= old(self)@.skip(1),
                None => old(self)@.len() == 0 && final(self)@ =~= old(self)@,
            },
    {
        if self.done {
            return None;
        }
        let ghost rem = bytes_view(self.bytes);
        let s = bytes_as_slice(&self.bytes);
        let n = s.len();
        proof {
            lemma_split_nonempty(rem, self.delim);
        }
        match find_byte(s, 0, self.delim) {
            Some(j) => {
                proof {
                    lemma_split_at_first(rem, self.delim, j as int);
                }
                let token = bytes_slice(&self.bytes, 0, j);
                let rest = bytes_slice(&self.bytes, j + 1, n);
                proof {
                    assert(bytes_view(token) =~= rem.take(j as int));
                    assert(bytes_view(rest) =~= rem.skip(j + 1));
                }
                self.bytes = rest;
                Some(token)
            },
            None => {
                proof {
                    lemma_split_at_first(rem, self.delim, rem.len() as int);
                    assert(rem.take(rem.len() as int) =~= rem);
                }
                let token = bytes_slice(&self.bytes, 0, n);
                proof {
                    assert(bytes_view(token) =~= rem);
                }
                self.done = true;
                Some(token)
            },
        }
    }

    /// The bytes not yet yielded.
    pub closed spec fn spec_rest(&self) -> Seq<u8> {
        bytes_view(self.bytes)
    }

    /// Consume the iterator, returning the bytes not yet yielded.
    pub fn remainder(self) -> (r: bytes::Bytes)
        ensures
            bytes_view(r) == self.spec_rest(),
    {
        self.bytes
    }
}

/// Yields the complete `\r\n`-terminated lines of a byte buffer, sharing
/// the buffer without copying.  A final partial line without its terminator
/// is not yielded; it stays retrievable as the remainder.
#[derive(Debug)]
pub struct Lines {
    bytes: bytes::Bytes,
    next_index: usize,
}

impl Lines {
    /// The bytes not yet yielded.
    pub closed spec fn spec_rest(&self) -> Seq<u8> {
        bytes_view(self.bytes).skip(self.next_index as int)
    }

    /// The bytes the iterator was created over.
    pub closed spec fn spec_all(&self) -> Seq<u8> {
        bytes_view(self.bytes)
    }

    /// The iterator's position stays inside its buffer.
    pub closed spec fn wf(&self) -> bool {
        self.next_index <= bytes_view(self.bytes).len()
    }

    /// Iterate the complete lines of `bytes`.
    pub fn new(bytes: bytes::Bytes) -> (r: Lines)
        ensures
            r.spec_rest() =~= bytes_view(bytes),
            r.spec_all() == bytes_view(bytes),
            r.wf(),
    {
        Lines { bytes, next_index: 0 }
    }

    /// The next complete line: everything up to the next `\r\n`, which is
    /// consumed with it.
    pub fn next(&mut self) -> (r: Option<bytes::Bytes>)
        requires
            old(self).wf(),
        ensures
            final(self).wf(),
            final(self).spec_all() == old(self).spec_all(),
            match r {
                Some(line) => {
                    &&& spec_find_seq(old(self).spec_rest(), crate::parser::spec_crlf())
                        == Some(bytes_view(line).len() as int)
                    &&& bytes_view(line) =~= old(self).spec_rest().take(
                        bytes_view(line).len() as int,
                    )
                    &&& final(self).spec_rest() =~= old(self).spec_rest().skip(
                        bytes_view(line).len() as int + 2,
                    )
                },
                None => {
                    &&& spec_find_seq(old(self).spec_rest(), crate::parser::spec_crlf())
                        == None::<int>
                    &&& final(self).spec_rest() == old(self).spec_rest()
                },
            },
    {
        let ghost rem = self.spec_rest();
        let s = bytes_as_slice(&self.bytes);
        proof {
            assert(crate::parser::spec_crlf() =~= seq![0x0du8, 0x0au8]);
        }
        match find_seq(s, self.next_index, &[0x0d, 0x0a]) {
            Some(pos) => {
                proof {
                    assert forall|k: int| 0 <= k < pos - self.next_index implies #[trigger] rem
                        .subrange(k, k + 2) != crate::parser::spec_crlf() by {
                        assert(rem.subrange(k, k + 2) =~= s@.subrange(
                            self.next_index + k,
                            self.next_index + k + 2,
                        ));
                    }
                    assert(rem.subrange(
                        pos - self.next_index,
                        pos - self.next_index + 2,
                    ) =~= s@.subrange(pos as int, pos + 2));
                    lemma_find_seq_found(
                        rem,
                        crate::parser::spec_crlf(),
                        pos - self.next_index as int,
                    );
                }
                let line = bytes_slice(&self.bytes, self.next_index, pos);
                let n = s.len();
                proof {
                    assert(bytes_view(line) =~= rem.take(pos - self.next_index as int));
                    assert(pos + 2 <= n);
                }
                self.next_index = pos + 2;
                Some(line)
            },
            None => {
                proof {
                    assert forall|k: int| 0 <= k && k + 2 <= rem.len() implies #[trigger] rem
                        .subrange(k, k + 2) != crate::parser::spec_crlf() by {
                        assert(rem.subrange(k, k + 2) =~= s@.subrange(
                            self.next_index + k,
                            self.next_index + k + 2,
                        ));
                    }
                    lemma_find_seq_absent(rem, crate::parser::spec_crlf());
                }
                None
            },
        }
    }

    /// Consume the iterator, returning the whole underlying buffer.
    pub fn into_bytes(self) -> (r: bytes::Bytes)
        ensures
            bytes_view(r) == self.spec_all(),
    {
        self.bytes
    }
}

/// A value that folds a token stream of parameters into itself.
pub trait Parameters {
    /// Fold the remaining tokens into this value as parameters, stopping at
    /// the first rejected token.
    fn parameters(&mut self, tokens: Tokens) -> Result<(), Error>;
}

} // verus!
