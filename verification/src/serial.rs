//! The byte transport behind the console: a polled receive side and a
//! blocking send side, as a UART offers them.
//!
//! The platform's UART driver implements [`ByteTransport`];
//! [`MemTransport`] is a verified implementation over in-memory byte
//! sequences, used to exercise the console.

use vstd::prelude::*;

verus! {

/// A serial byte transport.
///
/// `incoming()` models the bytes the transport will deliver, in order;
/// `emitted()` is the log of every byte sent so far. A driver over live
/// hardware waits inside `get_byte` until its next byte arrives.
pub trait ByteTransport: Sized {
    open spec fn incoming(&self) -> Seq<u8> {
        Seq::empty()
    }

    open spec fn emitted(&self) -> Seq<u8> {
        Seq::empty()
    }

    /// Takes the next byte, waiting for it as long as the stream is
    /// live; `None` only when the stream has ended.
    fn get_byte(&mut self) -> (r: Option<u8>)
        ensures
            final(self).emitted() == old(self).emitted(),
            (match r {
                None => old(self).incoming().len() == 0 && final(self).incoming()
                    == old(self).incoming(),
                Some(b) => old(self).incoming().len() > 0 && b == old(self).incoming()[0]
                    && final(self).incoming() == old(self).incoming().skip(1),
            }),
    ;

    /// Whether the stream has ended: no byte will ever arrive again.
    /// A transport over live hardware answers `false`.
    fn at_end(&self) -> (r: bool)
        ensures
            r == (self.incoming().len() == 0),
    ;

    /// Sends one byte, blocking until the transport accepts it.
    fn put_byte(&mut self, b: u8)
        ensures
            final(self).incoming() == old(self).incoming(),
            final(self).emitted() == old(self).emitted().push(b),
    ;
}

/// A transport over in-memory sequences: reads walk a scripted input,
/// writes append to a captured output.
pub struct MemTransport {
    input: Vec<u8>,
    pos: usize,
    output: Vec<u8>,
}

impl MemTransport {
    pub fn new(input: Vec<u8>) -> (r: MemTransport)
        ensures
            r.incoming() == input@,
            r.emitted() == Seq::<u8>::empty(),
    {
        let r = MemTransport { input, pos: 0, output: Vec::new() };
        proof {
            assert(r.incoming() =~= r.input@);
        }
        r
    }

    /// Everything sent so far.
    pub fn sent(&self) -> (r: &Vec<u8>)
        ensures
            r@ == self.emitted(),
    {
        &self.output
    }
}

impl ByteTransport for MemTransport {
    closed spec fn incoming(&self) -> Seq<u8> {
        if self.pos <= self.input@.len() {
            self.input@.skip(self.pos as int)
        } else {
            Seq::empty()
        }
    }

    closed spec fn emitted(&self) -> Seq<u8> {
        self.output@
    }

    fn get_byte(&mut self) -> (r: Option<u8>) {
        if self.pos < self.input.len() {
            let b = self.input[self.pos];
            self.pos = self.pos + 1;
            proof {
                assert(final(self).incoming() =~= old(self).incoming().skip(1));
            }
            Some(b)
        } else {
            proof {
                if self.pos <= self.input@.len() {
                    assert(self.input@.skip(self.pos as int) =~= Seq::<u8>::empty());
                }
            }
            None
        }
    }

    fn at_end(&self) -> (r: bool) {
        proof {
            if self.pos <= self.input@.len() {
                if self.pos == self.input@.len() {
                    assert(self.input@.skip(self.pos as int) =~= Seq::<u8>::empty());
                } else if self.pos < self.input@.len() {
                    assert(self.incoming().len() > 0);
                }
            }
        }
        self.pos >= self.input.len()
    }

    fn put_byte(&mut self, b: u8) {
        self.output.push(b);
    }
}

} // verus!
