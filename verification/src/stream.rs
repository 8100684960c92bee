//! An in-memory byte stream and the length-framed messages the handshake
//! exchanges over it.
//!
//! A `Chan` is one direction of a duplex pipe: a writer appends bytes at
//! the end, a reader consumes them from the front.  `Duplex` pairs the two
//! directions of a client/server connection.  Messages are framed with the
//! same 8-byte big-endian length prefix the certificate encoding uses.

use vstd::prelude::*;

use crate::cert::{append_prefixed, read_bytes};
use crate::encoding::{len_prefixed, spec_frame};
use crate::error::ProtoError;

verus! {

/// One direction of a byte pipe: `buf` holds everything ever written,
/// `pos` marks how far the reader has consumed.
pub struct Chan {
    buf: Vec<u8>,
    pos: usize,
}

impl Chan {
    pub closed spec fn wf(&self) -> bool {
        self.pos <= self.buf@.len()
    }

    /// The bytes written but not yet read.
    pub closed spec fn unread(&self) -> Seq<u8> {
        self.buf@.skip(self.pos as int)
    }

    /// How many bytes have ever been written into this direction.
    pub closed spec fn written(&self) -> nat {
        self.buf@.len()
    }

    pub fn new() -> (r: Chan)
        ensures
            r.wf(),
            r.unread() == Seq::<u8>::empty(),
            r.written() == 0,
    {
        let c = Chan { buf: Vec::new(), pos: 0 };
        proof {
            assert(c.unread() =~= Seq::<u8>::empty());
        }
        c
    }

    /// The total number of bytes written into this direction so far.
    pub fn bytes_written(&self) -> (r: usize)
        ensures
            r == self.written(),
    {
        self.buf.len()
    }
}

/// Write one framed message: an 8-byte big-endian length, then `data`.
pub fn write_bytes_stream(chan: &mut Chan, data: &Vec<u8>)
    requires
        old(chan).wf(),
    ensures
        final(chan).wf(),
        final(chan).unread() == old(chan).unread() + len_prefixed(data@),
        final(chan).written() == old(chan).written() + 8 + data@.len(),
{
    append_prefixed(&mut chan.buf, data);
    proof {
        crate::encoding::lemma_be_digits_len(data@.len(), 8);
        assert(chan.unread() =~= old(chan).unread() + len_prefixed(data@));
    }
}

/// Read one framed message: an 8-byte big-endian length, then exactly that
/// many payload bytes.  Fails, consuming nothing, if the unread bytes end
/// before the frame does.
pub fn read_bytes_stream(chan: &mut Chan) -> (r: Result<Vec<u8>, ProtoError>)
    requires
        old(chan).wf(),
    ensures
        final(chan).wf(),
        final(chan).written() == old(chan).written(),
        match r {
            Ok(m) => spec_frame(old(chan).unread()) == Some((m@, final(chan).unread())),
            Err(e) => {
                &&& spec_frame(old(chan).unread()) is None
                &&& e == ProtoError::Truncated
                &&& *final(chan) == *old(chan)
            },
        },
{
    match read_bytes(&chan.buf, chan.pos) {
        Ok((m, next)) => {
            chan.pos = next;
            Ok(m)
        },
        Err(e) => Err(e),
    }
}

/// The two directions of one client/server connection.
pub struct Duplex {
    pub to_server: Chan,
    pub to_client: Chan,
}

impl Duplex {
    pub open spec fn wf(&self) -> bool {
        &&& self.to_server.wf()
        &&& self.to_client.wf()
    }

    pub fn new() -> (r: Duplex)
        ensures
            r.wf(),
            r.to_server.unread() == Seq::<u8>::empty(),
            r.to_client.unread() == Seq::<u8>::empty(),
            r.to_server.written() == 0,
            r.to_client.written() == 0,
    {
        Duplex { to_server: Chan::new(), to_client: Chan::new() }
    }
}

} // verus!
