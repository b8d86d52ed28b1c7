//! The session byte buffer that the codec reads from and writes to.
//!
//! One side holds the unconsumed prefix of bytes received from the peer;
//! the codec inspects it with [`Session::buffer`] and discards a parsed
//! frame with [`Session::consume`]. The other side collects the request
//! bytes appended by [`Session::write_all`] until the transport drains
//! them with [`Session::take_writes`].

use vstd::prelude::*;

verus! {

/// A growable byte buffer pair with write-append and explicit consume
/// semantics. Bytes read but not consumed remain for the next decode
/// attempt, which is what lets the parser tolerate partial frames.
pub struct Session {
    rx: Vec<u8>,
    tx: Vec<u8>,
}

/// The two byte streams of a session: the unconsumed received prefix and
/// the pending outgoing bytes.
pub struct SessionView {
    pub rx: Seq<u8>,
    pub tx: Seq<u8>,
}

impl View for Session {
    type V = SessionView;

    closed spec fn view(&self) -> SessionView {
        SessionView { rx: self.rx@, tx: self.tx@ }
    }
}

impl Session {
    /// An empty session: nothing received, nothing pending to send.
    pub fn new() -> (r: Session)
        ensures
            r@.rx == Seq::<u8>::empty(),
            r@.tx == Seq::<u8>::empty(),
    {
        Session { rx: Vec::new(), tx: Vec::new() }
    }

    /// Appends bytes to the outgoing buffer.
    pub fn write_all(&mut self, bytes: &[u8])
        ensures
            final(self)@.tx == old(self)@.tx + bytes@,
            final(self)@.rx == old(self)@.rx,
    {
        self.tx.extend_from_slice(bytes);
    }

    /// Appends bytes received from the peer to the incoming buffer.
    pub fn receive(&mut self, bytes: &[u8])
        ensures
            final(self)@.rx == old(self)@.rx + bytes@,
            final(self)@.tx == old(self)@.tx,
    {
        self.rx.extend_from_slice(bytes);
    }

    /// The unconsumed prefix of received bytes.
    pub fn buffer(&self) -> (r: &[u8])
        ensures
            r@ == self@.rx,
    {
        self.rx.as_slice()
    }

    /// Discards the first `n` bytes of the incoming buffer, sliding the
    /// window forward.
    pub fn consume(&mut self, n: usize)
        requires
            n <= old(self)@.rx.len(),
        ensures
            final(self)@.rx == old(self)@.rx.skip(n as int),
            final(self)@.tx == old(self)@.tx,
    {
        let rest = self.rx.split_off(n);
        self.rx = rest;
        proof {
            assert(self@.rx =~= old(self)@.rx.skip(n as int));
        }
    }

    /// Hands the accumulated outgoing bytes to the transport, leaving the
    /// outgoing buffer empty.
    pub fn take_writes(&mut self) -> (r: Vec<u8>)
        ensures
            r@ == old(self)@.tx,
            final(self)@.tx == Seq::<u8>::empty(),
            final(self)@.rx == old(self)@.rx,
    {
        let mut out: Vec<u8> = Vec::new();
        core::mem::swap(&mut out, &mut self.tx);
        out
    }
}

} // verus!
