//! Framed channel: a length-delimited, bidirectional message stream kept in
//! bounded growable buffers. The library owns the framing and the buffers;
//! the process around it moves bytes between the buffers and a socket.
//!
//! A frame is a four-byte little-endian length followed by that many payload
//! bytes. Readers tolerate partial reads: bytes are fed in as they arrive and
//! a message is handed out only once its frame is complete. Writers tolerate
//! partial writes: the send buffer is drained as far as the socket accepts.
//! When a write would push the send buffer past `max_buf_size`, it fails with
//! `ChannelFull` and the buffer is left as it was.

use vstd::prelude::*;

verus! {

/// Why a channel operation failed.
#[derive(Clone, Copy, Debug, PartialEq, Eq, Structural)]
pub enum ChannelError {
    /// Accepting the message would push a buffer past its bound.
    ChannelFull,
    /// The channel saw an I/O error and is poisoned.
    ChannelClosed,
}

/// The four-byte little-endian picture of a frame length.
pub open spec fn spec_le_bytes(l: u32) -> Seq<u8> {
    seq![
        (l & 0xff) as u8,
        ((l >> 8) & 0xff) as u8,
        ((l >> 16) & 0xff) as u8,
        ((l >> 24) & 0xff) as u8,
    ]
}

/// The length four little-endian bytes carry.
pub open spec fn spec_le_value(b0: u8, b1: u8, b2: u8, b3: u8) -> u32 {
    (b0 as u32) | ((b1 as u32) << 8) | ((b2 as u32) << 16) | ((b3 as u32) << 24)
}

/// A payload as it stands on the wire: its length, then its bytes.
pub open spec fn spec_encode_frame(p: Seq<u8>) -> Seq<u8> {
    spec_le_bytes(p.len() as u32) + p
}

/// The first complete frame of a buffer, if any, and the bytes after it.
pub open spec fn spec_decode_frame(buf: Seq<u8>) -> Option<(Seq<u8>, Seq<u8>)> {
    if buf.len() < 4 {
        None
    } else {
        let l = spec_le_value(buf[0], buf[1], buf[2], buf[3]) as int;
        if buf.len() >= 4 + l {
            Some((buf.subrange(4, 4 + l), buf.subrange(4 + l, buf.len() as int)))
        } else {
            None
        }
    }
}

/// Framing loses nothing: a frame followed by arbitrary trailing bytes
/// decodes to exactly the payload that was encoded, and the trailing bytes.
pub proof fn lemma_frame_roundtrip(p: Seq<u8>, rest: Seq<u8>)
    requires
        p.len() <= 0xffffffff,
    ensures
        spec_decode_frame(spec_encode_frame(p) + rest) == Some((p, rest)),
{
    let l = p.len() as u32;
    let b0 = (l & 0xff) as u8;
    let b1 = ((l >> 8) & 0xff) as u8;
    let b2 = ((l >> 16) & 0xff) as u8;
    let b3 = ((l >> 24) & 0xff) as u8;
    assert((b0 as u32) | ((b1 as u32) << 8) | ((b2 as u32) << 16) | ((b3 as u32) << 24) == l)
        by (bit_vector)
        requires
            b0 == (l & 0xff) as u8,
            b1 == ((l >> 8) & 0xff) as u8,
            b2 == ((l >> 16) & 0xff) as u8,
            b3 == ((l >> 24) & 0xff) as u8,
    ;
    let buf = spec_encode_frame(p) + rest;
    assert(buf[0] == b0 && buf[1] == b1 && buf[2] == b2 && buf[3] == b3);
    assert(spec_le_value(buf[0], buf[1], buf[2], buf[3]) == l);
    assert(buf.subrange(4, 4 + p.len() as int) =~= p);
    assert(buf.subrange(4 + p.len() as int, buf.len() as int) =~= rest);
}

/// One direction-pair of framed buffers over a stream socket. The socket
/// itself lives outside the library; `blocking` mirrors the mode the caller
/// put the socket in, and `poisoned` records that an I/O error was seen, after
/// which every operation fails.
pub struct Channel {
    pub send_buf: Vec<u8>,
    pub recv_buf: Vec<u8>,
    pub max_buf_size: usize,
    pub blocking: bool,
    pub poisoned: bool,
}

impl Channel {
    /// Buffers never outgrow their bound.
    pub open spec fn wf(&self) -> bool {
        self.send_buf@.len() <= self.max_buf_size && self.recv_buf@.len() <= self.max_buf_size
    }

    /// A fresh channel with empty buffers, in non-blocking mode.
    pub fn new(max_buf_size: usize) -> (r: Channel)
        ensures
            r.wf(),
            r.send_buf@ == Seq::<u8>::empty(),
            r.recv_buf@ == Seq::<u8>::empty(),
            r.max_buf_size == max_buf_size,
            !r.blocking,
            !r.poisoned,
    {
        Channel {
            send_buf: Vec::new(),
            recv_buf: Vec::new(),
            max_buf_size,
            blocking: false,
            poisoned: false,
        }
    }

    /// Records the socket mode the caller switched to.
    pub fn set_blocking(&mut self, blocking: bool)
        ensures
            *final(self) == (Channel { blocking, ..*old(self) }),
    {
        self.blocking = blocking;
    }

    /// Records the socket mode the caller switched to, stated the other way.
    pub fn set_nonblocking(&mut self, nonblocking: bool)
        ensures
            *final(self) == (Channel { blocking: !nonblocking, ..*old(self) }),
    {
        self.blocking = !nonblocking;
    }

    /// Marks the channel poisoned after an I/O error on the socket.
    pub fn poison(&mut self)
        ensures
            *final(self) == (Channel { poisoned: true, ..*old(self) }),
    {
        self.poisoned = true;
    }

    /// Frames a serialized message and appends it to the send buffer.
    ///
    /// Succeeds exactly when the channel is healthy and the frame fits under
    /// `max_buf_size`; on failure the channel is unchanged, and a full buffer
    /// is a backpressure signal, not an error state.
    pub fn write_message(&mut self, payload: &Vec<u8>) -> (r: Result<(), ChannelError>)
        requires
            old(self).wf(),
        ensures
            final(self).wf(),
            final(self).recv_buf == old(self).recv_buf,
            final(self).max_buf_size == old(self).max_buf_size,
            final(self).blocking == old(self).blocking,
            final(self).poisoned == old(self).poisoned,
            match r {
                Ok(()) => !old(self).poisoned && payload@.len() <= 0xffffffff
                    && old(self).send_buf@.len() + 4 + payload@.len() <= old(self).max_buf_size
                    && final(self).send_buf@ == old(self).send_buf@ + spec_encode_frame(payload@),
                Err(ChannelError::ChannelClosed) => old(self).poisoned && *final(self) == *old(self),
                Err(ChannelError::ChannelFull) => !old(self).poisoned && *final(self) == *old(self)
                    && (payload@.len() > 0xffffffff || old(self).send_buf@.len() + 4
                    + payload@.len() > old(self).max_buf_size),
            },
    {
        if self.poisoned {
            return Err(ChannelError::ChannelClosed);
        }
        let n = payload.len();
        if n > 0xffffffffusize {
            return Err(ChannelError::ChannelFull);
        }
        if self.max_buf_size < 4 || n > self.max_buf_size - 4 || self.send_buf.len()
            > self.max_buf_size - 4 - n {
            return Err(ChannelError::ChannelFull);
        }
        let l = n as u32;
        let ghost before = self.send_buf@;
        self.send_buf.push((l & 0xff) as u8);
        self.send_buf.push(((l >> 8) & 0xff) as u8);
        self.send_buf.push(((l >> 16) & 0xff) as u8);
        self.send_buf.push(((l >> 24) & 0xff) as u8);
        proof {
            assert(self.send_buf@ =~= before + spec_le_bytes(l));
        }
        let mut i: usize = 0;
        while i < n
            invariant
                i <= n,
                n == payload@.len(),
                self.send_buf@ =~= before + spec_le_bytes(l) + payload@.take(i as int),
                self.max_buf_size == old(self).max_buf_size,
                self.recv_buf == old(self).recv_buf,
                self.blocking == old(self).blocking,
                self.poisoned == old(self).poisoned,
                before.len() + 4 + n <= self.max_buf_size,
            decreases n - i,
        {
            self.send_buf.push(payload[i]);
            proof {
                assert(payload@.take(i as int).push(payload@[i as int]) =~= payload@.take(
                    i as int + 1,
                ));
                assert(self.send_buf@ =~= before + spec_le_bytes(l) + payload@.take(i as int + 1));
            }
            i += 1;
        }
        proof {
            assert(payload@.take(n as int) =~= payload@);
            assert(self.send_buf@ =~= before + spec_encode_frame(payload@));
        }
        Ok(())
    }

    /// The bytes waiting to be written to the socket.
    pub fn outgoing(&self) -> (r: &Vec<u8>)
        ensures
            r@ == self.send_buf@,
    {
        &self.send_buf
    }

    /// Drops the first `n` bytes of the send buffer after the socket accepted
    /// them; a partial write leaves the rest queued.
    pub fn advance_send(&mut self, n: usize)
        requires
            old(self).wf(),
            n <= old(self).send_buf@.len(),
        ensures
            final(self).wf(),
            final(self).send_buf@ == old(self).send_buf@.skip(n as int),
            final(self).recv_buf == old(self).recv_buf,
            final(self).max_buf_size == old(self).max_buf_size,
            final(self).blocking == old(self).blocking,
            final(self).poisoned == old(self).poisoned,
    {
        let mut rest: Vec<u8> = Vec::new();
        let mut i: usize = n;
        let len = self.send_buf.len();
        while i < len
            invariant
                n <= i <= len,
                len == self.send_buf@.len(),
                rest@ =~= self.send_buf@.subrange(n as int, i as int),
            decreases len - i,
        {
            rest.push(self.send_buf[i]);
            proof {
                assert(rest@ =~= self.send_buf@.subrange(n as int, i as int + 1));
            }
            i += 1;
        }
        proof {
            assert(rest@ =~= self.send_buf@.skip(n as int));
        }
        self.send_buf = rest;
    }

    /// Appends bytes read from the socket to the receive buffer.
    ///
    /// Succeeds exactly when the channel is healthy and the bytes fit under
    /// `max_buf_size`; on failure the channel is unchanged.
    pub fn feed_incoming(&mut self, data: &Vec<u8>) -> (r: Result<(), ChannelError>)
        requires
            old(self).wf(),
        ensures
            final(self).wf(),
            final(self).send_buf == old(self).send_buf,
            final(self).max_buf_size == old(self).max_buf_size,
            final(self).blocking == old(self).blocking,
            final(self).poisoned == old(self).poisoned,
            match r {
                Ok(()) => !old(self).poisoned
                    && old(self).recv_buf@.len() + data@.len() <= old(self).max_buf_size
                    && final(self).recv_buf@ == old(self).recv_buf@ + data@,
                Err(ChannelError::ChannelClosed) => old(self).poisoned && *final(self) == *old(self),
                Err(ChannelError::ChannelFull) => !old(self).poisoned && *final(self) == *old(self)
                    && old(self).recv_buf@.len() + data@.len() > old(self).max_buf_size,
            },
    {
        if self.poisoned {
            return Err(ChannelError::ChannelClosed);
        }
        let n = data.len();
        if n > self.max_buf_size || self.recv_buf.len() > self.max_buf_size - n {
            return Err(ChannelError::ChannelFull);
        }
        let ghost before = self.recv_buf@;
        let mut i: usize = 0;
        while i < n
            invariant
                i <= n,
                n == data@.len(),
                self.recv_buf@ =~= before + data@.take(i as int),
                self.send_buf == old(self).send_buf,
                self.max_buf_size == old(self).max_buf_size,
                self.blocking == old(self).blocking,
                self.poisoned == old(self).poisoned,
                before.len() + n <= self.max_buf_size,
            decreases n - i,
        {
            self.recv_buf.push(data[i]);
            proof {
                assert(data@.take(i as int).push(data@[i as int]) =~= data@.take(i as int + 1));
                assert(self.recv_buf@ =~= before + data@.take(i as int + 1));
            }
            i += 1;
        }
        proof {
            assert(data@.take(n as int) =~= data@);
        }
        Ok(())
    }

    /// Pulls the first complete framed message out of the receive buffer, if
    /// one is there; otherwise leaves the buffer as it is.
    pub fn read_message(&mut self) -> (r: Option<Vec<u8>>)
        requires
            old(self).wf(),
        ensures
            final(self).wf(),
            final(self).send_buf == old(self).send_buf,
            final(self).max_buf_size == old(self).max_buf_size,
            final(self).blocking == old(self).blocking,
            final(self).poisoned == old(self).poisoned,
            match r {
                Some(p) => spec_decode_frame(old(self).recv_buf@) == Some(
                    (p@, final(self).recv_buf@),
                ),
                None => spec_decode_frame(old(self).recv_buf@) is None && *final(self) == *old(self),
            },
    {
        if self.recv_buf.len() < 4 {
            return None;
        }
        let b0 = self.recv_buf[0];
        let b1 = self.recv_buf[1];
        let b2 = self.recv_buf[2];
        let b3 = self.recv_buf[3];
        let l = (b0 as u32) | ((b1 as u32) << 8) | ((b2 as u32) << 16) | ((b3 as u32) << 24);
        proof {
            assert(l == spec_le_value(b0, b1, b2, b3));
            assert((b0 as u32) | ((b1 as u32) << 8) | ((b2 as u32) << 16) | ((b3 as u32) << 24)
                <= 0xffffffffu32) by (bit_vector);
        }
        let len = l as usize;
        if self.recv_buf.len() - 4 < len {
            return None;
        }
        let mut payload: Vec<u8> = Vec::new();
        let mut i: usize = 4;
        let end = 4 + len;
        while i < end
            invariant
                end == 4 + len,
                4 <= i <= 4 + len,
                4 + len <= self.recv_buf@.len(),
                payload@ =~= self.recv_buf@.subrange(4, i as int),
            decreases 4 + len - i,
        {
            payload.push(self.recv_buf[i]);
            proof {
                assert(payload@ =~= self.recv_buf@.subrange(4, i as int + 1));
            }
            i += 1;
        }
        let mut rest: Vec<u8> = Vec::new();
        let total = self.recv_buf.len();
        while i < total
            invariant
                4 + len <= i <= total,
                total == self.recv_buf@.len(),
                rest@ =~= self.recv_buf@.subrange(4 + len as int, i as int),
            decreases total - i,
        {
            rest.push(self.recv_buf[i]);
            proof {
                assert(rest@ =~= self.recv_buf@.subrange(4 + len as int, i as int + 1));
            }
            i += 1;
        }
        self.recv_buf = rest;
        Some(payload)
    }
}

} // verus!
