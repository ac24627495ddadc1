//! A byte stream in memory: reads are served from prepared bytes, and
//! writes are kept.

use crate::communication::RecordedHandle;
use crate::communication::IoErrorKind;
use crate::communication::LinkEvent;
use vstd::prelude::*;

verus! {

/// A stream whose peer is a script: `data_to_read` holds what the peer will
/// send, and `written_data` what it was sent.
pub struct ScriptedHandle {
    /// The bytes written so far.
    pub written_data: Vec<u8>,
    /// The bytes that reads will hand out, the next one first.
    pub data_to_read: Vec<u8>,
    /// The read timeout in force, in milliseconds.
    pub timeout: u64,
    /// The calls completed so far.
    pub log: Ghost<Seq<LinkEvent>>,
}

impl ScriptedHandle {
    /// A stream that has written nothing and will read `data_to_read`.
    pub fn new(data_to_read: Vec<u8>) -> (handle: Self)
        ensures
            handle.written_data@ == Seq::<u8>::empty(),
            handle.data_to_read@ == data_to_read@,
            handle.timeout == u64::MAX,
            handle.history() == Seq::<LinkEvent>::empty(),
    {
        ScriptedHandle {
            written_data: Vec::new(),
            data_to_read,
            timeout: u64::MAX,
            log: Ghost(Seq::empty()),
        }
    }
}

impl Default for ScriptedHandle {
    fn default() -> (handle: Self)
        ensures
            handle.written_data@ == Seq::<u8>::empty(),
            handle.data_to_read@ == Seq::<u8>::empty(),
            handle.history() == Seq::<LinkEvent>::empty(),
    {
        ScriptedHandle::new(Vec::new())
    }
}

impl RecordedHandle for ScriptedHandle {
    const INTEGRITY_ACK_TIMEOUT: u64 = 100;

    const UNLIMITED_TIMEOUT: u64 = u64::MAX;

    open spec fn history(&self) -> Seq<LinkEvent> {
        self.log@
    }

    fn set_timeout(&mut self, timeout: u64)
        ensures
            final(self).timeout == timeout,
            final(self).written_data == old(self).written_data,
            final(self).data_to_read == old(self).data_to_read,
    {
        self.timeout = timeout;
        proof {
            self.log@ = self.log@.push(LinkEvent::TimeoutSet(timeout));
        }
    }

    /// Hands out the next `n` prepared bytes. Where fewer are left, the read
    /// fails with `UnexpectedEof` and takes none.
    fn read_exact(&mut self, n: usize) -> (r: Result<Vec<u8>, IoErrorKind>)
        ensures
            final(self).timeout == old(self).timeout,
            final(self).written_data == old(self).written_data,
            match r {
                Ok(bytes) => n <= old(self).data_to_read@.len() && bytes@ == old(
                    self,
                ).data_to_read@.take(n as int) && final(self).data_to_read@ == old(
                    self,
                ).data_to_read@.skip(n as int),
                Err(kind) => n > old(self).data_to_read@.len() && kind
                    == IoErrorKind::UnexpectedEof && final(self).data_to_read == old(
                    self,
                ).data_to_read,
            },
    {
        if self.data_to_read.len() < n {
            proof {
                self.log@ = self.log@.push(LinkEvent::ReadFailed(IoErrorKind::UnexpectedEof));
            }
            return Err(IoErrorKind::UnexpectedEof);
        }
        let mut taken = self.data_to_read.split_off(n);
        core::mem::swap(&mut self.data_to_read, &mut taken);
        proof {
            self.log@ = self.log@.push(LinkEvent::Read(taken@));
            assert(taken@ =~= old(self).data_to_read@.take(n as int));
            assert(self.data_to_read@ =~= old(self).data_to_read@.skip(n as int));
        }
        Ok(taken)
    }

    /// Keeps `bytes` behind what was written before. This stream never
    /// fails to write.
    fn write_all(&mut self, bytes: &[u8]) -> (r: Result<(), IoErrorKind>)
        ensures
            r is Ok,
            final(self).timeout == old(self).timeout,
            final(self).data_to_read == old(self).data_to_read,
            final(self).written_data@ == old(self).written_data@ + bytes@,
    {
        self.written_data.extend_from_slice(bytes);
        proof {
            self.log@ = self.log@.push(LinkEvent::Written(bytes@));
        }
        Ok(())
    }
}

} // verus!
