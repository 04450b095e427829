//! The connection-pool discipline: one exclusive write handle and a
//! bounded pool of read handles.  Handles are modeled by their identities;
//! what matters — and is verified — is the acquire-and-release discipline:
//! a reader is popped from the pool or freshly opened when the pool is
//! empty, a returned reader re-enters the pool only while capacity
//! remains, and the write handle is never among the readers handed out.

use vstd::prelude::*;
use crate::domain::SyncError;

verus! {

/// A bounded pool of read handles beside the single write handle.
pub struct ConnectionPool {
    /// The pooled read handles, front to back.
    pub read_conns: Vec<u64>,
    /// How many read handles the pool may hold.
    pub max_read_conns: usize,
    /// The identity the next freshly opened handle gets.
    pub next_handle: u64,
    /// The single shared write handle.
    pub write_conn: u64,
}

impl ConnectionPool {
    /// The pool discipline: never more pooled readers than the bound, the
    /// pooled handles distinct, below the fresh-handle counter, and never
    /// the shared write handle.
    pub open spec fn wf(&self) -> bool {
        &&& self.read_conns@.len() <= self.max_read_conns
        &&& self.write_conn < self.next_handle
        &&& forall|i: int|
            0 <= i < self.read_conns@.len() ==> (#[trigger] self.read_conns@[i])
                != self.write_conn
        &&& forall|i: int|
            0 <= i < self.read_conns@.len() ==> (#[trigger] self.read_conns@[i])
                < self.next_handle
        &&& forall|i: int, j: int|
            0 <= i < j < self.read_conns@.len() ==> self.read_conns@[i] != self.read_conns@[j]
    }

    /// A fresh pool: the write handle, and `max_read_conns` read handles
    /// with the identities after it.
    pub fn new(max_read_conns: usize) -> (p: ConnectionPool)
        requires
            max_read_conns < usize::MAX,
        ensures
            p.wf(),
            p.max_read_conns == max_read_conns,
            p.read_conns@.len() == max_read_conns,
            forall|i: int|
                0 <= i < max_read_conns ==> (#[trigger] p.read_conns@[i]) == i + 1,
            p.write_conn == 0,
            p.next_handle == max_read_conns as u64 + 1,
    {
        let mut read_conns: Vec<u64> = Vec::new();
        let mut i: usize = 0;
        while i < max_read_conns
            invariant
                i <= max_read_conns < usize::MAX,
                read_conns@.len() == i,
                forall|t: int| 0 <= t < i ==> (#[trigger] read_conns@[t]) == t + 1,
            decreases max_read_conns - i,
        {
            read_conns.push((i as u64) + 1);
            i = i + 1;
        }
        ConnectionPool {
            read_conns,
            max_read_conns,
            next_handle: (max_read_conns as u64) + 1,
            write_conn: 0,
        }
    }

    /// Takes a read handle: the pool's front one, or a freshly opened one
    /// when the pool is empty.  The handle is never the shared write
    /// handle.  Only an exhausted handle space can fail.
    pub fn get_read_conn(&mut self) -> (r: Result<u64, SyncError>)
        requires
            old(self).wf(),
        ensures
            final(self).wf(),
            final(self).max_read_conns == old(self).max_read_conns,
            final(self).write_conn == old(self).write_conn,
            match r {
                Ok(h) => {
                    &&& h != old(self).write_conn
                    &&& h < final(self).next_handle
                    &&& forall|i: int|
                        0 <= i < final(self).read_conns@.len() ==> (
                        #[trigger] final(self).read_conns@[i]) != h
                    &&& if old(self).read_conns@.len() > 0 {
                        &&& h == old(self).read_conns@[0]
                        &&& final(self).read_conns@ == old(self).read_conns@.subrange(
                            1,
                            old(self).read_conns@.len() as int,
                        )
                        &&& final(self).next_handle == old(self).next_handle
                    } else {
                        &&& h == old(self).next_handle
                        &&& final(self).read_conns@ == old(self).read_conns@
                        &&& final(self).next_handle == old(self).next_handle + 1
                    }
                },
                Err(e) => {
                    &&& *final(self) == *old(self)
                    &&& e == SyncError::Persistence
                    &&& old(self).read_conns@.len() == 0
                    &&& old(self).next_handle == u64::MAX
                },
            },
    {
        if self.read_conns.len() > 0 {
            let h = self.read_conns.remove(0);
            proof {
                assert forall|i: int|
                    0 <= i < self.read_conns@.len() implies (#[trigger] self.read_conns@[i])
                    != h by {
                    assert(self.read_conns@[i] == old(self).read_conns@[i + 1]);
                }
            }
            Ok(h)
        } else {
            if self.next_handle == u64::MAX {
                return Err(SyncError::Persistence);
            }
            let h = self.next_handle;
            self.next_handle = h + 1;
            Ok(h)
        }
    }

    /// Returns a read handle that was handed out: it re-enters the pool
    /// while capacity remains, and is discarded otherwise.  The arguments
    /// a caller gets from [`ConnectionPool::get_read_conn`] satisfy the
    /// conditions; in particular the write handle cannot be returned as a
    /// reader.
    pub fn return_read_conn(&mut self, conn: u64)
        requires
            old(self).wf(),
            conn != old(self).write_conn,
            conn < old(self).next_handle,
            forall|i: int|
                0 <= i < old(self).read_conns@.len() ==> (#[trigger] old(self).read_conns@[i])
                    != conn,
        ensures
            final(self).wf(),
            final(self).max_read_conns == old(self).max_read_conns,
            final(self).write_conn == old(self).write_conn,
            final(self).next_handle == old(self).next_handle,
            if old(self).read_conns@.len() < old(self).max_read_conns {
                final(self).read_conns@ == old(self).read_conns@.push(conn)
            } else {
                final(self).read_conns@ == old(self).read_conns@
            },
    {
        if self.read_conns.len() < self.max_read_conns {
            self.read_conns.push(conn);
            proof {
                assert forall|i: int, j: int|
                    0 <= i < j < self.read_conns@.len() implies self.read_conns@[i]
                    != self.read_conns@[j] by {
                    if j < self.read_conns@.len() - 1 {
                        assert(self.read_conns@[i] == old(self).read_conns@[i]);
                        assert(self.read_conns@[j] == old(self).read_conns@[j]);
                    } else {
                        assert(self.read_conns@[i] == old(self).read_conns@[i]);
                    }
                }
            }
        }
    }

    /// The single shared write handle; its use is serialized by the caller
    /// holding it, not by the pool.
    pub fn get_write_conn(&self) -> (h: u64)
        ensures
            h == self.write_conn,
    {
        self.write_conn
    }
}

} // verus!
