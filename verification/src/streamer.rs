//! Ordered assembly of a chunk stream.
//!
//! A download is served as a lazy sequence of byte blocks, one block per
//! chunk, read on demand. The assembler owns the plan of that sequence: it
//! hands out the stored chunk indices one at a time, strictly in the order
//! they were given — ascending chunk order, since the chunk index encodes
//! byte-range position; draining the working set from its tail would emit a
//! reversed, corrupted file. A failed chunk read terminates the stream: after
//! `abort` nothing more is emitted.

use vstd::prelude::*;

verus! {

/// The emission plan of one chunk stream: the chunk indices still to be
/// read and yielded, front first.
pub struct Streamer {
    chunks: Vec<i32>,
    pos: usize,
}

impl Streamer {
    /// The chunk indices not yet emitted, in emission order.
    pub closed spec fn remaining(&self) -> Seq<i32> {
        if self.pos <= self.chunks@.len() {
            self.chunks@.skip(self.pos as int)
        } else {
            Seq::empty()
        }
    }

    /// Plans a stream that emits `chunks` in exactly the given order.
    pub fn new(chunks: Vec<i32>) -> (r: Self)
        ensures
            r.remaining() == chunks@,
    {
        let r = Streamer { chunks, pos: 0 };
        proof {
            assert(r.remaining() =~= r.chunks@);
        }
        r
    }

    /// The next chunk to read: always the front of what remains, so blocks
    /// come out in the order the chunks were planned.
    pub fn next_chunk(&mut self) -> (r: Option<i32>)
        ensures
            old(self).remaining().len() == 0 ==> r is None && final(self).remaining()
                == old(self).remaining(),
            old(self).remaining().len() > 0 ==> r == Some(old(self).remaining()[0])
                && final(self).remaining() == old(self).remaining().drop_first(),
    {
        if self.pos < self.chunks.len() {
            let c = self.chunks[self.pos];
            self.pos = self.pos + 1;
            proof {
                assert(self.remaining() =~= old(self).remaining().drop_first());
            }
            Some(c)
        } else {
            None
        }
    }

    /// Ends the stream after a failed chunk read: nothing more is emitted.
    pub fn abort(&mut self)
        ensures
            final(self).remaining().len() == 0,
    {
        self.pos = self.chunks.len();
        proof {
            assert(self.remaining() =~= Seq::<i32>::empty());
        }
    }
}

} // verus!
