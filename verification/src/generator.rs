//! The pattern generator: it hands out chunks of a known byte pattern, keeps
//! every byte that was handed out and not yet seen again in a FIFO backlog,
//! and checks received bytes against the head of that backlog.

use std::collections::VecDeque;
use vstd::prelude::*;

verus! {

/// Chunk size of a generator made by [`Generator::create`].
pub const DEFAULT_CHUNK_SIZE: usize = 100;

/// The first `n` bytes of the pattern: every byte of it is zero.
pub open spec fn pattern(n: nat) -> Seq<u8> {
    Seq::new(n, |i: int| 0u8)
}

/// `received` is, byte for byte, what stands at the head of `backlog`.
pub open spec fn matches_head(backlog: Seq<u8>, received: Seq<u8>) -> bool {
    &&& received.len() <= backlog.len()
    &&& backlog.subrange(0, received.len() as int) == received
}

/// The backlog that a validation of `received` leaves behind: as many bytes
/// as were received leave the head, whether they matched or not; a request
/// for more bytes than the backlog holds removes nothing.
pub open spec fn backlog_after_validate(backlog: Seq<u8>, received: Seq<u8>) -> Seq<u8> {
    if received.len() <= backlog.len() {
        backlog.skip(received.len() as int)
    } else {
        backlog
    }
}

/// `offset` is the first position at which `received` differs from `backlog`.
pub open spec fn is_first_difference(backlog: Seq<u8>, received: Seq<u8>, offset: int) -> bool {
    &&& 0 <= offset < received.len()
    &&& offset < backlog.len()
    &&& backlog[offset] != received[offset]
    &&& forall|j: int| 0 <= j < offset ==> backlog[j] == received[j]
}

/// Why a validation failed.
#[derive(Debug, Clone, Copy, PartialEq, Eq)]
pub enum MismatchError {
    /// The byte at `offset` of the received bytes is not the byte that was
    /// sent at that position; every byte before it matched.
    ByteDiffers { offset: usize },
    /// More bytes arrived than were ever sent: `requested` bytes were to be
    /// validated against a backlog of only `backlog` bytes.
    BacklogTooShort { backlog: usize, requested: usize },
}

impl MismatchError {
    /// The error is the one that validating `received` against `backlog`
    /// gives: the lengths where the backlog is too short, else the first
    /// position that differs. No two errors explain the same failure.
    pub open spec fn explains(self, backlog: Seq<u8>, received: Seq<u8>) -> bool {
        match self {
            MismatchError::ByteDiffers { offset } => {
                &&& received.len() <= backlog.len()
                &&& is_first_difference(backlog, received, offset as int)
            },
            MismatchError::BacklogTooShort { backlog: held, requested } => {
                &&& received.len() > backlog.len()
                &&& held == backlog.len()
                &&& requested == received.len()
            },
        }
    }
}

/// Source of the test pattern and oracle for what comes back.
pub struct Generator {
    queue: VecDeque<u8>,
    chunk_size: usize,
    produced: Ghost<Seq<u8>>,
}

impl View for Generator {
    type V = Seq<u8>;

    /// The backlog, oldest byte first.
    closed spec fn view(&self) -> Seq<u8> {
        self.queue@
    }
}

impl Generator {
    /// Number of bytes that one call of `generate` hands out.
    pub closed spec fn spec_chunk_size(&self) -> nat {
        self.chunk_size as nat
    }

    /// Every byte that this generator ever handed out, in order.
    pub closed spec fn produced(&self) -> Seq<u8> {
        self.produced@
    }

    /// Number of produced bytes that have left the backlog again.
    pub open spec fn consumed(&self) -> int {
        self.produced().len() - self@.len()
    }

    /// The backlog is the tail of what was produced, and what was produced
    /// follows the pattern.
    pub open spec fn wf(&self) -> bool {
        &&& self@.len() <= self.produced().len()
        &&& self@ == self.produced().skip(self.consumed())
        &&& self.produced() == pattern(self.produced().len())
    }

    /// A generator with an empty backlog and chunks of `chunk_size` bytes.
    pub fn with_chunk_size(chunk_size: usize) -> (g: Generator)
        ensures
            g.wf(),
            g@ == Seq::<u8>::empty(),
            g.produced() == Seq::<u8>::empty(),
            g.spec_chunk_size() == chunk_size,
    {
        let g = Generator { queue: VecDeque::new(), chunk_size, produced: Ghost(Seq::empty()) };
        proof {
            assert(g.produced@ =~= pattern(0));
            assert(g.queue@ =~= g.produced@.skip(0));
        }
        g
    }

    /// A generator with an empty backlog and chunks of
    /// [`DEFAULT_CHUNK_SIZE`] bytes. It never fails.
    pub fn create() -> (r: Result<Generator, MismatchError>)
        ensures
            r is Ok,
            r->Ok_0.wf(),
            r->Ok_0@ == Seq::<u8>::empty(),
            r->Ok_0.produced() == Seq::<u8>::empty(),
            r->Ok_0.spec_chunk_size() == DEFAULT_CHUNK_SIZE,
    {
        Ok(Generator::with_chunk_size(DEFAULT_CHUNK_SIZE))
    }

    /// Number of bytes in one chunk.
    pub fn chunk_size(&self) -> (n: usize)
        ensures
            n == self.spec_chunk_size(),
    {
        self.chunk_size
    }

    /// Number of bytes in the backlog.
    pub fn backlog_len(&self) -> (n: usize)
        ensures
            n == self@.len(),
    {
        self.queue.len()
    }

    /// Hands out the next chunk of the pattern and appends it to the tail of
    /// the backlog. What was in the backlog stays as it was.
    pub fn generate(&mut self) -> (chunk: Vec<u8>)
        requires
            old(self).wf(),
        ensures
            final(self).wf(),
            chunk@ == pattern(old(self).spec_chunk_size()),
            final(self)@ == old(self)@ + chunk@,
            final(self).produced() == old(self).produced() + chunk@,
            final(self).consumed() == old(self).consumed(),
            final(self).spec_chunk_size() == old(self).spec_chunk_size(),
    {
        let ghost before = self.queue@;
        let mut chunk: Vec<u8> = Vec::new();
        let mut i: usize = 0;
        while i < self.chunk_size
            invariant
                i <= self.chunk_size,
                self.chunk_size == old(self).chunk_size,
                self.produced == old(self).produced,
                chunk@ =~= pattern(i as nat),
                self.queue@ =~= before + pattern(i as nat),
            decreases self.chunk_size - i,
        {
            chunk.push(0u8);
            self.queue.push_back(0u8);
            i = i + 1;
        }
        proof {
            self.produced@ = self.produced@ + chunk@;
            assert(self.produced@ =~= pattern(self.produced@.len()));
            assert(self.queue@ =~= self.produced@.skip(self.produced@.len() - self.queue@.len()));
        }
        chunk
    }

    /// Takes as many bytes from the head of the backlog as `received` holds
    /// and compares them with `received`, position for position.
    ///
    /// Succeeds exactly when the backlog holds that many bytes and each one
    /// equals the byte received in its place. Where a byte differs, the
    /// error names the first such position, and the bytes have left the
    /// backlog all the same. Where the backlog is shorter than `received`,
    /// the error gives both lengths and the backlog is left untouched.
    pub fn validate(&mut self, received: &[u8]) -> (r: Result<(), MismatchError>)
        requires
            old(self).wf(),
        ensures
            final(self).wf(),
            r is Ok <==> matches_head(old(self)@, received@),
            final(self)@ == backlog_after_validate(old(self)@, received@),
            final(self).produced() == old(self).produced(),
            final(self).consumed() == old(self).consumed() + (old(self)@.len() - final(self)@.len()),
            final(self).spec_chunk_size() == old(self).spec_chunk_size(),
            r matches Err(e) ==> e.explains(old(self)@, received@),
    {
        let ghost before = self.queue@;
        let requested = received.len();
        let backlog = self.queue.len();
        if requested > backlog {
            return Err(MismatchError::BacklogTooShort { backlog, requested });
        }
        let mut first_bad: Option<usize> = None;
        let mut i: usize = 0;
        while i < requested
            invariant
                i <= requested,
                requested == received@.len(),
                requested <= before.len(),
                self.chunk_size == old(self).chunk_size,
                self.produced == old(self).produced,
                self.queue@ =~= before.skip(i as int),
                match first_bad {
                    Some(offset) => offset < i && is_first_difference(before, received@, offset as int),
                    None => forall|j: int| 0 <= j < i ==> before[j] == received@[j],
                },
            decreases requested - i,
        {
            let sent = self.queue.pop_front();
            if first_bad.is_none() {
                match sent {
                    Some(byte) => {
                        if byte != received[i] {
                            first_bad = Some(i);
                        }
                    },
                    None => {},
                }
            }
            i = i + 1;
        }
        proof {
            let produced = self.produced@;
            assert(self.queue@ =~= produced.skip(produced.len() - self.queue@.len()));
            if first_bad is None {
                assert(before.subrange(0, requested as int) =~= received@);
            }
        }
        match first_bad {
            Some(offset) => Err(MismatchError::ByteDiffers { offset }),
            None => Ok(()),
        }
    }
}

} // verus!
