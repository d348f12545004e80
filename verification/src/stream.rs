//! Streaming ingestion of a packed buffer of known length, chunk by chunk.

use vstd::prelude::*;

verus! {

/// A packed buffer that is being received.
pub struct Download {
    buffer: Vec<u8>,
    received: usize,
}

/// What a download holds.
pub struct DownloadView {
    /// The buffer, of the announced length: the bytes received so far, then
    /// what is left of the zeros it was filled with.
    pub buffer: Seq<u8>,
    /// Number of bytes received so far.
    pub received: nat,
}

impl DownloadView {
    /// No more was received than announced.
    pub open spec fn wf(self) -> bool {
        self.received <= self.buffer.len()
    }

    /// Whether `chunk` still fits.
    pub open spec fn fits(self, chunk: Seq<u8>) -> bool {
        self.received + chunk.len() <= self.buffer.len()
    }

    /// The download after `chunk` has arrived: a chunk that fits stands
    /// behind what was received before; one that does not is dropped.
    pub open spec fn appended(self, chunk: Seq<u8>) -> DownloadView {
        if self.fits(chunk) {
            DownloadView {
                buffer: self.buffer.subrange(0, self.received as int) + chunk
                    + self.buffer.subrange(
                    (self.received + chunk.len()) as int,
                    self.buffer.len() as int,
                ),
                received: self.received + chunk.len(),
            }
        } else {
            self
        }
    }

    /// Every announced byte has arrived.
    pub open spec fn complete(self) -> bool {
        self.received == self.buffer.len()
    }
}

impl View for Download {
    type V = DownloadView;

    closed spec fn view(&self) -> DownloadView {
        DownloadView { buffer: self.buffer@, received: self.received as nat }
    }
}

impl Download {
    #[verifier::type_invariant]
    spec fn bounded(self) -> bool {
        self@.wf()
    }

    /// A download of `content_length` bytes of which none has arrived.
    pub fn new(content_length: usize) -> (download: Download)
        ensures
            download@.wf(),
            download@.received == 0,
            download@.buffer == Seq::new(content_length as nat, |k: int| 0u8),
    {
        let download = Download { buffer: vec![0u8; content_length], received: 0 };
        assert(download.buffer@ =~= Seq::new(content_length as nat, |k: int| 0u8));
        download
    }

    /// Takes in the next chunk; says whether it fitted.
    pub fn append(&mut self, chunk: &[u8]) -> (fitted: bool)
        ensures
            fitted == old(self)@.fits(chunk@),
            final(self)@ == old(self)@.appended(chunk@),
            final(self)@.wf(),
    {
        proof {
            use_type_invariant(&*self);
        }
        let start = self.received;
        if chunk.len() > self.buffer.len() - start {
            return false;
        }
        let ghost before = self.buffer@;
        let mut taken = Download { buffer: Vec::new(), received: 0 };
        core::mem::swap(self, &mut taken);
        let mut buffer = taken.buffer;
        let mut k: usize = 0;
        while k < chunk.len()
            invariant
                k <= chunk.len(),
                start + chunk.len() <= buffer.len(),
                buffer.len() == before.len(),
                forall|j: int| 0 <= j < start ==> buffer@[j] == before[j],
                forall|j: int| 0 <= j < k ==> buffer@[start + j] == chunk@[j],
                forall|j: int| start + k <= j < before.len() ==> buffer@[j] == before[j],
            decreases chunk.len() - k,
        {
            buffer.set(start + k, chunk[k]);
            k += 1;
        }
        assert(buffer@ =~= before.subrange(0, start as int) + chunk@ + before.subrange(
            start + chunk.len(),
            before.len() as int,
        ));
        *self = Download { buffer, received: start + chunk.len() };
        true
    }

    /// Bytes received so far, and bytes announced.
    pub fn progress(&self) -> (progress: (usize, usize))
        ensures
            progress.0 == self@.received,
            progress.1 == self@.buffer.len(),
            progress.0 <= progress.1,
    {
        proof {
            use_type_invariant(self);
        }
        (self.received, self.buffer.len())
    }

    /// Whether every announced byte has arrived.
    pub fn is_complete(&self) -> (complete: bool)
        ensures
            complete == self@.complete(),
    {
        self.received == self.buffer.len()
    }

    /// The buffer as it stands.
    pub fn into_buffer(self) -> (buffer: Vec<u8>)
        ensures
            buffer@ == self@.buffer,
    {
        self.buffer
    }
}

} // verus!
