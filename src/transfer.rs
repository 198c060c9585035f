use vstd::prelude::*;

verus! {

/// How the data connection of a transfer was set up, with the shared
/// handle of its live stream.
#[derive(Debug)]
pub enum TransferMode<S> {
    /// The server dialled the address that the client gave (`PORT`).
    Port(S),
    /// The server listened and the client dialled in (`PASV`).
    Pasv(S),
}

impl<S> TransferMode<S> {
    pub open spec fn socket(&self) -> S {
        match self {
            TransferMode::Port(s) => *s,
            TransferMode::Pasv(s) => *s,
        }
    }
}

/// One data-connection session and its progress.
#[derive(Debug)]
pub struct Transfer<S> {
    pub mode: TransferMode<S>,
    /// Expected size in bytes; 0 when unknown.
    pub total_size: u64,
    /// Bytes moved so far.
    pub finished_size: u64,
    /// Restart position set by `REST`.
    pub offset: u64,
    pub filename: String,
    pub is_finished: bool,
    pub aborted: bool,
}

impl<S> Transfer<S> {
    /// Progress never passes a known size, and a transfer ends at most one way.
    pub open spec fn wf(&self) -> bool {
        &&& (self.total_size > 0 ==> self.finished_size <= self.total_size)
        &&& !(self.is_finished && self.aborted)
    }

    /// Finished or aborted: no more bytes move.
    pub open spec fn is_terminal(&self) -> bool {
        self.is_finished || self.aborted
    }

    /// The number of bytes the next step may move, asked for in chunks of `chunk` bytes.
    pub open spec fn allowance(&self, chunk: u64) -> u64 {
        if self.is_terminal() {
            0
        } else if self.total_size > 0 && self.total_size - self.finished_size < chunk {
            (self.total_size - self.finished_size) as u64
        } else {
            chunk
        }
    }

    /// The progress after `n` more bytes were reported.
    pub open spec fn progressed(&self, n: u64) -> u64 {
        if self.is_terminal() {
            self.finished_size
        } else if self.total_size > 0 {
            if self.finished_size + n >= self.total_size {
                self.total_size
            } else {
                (self.finished_size + n) as u64
            }
        } else if self.finished_size + n > u64::MAX {
            u64::MAX
        } else {
            (self.finished_size + n) as u64
        }
    }

    /// A fresh transfer over `mode`: no size, no progress, no offset.
    pub fn new(mode: TransferMode<S>) -> (r: Self)
        ensures
            r.mode == mode,
            r.total_size == 0,
            r.finished_size == 0,
            r.offset == 0,
            r.filename@ == Seq::<char>::empty(),
            !r.is_finished,
            !r.aborted,
            r.wf(),
    {
        Transfer {
            mode,
            total_size: 0,
            finished_size: 0,
            offset: 0,
            filename: String::new(),
            is_finished: false,
            aborted: false,
        }
    }

    /// How many bytes a worker may move in its next step; 0 means stop.
    pub fn next_chunk(&self, chunk: u64) -> (r: u64)
        requires
            self.wf(),
        ensures
            r == self.allowance(chunk),
    {
        if self.is_finished || self.aborted {
            0
        } else if self.total_size > 0 && self.total_size - self.finished_size < chunk {
            self.total_size - self.finished_size
        } else {
            chunk
        }
    }

    /// Records `n` more bytes moved. A finished or aborted transfer is left
    /// as it is; the result tells whether the progress was taken.
    pub fn record_progress(&mut self, n: u64) -> (r: bool)
        requires
            old(self).wf(),
        ensures
            r == !old(self).is_terminal(),
            final(self).finished_size == old(self).progressed(n),
            final(self).total_size == old(self).total_size,
            final(self).offset == old(self).offset,
            final(self).is_finished == old(self).is_finished,
            final(self).aborted == old(self).aborted,
            final(self).filename == old(self).filename,
            final(self).mode == old(self).mode,
            final(self).wf(),
    {
        if self.is_finished || self.aborted {
            return false;
        }
        let room: u64 = if self.total_size > 0 {
            self.total_size - self.finished_size
        } else {
            u64::MAX - self.finished_size
        };
        if n >= room {
            self.finished_size = if self.total_size > 0 {
                self.total_size
            } else {
                u64::MAX
            };
        } else {
            self.finished_size = self.finished_size + n;
        }
        true
    }

    /// Sets the restart position (`REST`).
    pub fn set_offset(&mut self, offset: u64)
        ensures
            final(self).offset == offset,
            final(self).finished_size == old(self).finished_size,
            final(self).total_size == old(self).total_size,
            final(self).is_finished == old(self).is_finished,
            final(self).aborted == old(self).aborted,
            final(self).filename == old(self).filename,
            final(self).mode == old(self).mode,
    {
        self.offset = offset;
    }

    /// Marks the transfer aborted (`ABOR`), unless it has already finished.
    pub fn abort(&mut self)
        requires
            old(self).wf(),
        ensures
            final(self).aborted == (old(self).aborted || !old(self).is_finished),
            final(self).is_finished == old(self).is_finished,
            final(self).finished_size == old(self).finished_size,
            final(self).total_size == old(self).total_size,
            final(self).offset == old(self).offset,
            final(self).filename == old(self).filename,
            final(self).mode == old(self).mode,
            final(self).wf(),
    {
        if !self.is_finished {
            self.aborted = true;
        }
    }

    /// Marks the transfer finished, unless it was aborted.
    pub fn finish(&mut self)
        requires
            old(self).wf(),
        ensures
            final(self).is_finished == (old(self).is_finished || !old(self).aborted),
            final(self).aborted == old(self).aborted,
            final(self).finished_size == old(self).finished_size,
            final(self).total_size == old(self).total_size,
            final(self).offset == old(self).offset,
            final(self).filename == old(self).filename,
            final(self).mode == old(self).mode,
            final(self).wf(),
    {
        if !self.aborted {
            self.is_finished = true;
        }
    }
}

/// Access to the live stream of a transfer.
pub trait ITransfer<S> {
    spec fn socket_spec(&self) -> S;

    /// The shared stream handle, whichever way the connection was made.
    fn get_socket(&self) -> (r: &S)
        ensures
            *r == self.socket_spec(),
    ;
}

impl<S> ITransfer<S> for Transfer<S> {
    open spec fn socket_spec(&self) -> S {
        self.mode.socket()
    }

    fn get_socket(&self) -> (r: &S) {
        match &self.mode {
            TransferMode::Port(s) => s,
            TransferMode::Pasv(s) => s,
        }
    }
}

/// Once a transfer is aborted, no report of progress moves it and no
/// further bytes are allowed, whatever the chunk size.
pub proof fn lemma_aborted_transfer_stops<S>(t: Transfer<S>, n: u64, chunk: u64)
    requires
        t.aborted,
    ensures
        t.progressed(n) == t.finished_size,
        t.allowance(chunk) == 0,
{
}

} // verus!
