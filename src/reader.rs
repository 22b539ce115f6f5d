//! Decisions of the reader that fills one buffer from a stream: partial reads
//! are coalesced until the buffer is full or the stream ends.
use vstd::prelude::*;

verus! {

/// What one read call into the unfilled tail of the buffer reported.
#[derive(Clone, Copy, Debug, PartialEq, Eq, Structural)]
pub enum ReadResult {
    /// The call placed this many bytes; zero means the stream has ended.
    Bytes(usize),
    /// The call was interrupted before reading anything and may be retried.
    Interrupted,
    /// Any other failure.
    Failed,
}

/// What the reader does next.
#[derive(Clone, Copy, Debug, PartialEq, Eq, Structural)]
pub enum FillAction {
    /// Issue another read into the unfilled tail.
    Read,
    /// The chunk is complete; its length is the filled count.
    Done,
    /// Give up and hand the failure on.
    Abort,
}

/// Progress of filling one buffer.
pub struct Filler {
    filled: usize,
    capacity: usize,
}

impl View for Filler {
    /// The bytes placed so far, and the buffer's capacity.
    type V = (nat, nat);

    closed spec fn view(&self) -> (nat, nat) {
        (self.filled as nat, self.capacity as nat)
    }
}

/// The action owed once `filled` of `capacity` bytes hold data and the stream
/// has not ended.
pub open spec fn action_after(filled: nat, capacity: nat) -> FillAction {
    if filled < capacity {
        FillAction::Read
    } else {
        FillAction::Done
    }
}

impl Filler {
    /// Starts filling an empty buffer of `capacity` bytes.
    pub fn new(capacity: usize) -> (r: Filler)
        ensures
            r@ == (0nat, capacity as nat),
    {
        Filler { filled: 0, capacity }
    }

    /// Bytes placed into the buffer so far.
    pub fn filled(&self) -> (r: usize)
        ensures
            r == self@.0,
    {
        self.filled
    }

    /// Capacity of the buffer being filled.
    pub fn capacity(&self) -> (r: usize)
        ensures
            r == self@.1,
    {
        self.capacity
    }

    /// The first action: read, unless the buffer has no room at all.
    pub fn first_action(&self) -> (r: FillAction)
        ensures
            r == action_after(self@.0, self@.1),
    {
        if self.filled < self.capacity {
            FillAction::Read
        } else {
            FillAction::Done
        }
    }

    /// Takes what a read into the unfilled tail reported and decides what
    /// follows. Bytes read are added to the filled count; the chunk is done
    /// when the buffer is full or the stream reports its end; an interrupted
    /// read is retried with nothing counted; any other failure aborts.
    pub fn on_read(&mut self, res: ReadResult) -> (r: FillAction)
        requires
            old(self)@.0 < old(self)@.1,
            res matches ReadResult::Bytes(n) ==> old(self)@.0 + n <= old(self)@.1,
        ensures
            final(self)@.1 == old(self)@.1,
            final(self)@.0 <= final(self)@.1,
            match res {
                ReadResult::Bytes(n) => if n == 0 {
                    final(self)@ == old(self)@ && r == FillAction::Done
                } else {
                    final(self)@.0 == old(self)@.0 + n && r == action_after(
                        final(self)@.0,
                        final(self)@.1,
                    )
                },
                ReadResult::Interrupted => final(self)@ == old(self)@ && r == FillAction::Read,
                ReadResult::Failed => final(self)@ == old(self)@ && r == FillAction::Abort,
            },
    {
        match res {
            ReadResult::Bytes(n) => {
                if n == 0 {
                    FillAction::Done
                } else {
                    self.filled = self.filled + n;
                    self.first_action()
                }
            },
            ReadResult::Interrupted => FillAction::Read,
            ReadResult::Failed => FillAction::Abort,
        }
    }
}

} // verus!
