//! Bounded newline framing of worker output.
use crate::python::config::{IoLimits, IoLimitsView};
use crate::python::error::WorkerError;
use std::collections::VecDeque;
use vstd::prelude::*;

verus! {

/// The newline byte that ends every protocol line.
pub const NEWLINE: u8 = 10;

/// Whether `bytes` holds no newline.
pub open spec fn no_newline(bytes: Seq<u8>) -> bool {
    forall|i: int| 0 <= i < bytes.len() ==> bytes[i] != NEWLINE
}

/// Whether `bytes` splits into complete lines of the given `lengths`, each
/// ending with its only newline, followed by `partial` newline-free bytes.
pub open spec fn framed(bytes: Seq<u8>, lengths: Seq<usize>, partial: nat) -> bool
    decreases lengths.len(),
{
    if lengths.len() == 0 {
        bytes.len() == partial && no_newline(bytes)
    } else {
        let n = lengths[0] as int;
        &&& 1 <= n <= bytes.len()
        &&& bytes[n - 1] == NEWLINE
        &&& no_newline(bytes.take(n - 1))
        &&& framed(bytes.skip(n), lengths.skip(1), partial)
    }
}

/// The abstract receive storage.
pub struct FramesView {
    /// Stored bytes: complete lines, then the partial line.
    pub bytes: Seq<u8>,
    /// Lengths of the complete lines, oldest first.
    pub lengths: Seq<usize>,
    /// Length of the trailing partial line.
    pub partial: nat,
    /// Largest stored byte count seen.
    pub high_bytes: nat,
    /// Largest complete line count seen.
    pub high_messages: nat,
    /// The limits the storage was made with.
    pub limits: IoLimitsView,
}

/// The larger of two naturals.
pub open spec fn nat_max(a: nat, b: nat) -> nat {
    if a >= b { a } else { b }
}

/// Store one incoming byte, or refuse it with the budget it would exceed.
pub open spec fn frame_step(s: FramesView, b: u8) -> Result<FramesView, WorkerError> {
    let incoming = s.limits.incoming as nat;
    if s.partial + 1 > incoming || (s.partial + 1 == incoming && b != NEWLINE) {
        Err(WorkerError::IncomingTooLarge { limit: s.limits.incoming })
    } else if s.bytes.len() == s.limits.queued_bytes {
        Err(WorkerError::QueueBytesExceeded { limit: s.limits.queued_bytes })
    } else if b == NEWLINE && s.lengths.len() == s.limits.queued_messages {
        Err(WorkerError::QueueMessagesExceeded { limit: s.limits.queued_messages })
    } else {
        let bytes = s.bytes.push(b);
        let lengths = if b == NEWLINE {
            s.lengths.push((s.partial + 1) as usize)
        } else {
            s.lengths
        };
        let partial = if b == NEWLINE {
            0
        } else {
            s.partial + 1
        };
        Ok(
            FramesView {
                bytes,
                lengths,
                partial,
                high_bytes: nat_max(s.high_bytes, bytes.len()),
                high_messages: nat_max(s.high_messages, lengths.len()),
                limits: s.limits,
            },
        )
    }
}

/// Store `input` byte by byte: the resulting storage and the first refusal.
/// Bytes before a refused byte stay stored; later bytes are not examined.
pub open spec fn frames_push(s: FramesView, input: Seq<u8>) -> (FramesView, Option<WorkerError>)
    decreases input.len(),
{
    if input.len() == 0 {
        (s, None)
    } else {
        let (t, e) = frames_push(s, input.drop_last());
        if e is Some {
            (t, e)
        } else {
            match frame_step(t, input.last()) {
                Ok(u) => (u, None),
                Err(x) => (t, Some(x)),
            }
        }
    }
}

/// Whether abstract storage is consistent with its limits.
pub open spec fn frames_wf(s: FramesView) -> bool {
    &&& io_limits_view_valid(s.limits)
    &&& framed(s.bytes, s.lengths, s.partial)
    &&& s.partial < s.limits.incoming
    &&& forall|k: int| 0 <= k < s.lengths.len() ==> 1 <= #[trigger] s.lengths[k] <= s.limits.incoming
    &&& s.bytes.len() <= s.high_bytes <= s.limits.queued_bytes
    &&& s.lengths.len() <= s.high_messages <= s.limits.queued_messages
}

/// Whether a limits view is accepted.
pub open spec fn io_limits_view_valid(l: IoLimitsView) -> bool {
    crate::python::config::io_limits_valid(l.incoming, l.outgoing, l.queued_bytes, l.queued_messages)
}

/// Appending a newline-free byte extends the partial line.
proof fn lemma_framed_push_byte(bytes: Seq<u8>, lengths: Seq<usize>, partial: nat, b: u8)
    requires
        framed(bytes, lengths, partial),
        b != NEWLINE,
    ensures
        framed(bytes.push(b), lengths, partial + 1),
    decreases lengths.len(),
{
    if lengths.len() == 0 {
        assert forall|i: int| 0 <= i < bytes.push(b).len() implies bytes.push(b)[i] != NEWLINE by {
            if i < bytes.len() {
                assert(bytes.push(b)[i] == bytes[i]);
            }
        }
    } else {
        let n = lengths[0] as int;
        lemma_framed_push_byte(bytes.skip(n), lengths.skip(1), partial, b);
        assert(bytes.push(b).skip(n) =~= bytes.skip(n).push(b));
        assert(bytes.push(b).take(n - 1) =~= bytes.take(n - 1));
    }
}

/// Appending a newline completes the partial line.
proof fn lemma_framed_push_newline(bytes: Seq<u8>, lengths: Seq<usize>, partial: nat)
    requires
        framed(bytes, lengths, partial),
        partial + 1 <= usize::MAX,
    ensures
        framed(bytes.push(NEWLINE), lengths.push((partial + 1) as usize), 0),
    decreases lengths.len(),
{
    let nb = bytes.push(NEWLINE);
    let nl = lengths.push((partial + 1) as usize);
    if lengths.len() == 0 {
        assert(nl[0] == partial + 1);
        assert(nb.take(partial as int) =~= bytes);
        assert(nb.skip((partial + 1) as int) =~= Seq::<u8>::empty());
        assert(nl.skip(1) =~= Seq::<usize>::empty());
        assert(framed(nb.skip((partial + 1) as int), nl.skip(1), 0));
        assert(no_newline(nb.take(partial as int)));
    } else {
        let n = lengths[0] as int;
        lemma_framed_push_newline(bytes.skip(n), lengths.skip(1), partial);
        assert(nb.skip(n) =~= bytes.skip(n).push(NEWLINE));
        assert(nl.skip(1) =~= lengths.skip(1).push((partial + 1) as usize));
        assert(nb.take(n - 1) =~= bytes.take(n - 1));
        assert(nl[0] == lengths[0]);
        assert(nb[n - 1] == bytes[n - 1]);
        assert(framed(nb.skip(n), nl.skip(1), 0));
    }
}

/// Total bytes of framed storage.
proof fn lemma_framed_len(bytes: Seq<u8>, lengths: Seq<usize>, partial: nat)
    requires
        framed(bytes, lengths, partial),
    ensures
        partial <= bytes.len(),
        lengths.len() > 0 ==> lengths[0] + partial <= bytes.len(),
    decreases lengths.len(),
{
    if lengths.len() > 0 {
        let n = lengths[0] as int;
        lemma_framed_len(bytes.skip(n), lengths.skip(1), partial);
    }
}

/// One accepted byte keeps storage consistent.
proof fn lemma_step_wf(s: FramesView, b: u8)
    requires
        frames_wf(s),
    ensures
        frame_step(s, b) matches Ok(t) ==> frames_wf(t),
{
    if let Ok(t) = frame_step(s, b) {
        if b == NEWLINE {
            lemma_framed_push_newline(s.bytes, s.lengths, s.partial);
            assert forall|k: int| 0 <= k < t.lengths.len() implies 1 <= #[trigger] t.lengths[k]
                <= t.limits.incoming by {
                if k < s.lengths.len() {
                    assert(t.lengths[k] == s.lengths[k]);
                }
            }
        } else {
            lemma_framed_push_byte(s.bytes, s.lengths, s.partial, b);
        }
    }
}

/// Storing stops at the first refusal.
proof fn lemma_push_error_sticks(s: FramesView, input: Seq<u8>, k: int)
    requires
        0 <= k <= input.len(),
        frames_push(s, input.take(k)).1 is Some,
    ensures
        frames_push(s, input) == frames_push(s, input.take(k)),
    decreases input.len() - k,
{
    if k < input.len() {
        assert(input.take(k + 1).drop_last() =~= input.take(k));
        assert(frames_push(s, input.take(k + 1)) == frames_push(s, input.take(k)));
        lemma_push_error_sticks(s, input, k + 1);
    } else {
        assert(input.take(k) =~= input);
    }
}

/// Bounded receive storage: complete lines and one partial line share one byte
/// budget, and complete lines are capped in number.
pub struct Frames {
    bytes: VecDeque<u8>,
    lengths: VecDeque<usize>,
    partial: usize,
    limits: IoLimits,
    /// Largest stored byte count seen.
    pub high_bytes: usize,
    /// Largest complete line count seen.
    pub high_messages: usize,
}

impl View for Frames {
    type V = FramesView;

    closed spec fn view(&self) -> FramesView {
        FramesView {
            bytes: self.bytes@,
            lengths: self.lengths@,
            partial: self.partial as nat,
            high_bytes: self.high_bytes as nat,
            high_messages: self.high_messages as nat,
            limits: self.limits@,
        }
    }
}

impl Frames {
    /// Whether this storage is consistent with its limits.
    pub open spec fn wf(&self) -> bool {
        frames_wf(self@)
    }

    /// Empty storage with the given limits.
    pub fn new(limits: IoLimits) -> (f: Frames)
        requires
            limits.valid(),
        ensures
            f.wf(),
            f@.bytes.len() == 0,
            f@.lengths.len() == 0,
            f@.partial == 0,
            f@.high_bytes == 0,
            f@.high_messages == 0,
            f@.limits == limits@,
    {
        let f = Frames {
            bytes: VecDeque::with_capacity(limits.queued_bytes()),
            lengths: VecDeque::with_capacity(limits.queued_messages()),
            partial: 0,
            limits,
            high_bytes: 0,
            high_messages: 0,
        };
        assert(no_newline(f@.bytes));
        f
    }

    /// Store incoming bytes, refusing the first byte that would exceed a line,
    /// byte or message budget. Bytes before a refused byte stay stored.
    pub fn push(&mut self, bytes: &[u8]) -> (r: Result<(), WorkerError>)
        requires
            old(self).wf(),
        ensures
            final(self).wf(),
            final(self)@ == frames_push(old(self)@, bytes@).0,
            match frames_push(old(self)@, bytes@).1 {
                None => r is Ok,
                Some(e) => r == Err::<(), WorkerError>(e),
            },
    {
        let incoming = self.limits.incoming_bytes();
        let queued_bytes = self.limits.queued_bytes();
        let queued_messages = self.limits.queued_messages();
        let mut i: usize = 0;
        while i < bytes.len()
            invariant
                0 <= i <= bytes.len(),
                self.wf(),
                frames_push(old(self)@, bytes@.take(i as int)) == (self@, None::<WorkerError>),
                incoming == self@.limits.incoming,
                queued_bytes == self@.limits.queued_bytes,
                queued_messages == self@.limits.queued_messages,
                self@.limits == old(self)@.limits,
            decreases bytes.len() - i,
        {
            let byte = bytes[i];
            proof {
                assert(bytes@.take(i + 1).drop_last() =~= bytes@.take(i as int));
                assert(bytes@.take(i + 1).last() == byte);
                lemma_step_wf(self@, byte);
                lemma_framed_len(self@.bytes, self@.lengths, self@.partial);
            }
            if self.partial + 1 > incoming || (self.partial + 1 == incoming && byte != NEWLINE) {
                proof {
                    lemma_push_error_sticks(old(self)@, bytes@, i + 1);
                }
                return Err(WorkerError::IncomingTooLarge { limit: incoming });
            }
            if self.bytes.len() == queued_bytes {
                proof {
                    lemma_push_error_sticks(old(self)@, bytes@, i + 1);
                }
                return Err(WorkerError::QueueBytesExceeded { limit: queued_bytes });
            }
            if byte == NEWLINE && self.lengths.len() == queued_messages {
                proof {
                    lemma_push_error_sticks(old(self)@, bytes@, i + 1);
                }
                return Err(WorkerError::QueueMessagesExceeded { limit: queued_messages });
            }
            self.bytes.push_back(byte);
            self.partial = self.partial + 1;
            if byte == NEWLINE {
                self.lengths.push_back(self.partial);
                self.partial = 0;
            }
            if self.bytes.len() > self.high_bytes {
                self.high_bytes = self.bytes.len();
            }
            if self.lengths.len() > self.high_messages {
                self.high_messages = self.lengths.len();
            }
            i = i + 1;
        }
        proof {
            assert(bytes@.take(i as int) =~= bytes@);
        }
        Ok(())
    }

    /// Remove and return the oldest complete line, newline included.
    pub fn pop(&mut self) -> (r: Option<Vec<u8>>)
        requires
            old(self).wf(),
        ensures
            final(self).wf(),
            old(self)@.lengths.len() == 0 ==> r is None && final(self)@ == old(self)@,
            old(self)@.lengths.len() > 0 ==> ({
                let n = old(self)@.lengths[0] as int;
                &&& r matches Some(line) && line@ == old(self)@.bytes.take(n)
                &&& final(self)@ == (FramesView {
                    bytes: old(self)@.bytes.skip(n),
                    lengths: old(self)@.lengths.skip(1),
                    ..old(self)@
                })
            }),
    {
        let length = match self.lengths.pop_front() {
            None => return None,
            Some(n) => n,
        };
        let ghost before = self.bytes@;
        proof {
            lemma_framed_len(before, old(self)@.lengths, old(self)@.partial);
        }
        proof {
            assert(self.lengths@ =~= old(self)@.lengths.skip(1));
            assert(before.skip(0) =~= before);
        }
        let mut line: Vec<u8> = Vec::new();
        let mut k: usize = 0;
        while k < length
            invariant
                0 <= k <= length,
                length <= before.len(),
                line@ == before.take(k as int),
                self@ == (FramesView {
                    bytes: before.skip(k as int),
                    lengths: old(self)@.lengths.skip(1),
                    ..old(self)@
                }),
            decreases length - k,
        {
            proof {
                assert(before.skip(k as int).len() > 0);
            }
            let b = self.bytes.pop_front();
            match b {
                Some(b) => {
                    proof {
                        assert(before.take(k + 1) =~= before.take(k as int).push(b));
                        assert(before.skip(k + 1) =~= before.skip(k as int).skip(1));
                    }
                    line.push(b);
                },
                None => {
                    proof {
                        assert(false);
                    }
                },
            }
            k = k + 1;
        }
        proof {
            let s = self@;
            assert(s.lengths =~= old(self)@.lengths.skip(1));
            assert forall|j: int| 0 <= j < s.lengths.len() implies 1 <= #[trigger] s.lengths[j]
                <= s.limits.incoming by {
                assert(s.lengths[j] == old(self)@.lengths[j + 1]);
            }
        }
        Some(line)
    }

    /// Drop all stored bytes; high-water marks are kept.
    pub fn clear(&mut self)
        requires
            old(self).wf(),
        ensures
            final(self).wf(),
            final(self)@ == (FramesView {
                bytes: Seq::empty(),
                lengths: Seq::empty(),
                partial: 0,
                ..old(self)@
            }),
    {
        self.bytes.clear();
        self.lengths.clear();
        self.partial = 0;
        assert(no_newline(self@.bytes));
    }

    /// Whether no bytes are stored.
    pub fn is_empty(&self) -> (b: bool)
        ensures
            b == (self@.bytes.len() == 0),
    {
        self.bytes.len() == 0
    }
}

/// A popped line ends with its only newline and is no longer than the
/// incoming line limit.
pub proof fn popped_line_is_complete(s: FramesView)
    requires
        frames_wf(s),
        s.lengths.len() > 0,
    ensures
        ({
            let line = s.bytes.take(s.lengths[0] as int);
            &&& 1 <= line.len() <= s.limits.incoming
            &&& line.last() == NEWLINE
            &&& no_newline(line.drop_last())
        }),
{
    let n = s.lengths[0] as int;
    assert(1 <= s.lengths[0] <= s.limits.incoming);
    let line = s.bytes.take(n);
    assert(line.drop_last() =~= s.bytes.take(n - 1));
}

/// Storage never outgrows its budgets, whatever is pushed.
pub proof fn push_stays_bounded(s: FramesView, input: Seq<u8>)
    requires
        frames_wf(s),
    ensures
        frames_wf(frames_push(s, input).0),
        frames_push(s, input).0.bytes.len() <= s.limits.queued_bytes,
        frames_push(s, input).0.lengths.len() <= s.limits.queued_messages,
        frames_push(s, input).0.limits == s.limits,
    decreases input.len(),
{
    if input.len() > 0 {
        push_stays_bounded(s, input.drop_last());
        let (t, e) = frames_push(s, input.drop_last());
        if e is None {
            lemma_step_wf(t, input.last());
        }
    }
}

/// Accepted input is stored in order: when nothing is refused, the stored
/// bytes are the old bytes followed by the input.
pub proof fn accepted_bytes_are_appended(s: FramesView, input: Seq<u8>)
    requires
        frames_push(s, input).1 is None,
    ensures
        frames_push(s, input).0.bytes == s.bytes + input,
    decreases input.len(),
{
    if input.len() == 0 {
        assert(s.bytes + input =~= s.bytes);
    } else {
        let (t, e) = frames_push(s, input.drop_last());
        if e is Some {
        } else {
            accepted_bytes_are_appended(s, input.drop_last());
            assert(s.bytes + input =~= (s.bytes + input.drop_last()).push(input.last()));
        }
    }
}

/// One operation on frame storage.
pub enum FrameOp {
    /// Store incoming bytes.
    Push(Seq<u8>),
    /// Take the oldest complete line, if any.
    Pop,
}

/// Take the oldest complete line: the storage after it, and the line.
pub open spec fn frames_pop(s: FramesView) -> (FramesView, Option<Seq<u8>>) {
    if s.lengths.len() == 0 {
        (s, None)
    } else {
        let n = s.lengths[0] as int;
        (FramesView { bytes: s.bytes.skip(n), lengths: s.lengths.skip(1), ..s }, Some(s.bytes.take(n)))
    }
}

/// Run operations from storage `s`: the final storage, the popped lines
/// joined in order, and whether some push was refused.
pub open spec fn frames_run(s: FramesView, ops: Seq<FrameOp>) -> (FramesView, Seq<u8>, bool)
    decreases ops.len(),
{
    if ops.len() == 0 {
        (s, Seq::empty(), false)
    } else {
        let (t, out, refused) = frames_run(s, ops.drop_last());
        match ops.last() {
            FrameOp::Push(input) => {
                let (u, e) = frames_push(t, input);
                (u, out, refused || e is Some)
            },
            FrameOp::Pop => {
                let (u, line) = frames_pop(t);
                (
                    u,
                    match line {
                        Some(l) => out + l,
                        None => out,
                    },
                    refused,
                )
            },
        }
    }
}

/// The bytes that the operations push, joined in order.
pub open spec fn pushed(ops: Seq<FrameOp>) -> Seq<u8>
    decreases ops.len(),
{
    if ops.len() == 0 {
        Seq::empty()
    } else {
        match ops.last() {
            FrameOp::Push(input) => pushed(ops.drop_last()) + input,
            FrameOp::Pop => pushed(ops.drop_last()),
        }
    }
}

/// Taking a line keeps storage consistent.
proof fn lemma_pop_wf(s: FramesView)
    requires
        frames_wf(s),
    ensures
        frames_wf(frames_pop(s).0),
        frames_pop(s).0.limits == s.limits,
        frames_pop(s).1 matches Some(line) ==> line + frames_pop(s).0.bytes == s.bytes,
{
    if s.lengths.len() > 0 {
        let n = s.lengths[0] as int;
        let t = frames_pop(s).0;
        lemma_framed_len(s.bytes, s.lengths, s.partial);
        assert forall|j: int| 0 <= j < t.lengths.len() implies 1 <= #[trigger] t.lengths[j] <= t.limits.incoming by {
            assert(t.lengths[j] == s.lengths[j + 1]);
        }
        assert(s.bytes.take(n) + s.bytes.skip(n) =~= s.bytes);
    }
}

/// What a sequence of pushes and pops gives back: as long as no push is
/// refused, the popped lines followed by the bytes still stored are the
/// bytes stored at the start followed by every pushed byte, in order.
pub proof fn frames_history(s: FramesView, ops: Seq<FrameOp>)
    requires
        frames_wf(s),
        !frames_run(s, ops).2,
    ensures
        frames_run(s, ops).1 + frames_run(s, ops).0.bytes == s.bytes + pushed(ops),
        frames_wf(frames_run(s, ops).0),
    decreases ops.len(),
{
    if ops.len() == 0 {
        assert(Seq::<u8>::empty() + s.bytes =~= s.bytes + Seq::<u8>::empty());
    } else {
        let prev = ops.drop_last();
        frames_history(s, prev);
        let (t, out, refused) = frames_run(s, prev);
        match ops.last() {
            FrameOp::Push(input) => {
                push_stays_bounded(t, input);
                accepted_bytes_are_appended(t, input);
                assert(out + (t.bytes + input) =~= (out + t.bytes) + input);
                assert((s.bytes + pushed(prev)) + input =~= s.bytes + (pushed(prev) + input));
            },
            FrameOp::Pop => {
                lemma_pop_wf(t);
                if let Some(line) = frames_pop(t).1 {
                    assert((out + line) + frames_pop(t).0.bytes =~= out + (line + frames_pop(t).0.bytes));
                }
            },
        }
    }
}

} // verus!
