//! Bus transactions and the wire log.
//!
//! A driver never talks to hardware directly: every command byte, data burst,
//! settle delay, busy wait and reset-line change is recorded as a
//! [`Transaction`] in a [`TxQueue`].  The host drains the queue and performs
//! each action in order: a `Command` burst is sent with the command/data line
//! low, a `Data` burst with it high, and both are framed by asserting and
//! releasing chip select.

use vstd::prelude::*;

verus! {

/// One bus action, in the order the host must perform them.
#[derive(Debug, PartialEq, Eq)]
pub enum Transaction {
    /// One burst of command bytes, sent with the command/data line low.
    Command(Vec<u8>),
    /// One burst of data bytes, sent with the command/data line high.
    Data(Vec<u8>),
    /// A fixed settle delay, in milliseconds.
    DelayMs(u16),
    /// Poll the busy input until the controller reports readiness.
    WaitIdle,
    /// Drive the reset output to the given level.
    Reset(bool),
}

/// The mathematical view of one [`Transaction`].
pub enum TxView {
    Command(Seq<u8>),
    Data(Seq<u8>),
    DelayMs(u16),
    WaitIdle,
    Reset(bool),
}

impl View for Transaction {
    type V = TxView;

    open spec fn view(&self) -> TxView {
        match self {
            Transaction::Command(bytes) => TxView::Command(bytes@),
            Transaction::Data(bytes) => TxView::Data(bytes@),
            Transaction::DelayMs(ms) => TxView::DelayMs(*ms),
            Transaction::WaitIdle => TxView::WaitIdle,
            Transaction::Reset(level) => TxView::Reset(*level),
        }
    }
}

/// The wire log of a queue: the views of its transactions, oldest first.
pub open spec fn log_of(queue: Seq<Transaction>) -> Seq<TxView> {
    queue.map_values(|t: Transaction| t@)
}

proof fn lemma_log_push(queue: Seq<Transaction>, t: Transaction)
    ensures
        log_of(queue.push(t)) == log_of(queue).push(t@),
{
    assert(log_of(queue.push(t)) =~= log_of(queue).push(t@));
}

/// The pending transactions of one display, in emission order.
pub struct TxQueue {
    items: Vec<Transaction>,
}

impl TxQueue {
    /// The wire log: everything emitted and not yet drained.
    pub closed spec fn log(&self) -> Seq<TxView> {
        log_of(self.items@)
    }

    pub fn new() -> (queue: TxQueue)
        ensures
            queue.log() == Seq::<TxView>::empty(),
    {
        let queue = TxQueue { items: Vec::new() };
        proof {
            assert(queue.log() =~= Seq::<TxView>::empty());
        }
        queue
    }

    /// Emit one burst of command bytes.
    pub fn command(&mut self, bytes: Vec<u8>)
        ensures
            final(self).log() == old(self).log().push(TxView::Command(bytes@)),
    {
        proof {
            lemma_log_push(self.items@, Transaction::Command(bytes));
        }
        self.items.push(Transaction::Command(bytes));
    }

    /// Emit one burst of data bytes.
    pub fn data(&mut self, bytes: Vec<u8>)
        ensures
            final(self).log() == old(self).log().push(TxView::Data(bytes@)),
    {
        proof {
            lemma_log_push(self.items@, Transaction::Data(bytes));
        }
        self.items.push(Transaction::Data(bytes));
    }

    /// Emit a fixed settle delay.
    pub fn delay_ms(&mut self, ms: u16)
        ensures
            final(self).log() == old(self).log().push(TxView::DelayMs(ms)),
    {
        proof {
            lemma_log_push(self.items@, Transaction::DelayMs(ms));
        }
        self.items.push(Transaction::DelayMs(ms));
    }

    /// Emit a wait on the busy input.
    pub fn wait_idle(&mut self)
        ensures
            final(self).log() == old(self).log().push(TxView::WaitIdle),
    {
        proof {
            lemma_log_push(self.items@, Transaction::WaitIdle);
        }
        self.items.push(Transaction::WaitIdle);
    }

    /// Emit a change of the reset output.
    pub fn reset(&mut self, level: bool)
        ensures
            final(self).log() == old(self).log().push(TxView::Reset(level)),
    {
        proof {
            lemma_log_push(self.items@, Transaction::Reset(level));
        }
        self.items.push(Transaction::Reset(level));
    }

    /// Drain the queue: the caller receives every pending transaction, in
    /// emission order, and the queue is left empty.
    pub fn take(&mut self) -> (out: Vec<Transaction>)
        ensures
            log_of(out@) == old(self).log(),
            final(self).log() == Seq::<TxView>::empty(),
    {
        let mut out: Vec<Transaction> = Vec::new();
        core::mem::swap(&mut out, &mut self.items);
        proof {
            assert(self.log() =~= Seq::<TxView>::empty());
        }
        out
    }
}

/// A one-byte burst.
pub fn bytes1(a: u8) -> (v: Vec<u8>)
    ensures
        v@ == seq![a],
{
    let mut v: Vec<u8> = Vec::new();
    v.push(a);
    proof {
        assert(v@ =~= seq![a]);
    }
    v
}

/// A two-byte burst.
pub fn bytes2(a: u8, b: u8) -> (v: Vec<u8>)
    ensures
        v@ == seq![a, b],
{
    let mut v: Vec<u8> = Vec::new();
    v.push(a);
    v.push(b);
    proof {
        assert(v@ =~= seq![a, b]);
    }
    v
}

/// A three-byte burst.
pub fn bytes3(a: u8, b: u8, c: u8) -> (v: Vec<u8>)
    ensures
        v@ == seq![a, b, c],
{
    let mut v: Vec<u8> = Vec::new();
    v.push(a);
    v.push(b);
    v.push(c);
    proof {
        assert(v@ =~= seq![a, b, c]);
    }
    v
}

/// A four-byte burst.
pub fn bytes4(a: u8, b: u8, c: u8, d: u8) -> (v: Vec<u8>)
    ensures
        v@ == seq![a, b, c, d],
{
    let mut v: Vec<u8> = Vec::new();
    v.push(a);
    v.push(b);
    v.push(c);
    v.push(d);
    proof {
        assert(v@ =~= seq![a, b, c, d]);
    }
    v
}

/// Copies `src[from..to]` into a fresh vector.
pub fn copy_range<T: Copy>(src: &Vec<T>, from: usize, to: usize) -> (out: Vec<T>)
    requires
        from <= to <= src.len(),
    ensures
        out@ == src@.subrange(from as int, to as int),
{
    let mut out: Vec<T> = Vec::new();
    proof {
        assert(out@ =~= src@.subrange(from as int, from as int));
    }
    let mut i: usize = from;
    while i < to
        invariant
            from <= i <= to <= src.len(),
            out@ == src@.subrange(from as int, i as int),
        decreases to - i,
    {
        out.push(src[i]);
        proof {
            assert(out@ =~= src@.subrange(from as int, i + 1));
        }
        i += 1;
    }
    out
}

} // verus!
