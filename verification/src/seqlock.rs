//! A cell with one writer and many readers, in which readers never hold the writer
//! up: a sequence number is odd while the value is being written, and a reader keeps
//! what it read only if the number was even before and is the same after.
use vstd::prelude::*;

verus! {

/// How many sequence numbers there are.
pub open spec fn numbers() -> int {
    0x1_0000_0000
}

/// The sequence number while the value after `seq` is being written.
pub fn writing(seq: u32) -> (r: u32)
    ensures
        r == (seq + 1) % numbers(),
{
    seq.wrapping_add(1)
}

/// The sequence number once the value after `seq` was written.
pub fn written(seq: u32) -> (r: u32)
    ensures
        r == (seq + 2) % numbers(),
{
    seq.wrapping_add(2)
}

/// Whether no write is under way.
pub fn at_rest(seq: u32) -> (r: bool)
    ensures
        r == (seq % 2 == 0),
{
    seq % 2 == 0
}

/// Whether a value may be kept that was read between these two sequence numbers.
pub fn accepts(before: u32, after: u32) -> (r: bool)
    ensures
        r == accepted(before, after),
{
    at_rest(before) && before == after
}

/// Whether a value may be kept that was read between these two sequence numbers.
pub open spec fn accepted(before: u32, after: u32) -> bool {
    before % 2 == 0 && before == after
}

/// The cell.
#[derive(Debug)]
pub struct SeqLock<T> {
    seq: u32,
    data: T,
}

impl<T: Copy> SeqLock<T> {
    /// The value in the cell.
    pub closed spec fn value(&self) -> T {
        self.data
    }

    /// No write is under way.
    pub closed spec fn wf(&self) -> bool {
        self.seq % 2 == 0
    }

    /// A cell with this value.
    pub fn new(value: T) -> (r: SeqLock<T>)
        ensures
            r.wf(),
            r.value() == value,
    {
        SeqLock { seq: 0, data: value }
    }

    /// Publishes a value.
    pub fn store(&mut self, value: T)
        requires
            old(self).wf(),
        ensures
            final(self).wf(),
            final(self).value() == value,
    {
        let s: u32 = self.seq;
        self.seq = writing(s);
        self.data = value;
        self.seq = written(s);
    }

    /// The value that was published last.
    pub fn load(&self) -> (r: T)
        requires
            self.wf(),
        ensures
            r == self.value(),
    {
        self.data
    }
}

/// What memory holds at one moment: how many times the sequence number was raised,
/// and what stands in the payload.
pub struct Moment<T> {
    pub raised: nat,
    pub payload: T,
}

impl<T> Moment<T> {
    /// The sequence number.
    pub open spec fn seq(self) -> u32 {
        (self.raised as int % numbers()) as u32
    }
}

/// Memory over time under one writer: the number is raised one by one, and whenever
/// no write is under way the payload is the value that was published last. While one
/// is under way the payload may be anything. `values[0]` is what the cell began with.
pub open spec fn one_writer<T>(history: Seq<Moment<T>>, values: Seq<T>) -> bool {
    &&& forall|t: int|
        0 <= t && t + 1 < history.len() ==> history[t].raised <= #[trigger] history[t + 1].raised
            <= history[t].raised + 1
    &&& forall|t: int|
        0 <= t < history.len() && (#[trigger] history[t]).raised % 2 == 0 ==> history[t].payload
            == values[history[t].raised as int / 2]
}

proof fn lemma_raised_in_order<T>(history: Seq<Moment<T>>, values: Seq<T>, s: int, t: int)
    requires
        one_writer(history, values),
        0 <= s <= t < history.len(),
    ensures
        history[s].raised <= history[t].raised,
    decreases t - s,
{
    if s < t {
        lemma_raised_in_order(history, values, s, t - 1);
        assert(history[t - 1].raised <= history[t - 1 + 1].raised);
    }
}

/// No torn value is ever returned. A reader looks at the number at moment `a`, at the
/// payload at `b` and at the number again at `c`; if it keeps what it read, that is a
/// published value, the one in force at `a`, and no write came in between. This holds
/// unless the number went once around in the meantime.
pub proof fn accepted_reads_are_published<T>(
    history: Seq<Moment<T>>,
    values: Seq<T>,
    a: int,
    b: int,
    c: int,
)
    requires
        one_writer(history, values),
        0 <= a <= b <= c < history.len(),
        accepted(history[a].seq(), history[c].seq()),
        history[c].raised < history[a].raised + numbers(),
    ensures
        history[b].payload == values[history[a].raised as int / 2],
        history[c].raised == history[a].raised,
{
    lemma_raised_in_order(history, values, a, b);
    lemma_raised_in_order(history, values, b, c);
    let (x, y) = (history[a].raised as int, history[c].raised as int);
    assert(x % numbers() == y % numbers());
    assert(x % 2 == 0);
}

/// A reader that meets no write keeps what it reads.
pub proof fn undisturbed_reads_are_accepted<T>(
    history: Seq<Moment<T>>,
    values: Seq<T>,
    a: int,
    c: int,
)
    requires
        one_writer(history, values),
        0 <= a <= c < history.len(),
        history[a].raised % 2 == 0,
        history[c].raised == history[a].raised,
    ensures
        accepted(history[a].seq(), history[c].seq()),
{
    let x = history[a].raised as int;
    assert((x % numbers()) % 2 == 0);
}

/// The numbers that a writer sets are those of a count that goes up one by one.
pub proof fn writers_raise_one_by_one(raised: nat)
    ensures
        ((raised as int % numbers()) + 1) % numbers() == (raised as int + 1) % numbers(),
        ((raised as int % numbers()) + 2) % numbers() == (raised as int + 2) % numbers(),
{
}

} // verus!
