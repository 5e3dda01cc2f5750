//! The ledger behind the allocation-counting pass: how many allocations
//! happened, how many bytes are in use, and the most that ever were.
use vstd::prelude::*;

verus! {

/// The counters.
#[derive(Debug, Clone, Copy, PartialEq, Eq, Structural)]
pub struct CountingAlloc {
    allocs: u64,
    bytes_in_use: u64,
    peak_bytes: u64,
}

/// What a ledger holds.
pub struct Counters {
    pub count: int,
    pub in_use: int,
    pub peak: int,
}

/// An event the allocator sees.
pub enum Event {
    /// A successful allocation of so many bytes.
    Alloc(u64),
    /// A release of so many bytes.
    Dealloc(u64),
}

/// The counters after one more event.
pub open spec fn after(c: Counters, e: Event) -> Counters {
    match e {
        Event::Alloc(n) => Counters {
            count: (c.count + 1) % 0x1_0000_0000_0000_0000,
            in_use: c.in_use + n,
            peak: if c.peak >= c.in_use + n {
                c.peak
            } else {
                c.in_use + n
            },
        },
        Event::Dealloc(n) => Counters { count: c.count, in_use: c.in_use - n, peak: c.peak },
    }
}

/// The counters after a run of events on a fresh ledger.
pub open spec fn counted(events: Seq<Event>) -> Counters
    decreases events.len(),
{
    if events.len() == 0 {
        Counters { count: 0, in_use: 0, peak: 0 }
    } else {
        after(counted(events.drop_last()), events.last())
    }
}

impl View for CountingAlloc {
    type V = Counters;

    closed spec fn view(&self) -> Counters {
        Counters {
            count: self.allocs as int,
            in_use: self.bytes_in_use as int,
            peak: self.peak_bytes as int,
        }
    }
}

impl CountingAlloc {
    /// Nothing counted yet.
    pub fn new() -> (r: CountingAlloc)
        ensures
            r@ == counted(Seq::empty()),
    {
        CountingAlloc { allocs: 0, bytes_in_use: 0, peak_bytes: 0 }
    }

    /// Count a successful allocation.
    pub fn record_alloc(&mut self, size: u64)
        requires
            old(self)@.in_use + size <= u64::MAX,
        ensures
            final(self)@ == after(old(self)@, Event::Alloc(size)),
    {
        self.allocs = self.allocs.wrapping_add(1);
        self.bytes_in_use = self.bytes_in_use + size;
        if self.peak_bytes < self.bytes_in_use {
            self.peak_bytes = self.bytes_in_use;
        }
    }

    /// Count a release.
    pub fn record_dealloc(&mut self, size: u64)
        requires
            size <= old(self)@.in_use,
        ensures
            final(self)@ == after(old(self)@, Event::Dealloc(size)),
    {
        self.bytes_in_use = self.bytes_in_use - size;
    }
}

/// Allocations so far and the most bytes ever in use.
pub fn snapshot(ledger: &CountingAlloc) -> (r: (u64, u64))
    ensures
        r.0 == ledger@.count,
        r.1 == ledger@.peak,
{
    (ledger.allocs, ledger.peak_bytes)
}

/// The peak is the most bytes that were in use after any prefix of the
/// run.
pub proof fn lemma_peak_is_the_running_maximum(events: Seq<Event>)
    ensures
        forall|i: int|
            0 <= i <= events.len() ==> counted(events).peak >= (#[trigger] counted(
                events.take(i),
            )).in_use,
        exists|i: int|
            0 <= i <= events.len() && counted(events).peak == (#[trigger] counted(
                events.take(i),
            )).in_use,
    decreases events.len(),
{
    assert(events.take(events.len() as int) =~= events);
    if events.len() == 0 {
        assert(counted(events.take(0)).in_use == 0);
    } else {
        let front = events.drop_last();
        lemma_peak_is_the_running_maximum(front);
        assert forall|i: int| 0 <= i <= front.len() implies #[trigger] events.take(i)
            == front.take(i) by {
            assert(events.take(i) =~= front.take(i));
        }
        let best = choose|i: int|
            0 <= i <= front.len() && counted(front).peak == (#[trigger] counted(
                front.take(i),
            )).in_use;
        assert(events.take(best) == front.take(best));
        assert forall|i: int| 0 <= i <= events.len() implies counted(events).peak >= (
        #[trigger] counted(events.take(i))).in_use by {
            if i < events.len() {
                assert(events.take(i) == front.take(i));
                assert(counted(front).peak >= counted(front.take(i)).in_use);
            } else {
                assert(events.take(i) == events);
                assert(front.take(front.len() as int) =~= front);
                assert(counted(front).peak >= counted(front.take(front.len() as int)).in_use);
                match events.last() {
                    Event::Alloc(n) => {},
                    Event::Dealloc(n) => {
                        assert(n >= 0);
                    },
                }
            }
        }
        if counted(events).peak == counted(front).peak {
            assert(counted(events.take(best)).in_use == counted(events).peak);
        } else {
            assert(counted(events.take(events.len() as int)).in_use == counted(events).peak);
        }
    }
}

} // verus!
