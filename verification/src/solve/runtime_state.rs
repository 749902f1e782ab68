//! State that lasts for one simulation.
use crate::solve::error::{EvalErrorView, EvalSolveError, Real};
use vstd::prelude::*;

verus! {

/// The random stream of a generator at one place of a program.
#[derive(Clone, Copy, Debug, PartialEq, Eq, Structural)]
pub struct RandomStream {
    pub id: i64,
    pub call_site: usize,
    pub state: u64,
}

/// The state of a stream among the first `n`.
pub open spec fn stream_state_in(streams: Seq<RandomStream>, id: i64, call_site: usize, n: int) -> Option<
    u64,
>
    decreases n,
{
    if n <= 0 {
        None
    } else if streams[n - 1].id == id && streams[n - 1].call_site == call_site {
        Some(streams[n - 1].state)
    } else {
        stream_state_in(streams, id, call_site, n - 1)
    }
}

/// Random streams that one simulation has drawn from.
#[derive(Debug)]
pub struct RandomStreams {
    pub streams: Vec<RandomStream>,
}

impl RandomStreams {
    /// The state of a stream, where it was drawn from.
    pub open spec fn stream(self, id: i64, call_site: usize) -> Option<u64> {
        stream_state_in(self.streams@, id, call_site, self.streams@.len() as int)
    }

    /// No stream was drawn from.
    pub fn new() -> (s: RandomStreams)
        ensures
            forall|i: i64, c: usize| #[trigger] s.stream(i, c) is None,
    {
        RandomStreams { streams: Vec::new() }
    }

    /// Forgets every stream.
    pub fn clear(&mut self)
        ensures
            forall|i: i64, c: usize| #[trigger] final(self).stream(i, c) is None,
    {
        self.streams = Vec::new();
    }

    /// The state of a stream, where it was drawn from.
    pub fn stream_state(&self, id: i64, call_site: usize) -> (r: Option<u64>)
        ensures
            r == self.stream(id, call_site),
    {
        let mut i: usize = self.streams.len();
        while i > 0
            invariant
                i <= self.streams@.len(),
                self.stream(id, call_site) == stream_state_in(
                    self.streams@,
                    id,
                    call_site,
                    i as int,
                ),
            decreases i,
        {
            let stream = self.streams[i - 1];
            if stream.id == id && stream.call_site == call_site {
                return Some(stream.state);
            }
            i = i - 1;
        }
        None
    }

    /// Keeps the state of a stream; the others stay as they are.
    pub fn keep_stream_state(&mut self, id: i64, call_site: usize, state: u64)
        ensures
            forall|i: i64, c: usize| #[trigger]
                final(self).stream(i, c) == if i == id && c == call_site {
                    Some(state)
                } else {
                    old(self).stream(i, c)
                },
    {
        let ghost before = self.streams@;
        let mut at: usize = self.streams.len();
        while at > 0
            invariant
                self.streams@ == before,
                before == old(self).streams@,
                at <= before.len(),
                forall|k: int|
                    at <= k < before.len() ==> !(before[k].id == id && (
                    #[trigger] before[k]).call_site == call_site),
            decreases at,
        {
            let stream = self.streams[at - 1];
            if stream.id == id && stream.call_site == call_site {
                self.streams.set(at - 1, RandomStream { id, call_site, state });
                proof {
                    assert forall|i: i64, c: usize| #[trigger]
                        self.stream(i, c) == if i == id && c == call_site {
                            Some(state)
                        } else {
                            old(self).stream(i, c)
                        } by {
                        lemma_replaced_stream(
                            before,
                            self.streams@,
                            at - 1,
                            i,
                            c,
                            before.len() as int,
                        );
                    }
                }
                return;
            }
            at = at - 1;
        }
        self.streams.push(RandomStream { id, call_site, state });
        proof {
            assert forall|i: i64, c: usize| #[trigger]
                self.stream(i, c) == if i == id && c == call_site {
                    Some(state)
                } else {
                    old(self).stream(i, c)
                } by {
                lemma_earlier_streams(before, self.streams@, i, c, before.len() as int);
            }
        }
    }
}

proof fn lemma_replaced_stream(
    before: Seq<RandomStream>,
    after: Seq<RandomStream>,
    at: int,
    id: i64,
    call_site: usize,
    n: int,
)
    requires
        n <= before.len(),
        0 <= at < before.len(),
        after == before.update(at, after[at]),
        after[at].id == before[at].id,
        after[at].call_site == before[at].call_site,
        forall|k: int|
            at < k < before.len() ==> !(before[k].id == before[at].id && (
            #[trigger] before[k]).call_site == before[at].call_site),
    ensures
        n > at && id == before[at].id && call_site == before[at].call_site ==> stream_state_in(
            after,
            id,
            call_site,
            n,
        ) == Some(after[at].state),
        !(id == before[at].id && call_site == before[at].call_site) ==> stream_state_in(
            after,
            id,
            call_site,
            n,
        ) == stream_state_in(before, id, call_site, n),
    decreases n,
{
    if n > 0 {
        lemma_replaced_stream(before, after, at, id, call_site, n - 1);
        if n - 1 != at {
            assert(after[n - 1] == before[n - 1]);
        }
    }
}

proof fn lemma_earlier_streams(
    before: Seq<RandomStream>,
    after: Seq<RandomStream>,
    id: i64,
    call_site: usize,
    n: int,
)
    requires
        n <= before.len(),
        before.len() <= after.len(),
        forall|k: int| 0 <= k < before.len() ==> after[k] == #[trigger] before[k],
    ensures
        stream_state_in(before, id, call_site, n) == stream_state_in(after, id, call_site, n),
    decreases n,
{
    if n > 0 {
        assert(after[n - 1] == before[n - 1]);
        lemma_earlier_streams(before, after, id, call_site, n - 1);
    }
}

/// The random streams of all simulations.
#[derive(Debug)]
pub struct StreamTable {
    pub simulations: Vec<RandomStreams>,
}

impl StreamTable {
    /// Whether a state was made for this table.
    pub open spec fn knows(self, state: SimulationRuntimeState) -> bool {
        state.slot < self.simulations@.len()
    }

    /// The state of a stream of a simulation, where it was drawn from.
    pub open spec fn stream(self, state: SimulationRuntimeState, id: i64, call_site: usize) -> Option<
        u64,
    > {
        if self.knows(state) {
            self.simulations@[state.slot as int].stream(id, call_site)
        } else {
            None
        }
    }

    /// A table without simulations.
    pub fn new() -> (t: StreamTable)
        ensures
            forall|s: SimulationRuntimeState| !#[trigger] t.knows(s),
    {
        StreamTable { simulations: Vec::new() }
    }
}

/// The random streams of one simulation, which stand in a table. A copy of the
/// state stands for the same streams.
#[derive(Copy, Debug, PartialEq, Eq, Structural)]
pub struct SimulationRuntimeState {
    pub slot: usize,
}

impl Clone for SimulationRuntimeState {
    /// Shares the streams.
    fn clone(&self) -> (s: SimulationRuntimeState)
        ensures
            s == *self,
    {
        SimulationRuntimeState { slot: self.slot }
    }
}

impl SimulationRuntimeState {
    /// A new simulation, in which no stream was drawn from. The others stay as they
    /// are.
    pub fn new(table: &mut StreamTable) -> (s: SimulationRuntimeState)
        ensures
            !old(table).knows(s),
            final(table).knows(s),
            forall|i: i64, c: usize| #[trigger] final(table).stream(s, i, c) is None,
            forall|o: SimulationRuntimeState| old(table).knows(o) ==> #[trigger] final(table).knows(o),
            forall|o: SimulationRuntimeState, i: i64, c: usize|
                old(table).knows(o) ==> #[trigger] final(table).stream(o, i, c) == old(
                    table,
                ).stream(o, i, c),
    {
        let slot: usize = table.simulations.len();
        table.simulations.push(RandomStreams::new());
        SimulationRuntimeState { slot }
    }

    /// Forgets every stream of the simulation. Those of the others stay as they are.
    pub fn clear(&self, table: &mut StreamTable)
        requires
            old(table).knows(*self),
        ensures
            forall|o: SimulationRuntimeState| #[trigger] final(table).knows(o) == old(table).knows(o),
            forall|o: SimulationRuntimeState, i: i64, c: usize| #[trigger]
                final(table).stream(o, i, c) == if o == *self {
                    None
                } else {
                    old(table).stream(o, i, c)
                },
    {
        table.simulations.set(self.slot, RandomStreams::new());
    }

    /// The state of a stream, where it was drawn from.
    pub fn stream_state(&self, table: &StreamTable, id: i64, call_site: usize) -> (r: Option<u64>)
        requires
            table.knows(*self),
        ensures
            r == table.stream(*self, id, call_site),
    {
        table.simulations[self.slot].stream_state(id, call_site)
    }

    /// Keeps the state of a stream. The other streams stay as they are, those of the
    /// other simulations too.
    pub fn keep_stream_state(&self, table: &mut StreamTable, id: i64, call_site: usize, state: u64)
        requires
            old(table).knows(*self),
        ensures
            forall|o: SimulationRuntimeState| #[trigger] final(table).knows(o) == old(table).knows(o),
            forall|o: SimulationRuntimeState, i: i64, c: usize| #[trigger]
                final(table).stream(o, i, c) == if o == *self && i == id && c == call_site {
                    Some(state)
                } else {
                    old(table).stream(o, i, c)
                },
    {
        let mut streams = RandomStreams::new();
        let ghost before = table.simulations@;
        std::mem::swap(&mut streams, &mut table.simulations[self.slot]);
        assert(streams == before[self.slot as int]);
        streams.keep_stream_state(id, call_site, state);
        table.simulations.set(self.slot, streams);
    }
}

/// What is reset where a simulation begins or ends: nothing, for no stream belongs
/// to more than one simulation.
pub fn clear_runtime_state(table: &mut StreamTable)
    ensures
        *final(table) == *old(table),
{
}

/// What belongs to one simulation.
#[derive(Debug)]
pub struct SimulationContext {
    pub runtime_state: SimulationRuntimeState,
}

impl SimulationContext {
    /// A simulation that has not begun. The others stay as they are.
    pub fn new(table: &mut StreamTable) -> (r: SimulationContext)
        ensures
            !old(table).knows(r.runtime_state),
            final(table).knows(r.runtime_state),
            forall|i: i64, c: usize| #[trigger]
                final(table).stream(r.runtime_state, i, c) is None,
            forall|o: SimulationRuntimeState| old(table).knows(o) ==> #[trigger] final(table).knows(o),
            forall|o: SimulationRuntimeState, i: i64, c: usize|
                old(table).knows(o) ==> #[trigger] final(table).stream(o, i, c) == old(
                    table,
                ).stream(o, i, c),
    {
        clear_runtime_state(table);
        SimulationContext { runtime_state: SimulationRuntimeState::new(table) }
    }

    /// The state of the simulation.
    pub fn runtime_state(&self) -> (s: &SimulationRuntimeState)
        ensures
            *s == self.runtime_state,
    {
        &self.runtime_state
    }

    /// Ends the simulation: its streams are forgotten, also for those who share its
    /// state. Those of the others stay as they are.
    pub fn close(self, table: &mut StreamTable)
        requires
            old(table).knows(self.runtime_state),
        ensures
            forall|o: SimulationRuntimeState| #[trigger] final(table).knows(o) == old(table).knows(o),
            forall|o: SimulationRuntimeState, i: i64, c: usize| #[trigger]
                final(table).stream(o, i, c) == if o == self.runtime_state {
                    None
                } else {
                    old(table).stream(o, i, c)
                },
    {
        self.runtime_state.clear(table);
        clear_runtime_state(table);
    }
}

/// One number of a generator's state.
pub fn projected_random_value(values: &[Real], index: usize) -> (r: Result<Real, EvalSolveError>)
    ensures
        match r {
            Ok(v) => index < values@.len() && v == values@[index as int],
            Err(e) => index >= values@.len() && e@ == (
            EvalErrorView::RandomStateProjectionOutOfBounds { index, len: values@.len() as usize }),
        },
{
    if index < values.len() {
        Ok(values[index])
    } else {
        Err(EvalSolveError::RandomStateProjectionOutOfBounds { index, len: values.len() })
    }
}

/// The bounds of a random integer in their order.
pub fn ordered_bounds(imin: i64, imax: i64) -> (r: (i64, i64))
    ensures
        r.0 <= r.1,
        r == (imin, imax) || r == (imax, imin),
{
    if imin <= imax {
        (imin, imax)
    } else {
        (imax, imin)
    }
}

/// How many integers there are between two bounds.
pub fn integer_span(lo: i64, hi: i64) -> (n: i64)
    requires
        lo <= hi,
        hi - lo + 1 <= i64::MAX,
    ensures
        n == hi - lo + 1,
        n >= 1,
{
    let width: i128 = hi as i128 - lo as i128 + 1;
    width as i64
}

/// The error of a table that cannot be read.
pub fn external_table_error(
    operation: &'static str,
    table_id: Real,
    column: Option<Real>,
    reason: String,
) -> (e: EvalSolveError)
    ensures
        e@ == (EvalErrorView::ExternalTable {
            operation: operation@,
            table_id,
            column,
            reason: reason@,
        }),
{
    EvalSolveError::ExternalTable { operation, table_id, column, reason }
}

} // verus!
