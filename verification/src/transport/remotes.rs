//! The remotes that a transport of a server has streams to.

use crate::transport::TransportError;
use std::collections::HashMap;
use std::hash::Hash;
use vstd::prelude::*;

verus! {

broadcast use vstd::std_specs::hash::group_hash_axioms;

/// How a read on a stream failed.
#[derive(Debug, Clone, Copy, PartialEq, Eq, Structural)]
pub enum ReadFailure {
    /// There was nothing to read.
    WouldBlock,
    /// The time was up.
    TimedOut,
    /// The stream is broken.
    Other,
}

impl ReadFailure {
    /// The read may be tried again.
    pub open spec fn passes(self) -> bool {
        self is WouldBlock || self is TimedOut
    }

    /// The read may be tried again.
    pub fn is_passing(&self) -> (res: bool)
        ensures
            res == self.passes(),
    {
        match self {
            ReadFailure::WouldBlock => true,
            ReadFailure::TimedOut => true,
            ReadFailure::Other => false,
        }
    }
}

/// What comes of a read on the stream of a remote.
#[derive(Debug)]
pub enum ReadStep<Id> {
    /// Hand on the packet of the remote and read on, or that the remote is gone, and stop reading.
    HandOn(Id, Result<Vec<u8>, ()>),
    /// Read on.
    ReadOn,
}

/// The remotes that are connected, each with `W` to write to it.
#[verifier::reject_recursive_types(Id)]
pub struct Remotes<Id, W> {
    writers: HashMap<Id, W>,
}

impl<Id, W> View for Remotes<Id, W> {
    type V = Map<Id, W>;

    closed spec fn view(&self) -> Map<Id, W> {
        self.writers@
    }
}

impl<Id: Copy + Hash + Eq, W> Remotes<Id, W> {
    /// Nobody is connected yet.
    pub fn new() -> (res: Self)
        ensures
            res@ == Map::<Id, W>::empty(),
    {
        Remotes { writers: HashMap::new() }
    }

    /// A remote has connected.
    pub fn insert(&mut self, id: Id, writer: W)
        requires
            vstd::std_specs::hash::obeys_key_model::<Id>(),
        ensures
            final(self)@ == old(self)@.insert(id, writer),
    {
        self.writers.insert(id, writer);
    }

    /// Forgets a remote.
    pub fn cleanup(&mut self, id: Id)
        requires
            vstd::std_specs::hash::obeys_key_model::<Id>(),
        ensures
            final(self)@ == old(self)@.remove(id),
    {
        self.writers.remove(&id);
        assert(self@ =~= old(self)@.remove(id));
    }

    /// Whether the stream of a remote is still to be read: the transport is alive, and has not
    /// forgotten the remote.
    pub fn keep_reading(&self, is_alive: bool, id: Id) -> (res: bool)
        requires
            vstd::std_specs::hash::obeys_key_model::<Id>(),
        ensures
            res == (is_alive && self@.contains_key(id)),
    {
        is_alive && self.writers.contains_key(&id)
    }

    /// What writes to a remote. A remote that is not connected is reported as gone.
    pub fn writer<E>(&self, id: Id) -> (res: Result<&W, TransportError<(), E>>)
        requires
            vstd::std_specs::hash::obeys_key_model::<Id>(),
        ensures
            res == if self@.contains_key(id) {
                Ok::<&W, TransportError<(), E>>(&self@[id])
            } else {
                Err(TransportError::RemoteDisconnected(()))
            },
    {
        match self.writers.get(&id) {
            Some(writer) => Ok(writer),
            None => Err(TransportError::RemoteDisconnected(())),
        }
    }

    /// A packet has been written to a remote, or could not be. A remote that cannot be written to is
    /// forgotten and reported as gone.
    pub fn written<R, E>(&mut self, id: Id, result: Result<(), R>) -> (res: Result<
        (),
        TransportError<(), E>,
    >)
        requires
            vstd::std_specs::hash::obeys_key_model::<Id>(),
        ensures
            has_written(old(self)@, final(self)@, id, result, res),
    {
        match result {
            Ok(()) => Ok(()),
            Err(_) => {
                self.cleanup(id);
                Err(TransportError::RemoteDisconnected(()))
            },
        }
    }

    /// The stream of a remote has been read. A remote whose stream is broken is forgotten.
    pub fn read(&mut self, id: Id, result: Result<Vec<u8>, ReadFailure>) -> (res: ReadStep<Id>)
        requires
            vstd::std_specs::hash::obeys_key_model::<Id>(),
        ensures
            final(self)@ == Event::<Id, W>::Read(id, result).after(old(self)@),
            res == step_after(id, result),
    {
        match result {
            Ok(packet) => ReadStep::HandOn(id, Ok(packet)),
            Err(failure) => if failure.is_passing() {
                ReadStep::ReadOn
            } else {
                self.cleanup(id);
                ReadStep::HandOn(id, Err(()))
            },
        }
    }

    /// Takes what was handed on: a packet into `buf`, or that a remote is gone, which is then
    /// forgotten. Where nothing will be handed on any more, the transport is gone.
    pub fn receive<E>(
        &mut self,
        handed_on: Option<(Id, Result<Vec<u8>, ()>)>,
        buf: &mut [u8],
    ) -> (res: Result<(usize, Id), TransportError<Id, E>>)
        requires
            vstd::std_specs::hash::obeys_key_model::<Id>(),
            handed_on matches Some((_, Ok(packet))) ==> packet@.len() <= old(buf)@.len(),
        ensures
            final(buf)@.len() == old(buf)@.len(),
            match handed_on {
                Some((id, Ok(packet))) => {
                    &&& final(self)@ == old(self)@
                    &&& final(buf)@ == packet@ + old(buf)@.skip(packet@.len() as int)
                    &&& res == Ok::<(usize, Id), TransportError<Id, E>>((packet.len(), id))
                },
                Some((id, Err(()))) => {
                    &&& final(self)@ == old(self)@.remove(id)
                    &&& final(buf)@ == old(buf)@
                    &&& res == Err::<(usize, Id), TransportError<Id, E>>(
                        TransportError::RemoteDisconnected(id),
                    )
                },
                None => {
                    &&& final(self)@ == old(self)@
                    &&& final(buf)@ == old(buf)@
                    &&& res == Err::<(usize, Id), TransportError<Id, E>>(
                        TransportError::Disconnected,
                    )
                },
            },
    {
        match handed_on {
            Some((id, Ok(packet))) => {
                let size: usize = fill(buf, packet.as_slice());
                Ok((size, id))
            },
            Some((id, Err(()))) => {
                self.cleanup(id);
                Err(TransportError::RemoteDisconnected(id))
            },
            None => Err(TransportError::Disconnected),
        }
    }
}

/// What `written` does to the remotes, and what it returns.
pub open spec fn has_written<Id, W, R, E>(
    before: Map<Id, W>,
    after: Map<Id, W>,
    id: Id,
    result: Result<(), R>,
    res: Result<(), TransportError<(), E>>,
) -> bool {
    match result {
        Ok(()) => after == before && res == Ok::<(), TransportError<(), E>>(()),
        Err(_) => {
            &&& after == before.remove(id)
            &&& res == Err::<(), TransportError<(), E>>(TransportError::RemoteDisconnected(()))
        },
    }
}

/// What comes of a read on the stream of remote `id`.
pub open spec fn step_after<Id>(id: Id, result: Result<Vec<u8>, ReadFailure>) -> ReadStep<Id> {
    match result {
        Ok(packet) => ReadStep::HandOn(id, Ok(packet)),
        Err(failure) => if failure.passes() {
            ReadStep::ReadOn
        } else {
            ReadStep::HandOn(id, Err(()))
        },
    }
}

/// Something that happens to the remotes of a transport.
pub enum Event<Id, W> {
    /// A remote connects.
    Inserted(Id, W),
    /// The transport is told to forget a remote.
    CleanedUp(Id),
    /// A packet is written to a remote, or could not be.
    Written(Id, Result<(), ()>),
    /// The stream of a remote is read.
    Read(Id, Result<Vec<u8>, ReadFailure>),
    /// What was handed on of a remote is taken.
    Received(Id, Result<Vec<u8>, ()>),
}

impl<Id, W> Event<Id, W> {
    /// The remotes afterwards, where those before were `remotes`.
    pub open spec fn after(self, remotes: Map<Id, W>) -> Map<Id, W> {
        match self {
            Event::Inserted(id, writer) => remotes.insert(id, writer),
            Event::CleanedUp(id) => remotes.remove(id),
            Event::Written(id, result) => if result is Ok {
                remotes
            } else {
                remotes.remove(id)
            },
            Event::Read(id, result) => if result matches Err(failure) && !failure.passes() {
                remotes.remove(id)
            } else {
                remotes
            },
            Event::Received(id, result) => if result is Ok {
                remotes
            } else {
                remotes.remove(id)
            },
        }
    }

    /// Remote `id` connects.
    pub open spec fn connects(self, id: Id) -> bool {
        self matches Event::Inserted(connected, _) && connected == id
    }

    /// Remote `id` is forgotten: by a call for that, or because it could not be written to or read.
    pub open spec fn forgets(self, id: Id) -> bool {
        match self {
            Event::Inserted(_, _) => false,
            Event::CleanedUp(gone) => gone == id,
            Event::Written(gone, result) => gone == id && result is Err,
            Event::Read(gone, result) => gone == id && (result matches Err(failure)
                && !failure.passes()),
            Event::Received(gone, result) => gone == id && result is Err,
        }
    }
}

/// A read that found nothing or whose time was up changes nothing, and the stream is read on. A packet
/// is handed on as it was read. A stream that is broken has its remote handed on as gone, and that
/// remote is forgotten. Every other remote stays as it is.
pub proof fn lemma_read_touches_one<Id, W>(
    remotes: Map<Id, W>,
    after: Map<Id, W>,
    id: Id,
    result: Result<Vec<u8>, ReadFailure>,
    step: ReadStep<Id>,
)
    requires
        after == Event::<Id, W>::Read(id, result).after(remotes),
        step == step_after(id, result),
    ensures
        match result {
            Ok(packet) => after == remotes && step == ReadStep::HandOn(
                id,
                Ok::<Vec<u8>, ()>(packet),
            ),
            Err(ReadFailure::WouldBlock) => after == remotes && step is ReadOn,
            Err(ReadFailure::TimedOut) => after == remotes && step is ReadOn,
            Err(ReadFailure::Other) => !after.contains_key(id) && step == ReadStep::HandOn(
                id,
                Err::<Vec<u8>, ()>(()),
            ),
        },
        forall|other: Id|
            other != id ==> (#[trigger] after.contains_key(other) <==> remotes.contains_key(other)),
        forall|other: Id|
            other != id && remotes.contains_key(other) ==> #[trigger] after[other]
                == remotes[other],
{
}

/// A remote that was written to stays, and one that could not be is forgotten and reported as gone.
/// Every other remote stays as it is.
pub proof fn lemma_write_touches_one<Id, W, R, E>(
    remotes: Map<Id, W>,
    after: Map<Id, W>,
    id: Id,
    result: Result<(), R>,
    res: Result<(), TransportError<(), E>>,
)
    requires
        has_written(remotes, after, id, result, res),
    ensures
        result is Ok ==> after == remotes && res is Ok,
        result is Err ==> !after.contains_key(id) && (res matches Err(err) && err
            is RemoteDisconnected),
        forall|other: Id|
            other != id ==> (#[trigger] after.contains_key(other) <==> remotes.contains_key(other)),
        forall|other: Id|
            other != id && remotes.contains_key(other) ==> #[trigger] after[other]
                == remotes[other],
{
}

/// `tables` are the remotes of a transport, at first none, and then after each of `events`.
pub open spec fn lives<Id, W>(tables: Seq<Map<Id, W>>, events: Seq<Event<Id, W>>) -> bool {
    &&& tables.len() == events.len() + 1
    &&& tables[0] == Map::<Id, W>::empty()
    &&& forall|k: int|
        0 <= k < events.len() ==> tables[k + 1] == (#[trigger] events[k]).after(tables[k])
}

/// Event number `j` connects remote `id`, and no event since, up to event number `k`, has it connect
/// again or forgotten.
pub open spec fn connected_since<Id, W>(
    events: Seq<Event<Id, W>>,
    id: Id,
    j: int,
    k: int,
) -> bool {
    &&& 0 <= j < k
    &&& events[j].connects(id)
    &&& forall|m: int|
        j < m < k ==> !(#[trigger] events[m]).connects(id) && !events[m].forgets(id)
}

/// A remote can be written to exactly while it has connected and was not forgotten since, and then by
/// what it connected with last. What happens to one remote does not matter to another.
pub proof fn lemma_reached_while_connected<Id, W>(
    tables: Seq<Map<Id, W>>,
    events: Seq<Event<Id, W>>,
    id: Id,
    k: int,
)
    requires
        lives(tables, events),
        0 <= k <= events.len(),
    ensures
        tables[k].contains_key(id) <==> exists|j: int| #[trigger]
            connected_since(events, id, j, k),
        forall|j: int| #[trigger]
            connected_since(events, id, j, k) ==> (events[j] matches Event::Inserted(_, writer)
                && tables[k][id] == writer),
        k < events.len() && !events[k].connects(id) && !events[k].forgets(id) ==> (tables[k
            + 1].contains_key(id) <==> tables[k].contains_key(id)) && tables[k + 1][id]
            == tables[k][id],
    decreases k,
{
    if k < events.len() {
        let next = events[k];
        assert(tables[k + 1] == next.after(tables[k]));
    }
    if k > 0 {
        lemma_reached_while_connected(tables, events, id, k - 1);
        let event = events[k - 1];
        assert(tables[k] == event.after(tables[k - 1]));
        if event.connects(id) {
            assert(connected_since(events, id, k - 1, k));
        } else if event.forgets(id) {
            assert forall|j: int| !(#[trigger] connected_since(events, id, j, k)) by {
                if connected_since(events, id, j, k) {
                    if j < k - 1 {
                        assert(!events[k - 1].forgets(id));
                    }
                }
            }
        } else {
            if tables[k].contains_key(id) {
                let j = choose|j: int| #[trigger] connected_since(events, id, j, k - 1);
                assert(connected_since(events, id, j, k));
            }
        }
        assert forall|j: int| #[trigger] connected_since(events, id, j, k) implies (events[j]
            matches Event::Inserted(_, writer) && tables[k][id] == writer)
            && tables[k].contains_key(id) by {
            if j < k - 1 {
                assert(!events[k - 1].connects(id) && !events[k - 1].forgets(id));
                assert(connected_since(events, id, j, k - 1));
            }
        }
    }
}

/// Sending to remote `id` is to look up what writes to it by `writer`, to write, and to hand in how
/// that went by `written`. It succeeds exactly where the remote has connected and was not forgotten
/// since, and the write succeeds. Otherwise the remote is reported as gone, and is forgotten. No other
/// remote is touched.
pub proof fn lemma_send_outcome<Id, W, R, E>(
    tables: Seq<Map<Id, W>>,
    events: Seq<Event<Id, W>>,
    id: Id,
    k: int,
    found: Result<&W, TransportError<(), E>>,
    result: Result<(), R>,
    after: Map<Id, W>,
    outcome: Result<(), TransportError<(), E>>,
)
    requires
        lives(tables, events),
        0 <= k <= events.len(),
        found == if tables[k].contains_key(id) {
            Ok::<&W, TransportError<(), E>>(&tables[k][id])
        } else {
            Err(TransportError::RemoteDisconnected(()))
        },
        match found {
            Ok(_) => has_written(tables[k], after, id, result, outcome),
            Err(err) => after == tables[k] && outcome == Err::<(), TransportError<(), E>>(err),
        },
    ensures
        outcome is Ok <==> (exists|j: int| #[trigger] connected_since(events, id, j, k))
            && result is Ok,
        outcome is Ok ==> after == tables[k],
        outcome is Err ==> outcome == Err::<(), TransportError<(), E>>(
            TransportError::RemoteDisconnected(()),
        ) && after == tables[k].remove(id),
{
    lemma_reached_while_connected(tables, events, id, k);
    assert(!tables[k].contains_key(id) ==> tables[k].remove(id) =~= tables[k]);
}

/// What is handed on by `steps`, in order.
pub open spec fn handed_on<Id>(steps: Seq<ReadStep<Id>>) -> Seq<(Id, Result<Vec<u8>, ()>)>
    decreases steps.len(),
{
    if steps.len() == 0 {
        Seq::empty()
    } else {
        let before = handed_on(steps.drop_last());
        match steps.last() {
            ReadStep::HandOn(id, packet) => before.push((id, packet)),
            ReadStep::ReadOn => before,
        }
    }
}

/// The packets among `results`, in order.
pub open spec fn packets_of(results: Seq<Result<Vec<u8>, ReadFailure>>) -> Seq<Vec<u8>>
    decreases results.len(),
{
    if results.len() == 0 {
        Seq::empty()
    } else {
        let before = packets_of(results.drop_last());
        match results.last() {
            Ok(packet) => before.push(packet),
            Err(_) => before,
        }
    }
}

/// The stream of remote `id` is read with the outcomes `results`. Before each read the remotes are
/// `befores`, after it they are `afters`, and in between nobody else forgets the remote.
pub open spec fn reads<Id, W>(
    befores: Seq<Map<Id, W>>,
    afters: Seq<Map<Id, W>>,
    id: Id,
    results: Seq<Result<Vec<u8>, ReadFailure>>,
    steps: Seq<ReadStep<Id>>,
) -> bool {
    &&& befores.len() == results.len()
    &&& afters.len() == results.len()
    &&& steps.len() == results.len()
    &&& befores.len() > 0 ==> befores[0].contains_key(id)
    &&& forall|i: int|
        0 <= i < results.len() ==> afters[i] == Event::Read(id, #[trigger] results[i]).after(
            befores[i],
        ) && steps[i] == step_after(id, results[i])
    &&& forall|i: int|
        0 <= i < results.len() - 1 && (#[trigger] afters[i]).contains_key(id) ==> befores[i
            + 1].contains_key(id)
}

/// The reads of a stream but for the last are reads of that stream.
proof fn lemma_reads_before<Id, W>(
    befores: Seq<Map<Id, W>>,
    afters: Seq<Map<Id, W>>,
    id: Id,
    results: Seq<Result<Vec<u8>, ReadFailure>>,
    steps: Seq<ReadStep<Id>>,
)
    requires
        reads(befores, afters, id, results, steps),
        results.len() > 0,
    ensures
        reads(
            befores.drop_last(),
            afters.drop_last(),
            id,
            results.drop_last(),
            steps.drop_last(),
        ),
{
    let n = results.len() as int;
    let shorter = results.drop_last();
    assert forall|i: int| 0 <= i < n - 1 implies afters.drop_last()[i] == Event::Read(
        id,
        #[trigger] shorter[i],
    ).after(befores.drop_last()[i]) && steps.drop_last()[i] == step_after(id, shorter[i]) by {
        assert(results[i] == shorter[i]);
    }
    assert forall|i: int|
        0 <= i < n - 2 && (#[trigger] afters.drop_last()[i]).contains_key(
            id,
        ) implies befores.drop_last()[i + 1].contains_key(id) by {
        assert(afters[i].contains_key(id));
    }
}

/// While the stream of a remote is not broken, its packets are handed on in order, each of them once,
/// and nothing else is. It is still to be read.
pub proof fn lemma_stream_read_on<Id, W>(
    befores: Seq<Map<Id, W>>,
    afters: Seq<Map<Id, W>>,
    id: Id,
    results: Seq<Result<Vec<u8>, ReadFailure>>,
    steps: Seq<ReadStep<Id>>,
)
    requires
        reads(befores, afters, id, results, steps),
        forall|i: int|
            0 <= i < results.len() ==> ((#[trigger] results[i]) matches Err(failure)
                ==> failure.passes()),
    ensures
        handed_on(steps) == packets_of(results).map_values(
            |packet: Vec<u8>| (id, Ok::<Vec<u8>, ()>(packet)),
        ),
        forall|i: int|
            0 <= i < results.len() ==> (#[trigger] befores[i]).contains_key(id)
                && afters[i].contains_key(id),
    decreases results.len(),
{
    let tag = |packet: Vec<u8>| (id, Ok::<Vec<u8>, ()>(packet));
    let n = results.len() as int;
    if n == 0 {
        assert(handed_on(steps) =~= packets_of(results).map_values(tag));
    } else {
        lemma_reads_before(befores, afters, id, results, steps);
        let shorter = results.drop_last();
        assert forall|i: int| 0 <= i < shorter.len() implies ((#[trigger] shorter[i]) matches Err(
            failure,
        ) ==> failure.passes()) by {
            assert(results[i] == shorter[i]);
        }
        lemma_stream_read_on(
            befores.drop_last(),
            afters.drop_last(),
            id,
            shorter,
            steps.drop_last(),
        );
        if n > 1 {
            assert(befores.drop_last()[n - 2].contains_key(id));
            assert(afters[n - 2].contains_key(id));
        }
        assert(results[n - 1] == results.last());
        assert(steps.last() == step_after(id, results.last()));
        assert(handed_on(steps) =~= packets_of(results).map_values(tag));
        assert forall|i: int| 0 <= i < n implies (#[trigger] befores[i]).contains_key(id)
            && afters[i].contains_key(id) by {
            if i < n - 1 {
                assert(befores.drop_last()[i].contains_key(id));
            }
        }
    }
}

/// The life of the stream of a remote, up to the read that finds it broken: its packets are handed on
/// in order, each of them once, then that the remote is gone, and nothing else. The remote is then
/// forgotten, so that its stream is not read any more.
pub proof fn lemma_stream_life<Id, W>(
    befores: Seq<Map<Id, W>>,
    afters: Seq<Map<Id, W>>,
    id: Id,
    results: Seq<Result<Vec<u8>, ReadFailure>>,
    steps: Seq<ReadStep<Id>>,
)
    requires
        reads(befores, afters, id, results, steps),
        results.len() > 0,
        results.last() matches Err(failure) && !failure.passes(),
        forall|i: int|
            0 <= i < results.len() - 1 ==> ((#[trigger] results[i]) matches Err(failure)
                ==> failure.passes()),
    ensures
        handed_on(steps) == packets_of(results.drop_last()).map_values(
            |packet: Vec<u8>| (id, Ok::<Vec<u8>, ()>(packet)),
        ).push((id, Err::<Vec<u8>, ()>(()))),
        forall|i: int| 0 <= i < results.len() ==> (#[trigger] befores[i]).contains_key(id),
        !afters.last().contains_key(id),
{
    let n = results.len() as int;
    lemma_reads_before(befores, afters, id, results, steps);
    let shorter = results.drop_last();
    assert forall|i: int| 0 <= i < shorter.len() implies ((#[trigger] shorter[i]) matches Err(
        failure,
    ) ==> failure.passes()) by {
        assert(results[i] == shorter[i]);
    }
    lemma_stream_read_on(
        befores.drop_last(),
        afters.drop_last(),
        id,
        shorter,
        steps.drop_last(),
    );
    assert(results[n - 1] == results.last());
    assert(steps.last() == step_after(id, results.last()));
    if n > 1 {
        assert(befores.drop_last()[n - 2].contains_key(id));
        assert(afters[n - 2].contains_key(id));
    }
    assert forall|i: int| 0 <= i < n implies (#[trigger] befores[i]).contains_key(id) by {
        if i < n - 1 {
            assert(befores.drop_last()[i].contains_key(id));
        }
    }
}

/// Copies as much of `data` into `buf` as there is room for, and says how much that was.
pub fn fill(buf: &mut [u8], data: &[u8]) -> (res: usize)
    ensures
        res == if data@.len() <= old(buf)@.len() {
            data@.len()
        } else {
            old(buf)@.len()
        },
        final(buf)@ == data@.take(res as int) + old(buf)@.skip(res as int),
{
    let size: usize = if data.len() <= buf.len() {
        data.len()
    } else {
        buf.len()
    };
    let mut i: usize = 0;
    while i < size
        invariant
            i <= size <= data@.len(),
            size <= old(buf)@.len(),
            buf@ == data@.take(i as int) + old(buf)@.skip(i as int),
        decreases size - i,
    {
        buf[i] = data[i];
        i = i + 1;
        assert(buf@ =~= data@.take(i as int) + old(buf)@.skip(i as int));
    }
    size
}

} // verus!
