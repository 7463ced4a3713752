//! The time-ordered queue of commands for the mechanics layer.
use vstd::prelude::*;
use crate::ids::{Distance, PedestrianID, Speed, Time, TripID};
use crate::model::{ParkedCar, Path, PathRequest, SidewalkSpot, TripEndpoint, Vehicle};

verus! {

/// Everything needed to make a pedestrian appear and start walking.
#[derive(Debug, PartialEq, Eq)]
pub struct CreatePedestrian {
    pub id: PedestrianID,
    pub start: SidewalkSpot,
    pub speed: Speed,
    pub goal: SidewalkSpot,
    pub path: Path,
    pub req: PathRequest,
    pub trip: TripID,
}

/// Everything needed to make a vehicle appear and start driving.
#[derive(Debug, PartialEq, Eq)]
pub struct CreateCar {
    pub vehicle: Vehicle,
    pub path: Path,
    pub goal: TripEndpoint,
    pub req: PathRequest,
    pub start_dist: Distance,
    /// The parked car that becomes this vehicle, if it leaves a parking spot.
    pub maybe_parked_car: Option<ParkedCar>,
    pub trip: TripID,
    /// How many times the vehicle already failed to appear for want of room.
    pub retries: u32,
}

impl CreateCar {
    pub fn for_appearing(
        vehicle: Vehicle,
        start_dist: Distance,
        goal: TripEndpoint,
        path: Path,
        req: PathRequest,
        trip: TripID,
    ) -> (r: CreateCar)
        ensures
            r.vehicle == vehicle,
            r.start_dist == start_dist,
            r.goal == goal,
            r.path == path,
            r.req == req,
            r.maybe_parked_car.is_none(),
            r.trip == trip,
            r.retries == 0,
    {
        CreateCar { vehicle, path, goal, req, start_dist, maybe_parked_car: None, trip, retries: 0 }
    }

    pub fn for_parked_car(
        parked_car: ParkedCar,
        start_dist: Distance,
        goal: TripEndpoint,
        path: Path,
        req: PathRequest,
        trip: TripID,
    ) -> (r: CreateCar)
        ensures
            r.vehicle == parked_car.vehicle,
            r.start_dist == start_dist,
            r.goal == goal,
            r.path == path,
            r.req == req,
            r.maybe_parked_car == Some(parked_car),
            r.trip == trip,
            r.retries == 0,
    {
        CreateCar {
            vehicle: parked_car.vehicle,
            path,
            goal,
            req,
            start_dist,
            maybe_parked_car: Some(parked_car),
            trip,
            retries: 0,
        }
    }
}

#[derive(Debug, PartialEq, Eq)]
pub enum Command {
    SpawnPed(CreatePedestrian),
    /// The flag says whether to retry later, rather than give up, when there is no room.
    SpawnCar(CreateCar, bool),
}

/// Entries ordered by time, those of one time in the order they were pushed.
pub open spec fn sorted_by_time(q: Seq<(Time, Command)>) -> bool {
    forall|i: int, j: int| 0 <= i < j < q.len() ==> #[trigger] q[i].0 <= #[trigger] q[j].0
}

/// `k` splits the queue into the entries due at `t` and those later.
pub open spec fn splits_at(q: Seq<(Time, Command)>, t: Time, k: int) -> bool {
    &&& 0 <= k <= q.len()
    &&& forall|i: int| 0 <= i < k ==> #[trigger] q[i].0 <= t
    &&& forall|i: int| k <= i < q.len() ==> #[trigger] q[i].0 > t
}

/// `after` is `before` with `cmd` queued for `time`, after the commands queued for that time.
pub open spec fn pushed(before: Scheduler, after: Scheduler, time: Time, cmd: Command) -> bool {
    &&& after.wf()
    &&& after.batched() == before.batched()
    &&& after.current_time() == before.current_time()
    &&& exists|k: int|
        splits_at(before.queued(), time, k) && after.queued() == before.queued().insert(
            k,
            (time, cmd),
        )
}

/// How many entries are due at `t`.
pub open spec fn count_due(q: Seq<(Time, Command)>, t: Time) -> nat
    decreases q.len(),
{
    if q.len() == 0 {
        0
    } else {
        count_due(q.drop_last(), t) + if q.last().0 <= t {
            1nat
        } else {
            0nat
        }
    }
}

/// `q` with `e` queued after every entry due by its time.
pub open spec fn queue_insert(q: Seq<(Time, Command)>, e: (Time, Command)) -> Seq<(Time, Command)> {
    q.insert(count_due(q, e.0) as int, e)
}

/// `q` with the entries of `batch` queued one after the other.
pub open spec fn queue_insert_all(q: Seq<(Time, Command)>, batch: Seq<(Time, Command)>) -> Seq<
    (Time, Command),
>
    decreases batch.len(),
{
    if batch.len() == 0 {
        q
    } else {
        queue_insert(queue_insert_all(q, batch.drop_last()), batch.last())
    }
}

/// Where a queue splits for a time, as many entries as are due come before.
pub proof fn lemma_split_at_count(q: Seq<(Time, Command)>, t: Time, k: int)
    requires
        splits_at(q, t, k),
    ensures
        k == count_due(q, t),
    decreases q.len(),
{
    if q.len() > 0 {
        let p = q.drop_last();
        if q.last().0 <= t {
            assert(k == q.len()) by {
                if k < q.len() {
                    assert(q[q.len() - 1].0 > t);
                }
            }
            assert(splits_at(p, t, k - 1));
            lemma_split_at_count(p, t, k - 1);
        } else {
            assert(k < q.len()) by {
                if k == q.len() {
                    assert(q[q.len() - 1].0 <= t);
                }
            }
            assert(splits_at(p, t, k));
            lemma_split_at_count(p, t, k);
        }
    }
}

/// A queue splits at one place only for a given time: where a command is queued, and which
/// commands are due, depend on nothing but the queue's contents and the time.
pub proof fn lemma_split_unique(q: Seq<(Time, Command)>, t: Time, k1: int, k2: int)
    requires
        splits_at(q, t, k1),
        splits_at(q, t, k2),
    ensures
        k1 == k2,
{
    if k1 < k2 {
        assert(q[k1].0 > t);
    } else if k2 < k1 {
        assert(q[k2].0 > t);
    }
}

/// Delivery depends on nothing but what is queued: with the same entries, the commands handed
/// out at a time, and those left, are the same, so runs with the same demand deliver alike.
pub proof fn lemma_delivery_determined(q: Seq<(Time, Command)>, now: Time, k1: int, k2: int)
    requires
        splits_at(q, now, k1),
        splits_at(q, now, k2),
    ensures
        q.take(k1).map_values(|e: (Time, Command)| e.1) == q.take(k2).map_values(
            |e: (Time, Command)| e.1,
        ),
        q.skip(k1) == q.skip(k2),
{
    lemma_split_unique(q, now, k1, k2);
}

pub struct Scheduler {
    queue: Vec<(Time, Command)>,
    /// Entries of a batch, in the order they came, not yet in the queue.
    batch: Vec<(Time, Command)>,
    now: Time,
}

impl Scheduler {
    /// The queued entries, in delivery order.
    pub closed spec fn queued(&self) -> Seq<(Time, Command)> {
        self.queue@
    }

    /// The entries of the batch still to be merged, in the order they came.
    pub closed spec fn batched(&self) -> Seq<(Time, Command)> {
        self.batch@
    }

    /// The time of the latest delivery.
    pub closed spec fn current_time(&self) -> Time {
        self.now
    }

    pub closed spec fn wf(&self) -> bool {
        sorted_by_time(self.queue@)
    }

    pub fn new() -> (r: Scheduler)
        ensures
            r.wf(),
            r.queued().len() == 0,
            r.batched().len() == 0,
            r.current_time() == 0,
    {
        Scheduler { queue: Vec::new(), batch: Vec::new(), now: 0 }
    }

    /// Queues a command for `time`, after all queued commands of the same time.
    pub fn push(&mut self, time: Time, cmd: Command)
        requires
            old(self).wf(),
            time >= old(self).current_time(),
        ensures
            pushed(*old(self), *final(self), time, cmd),
            final(self).queued() == queue_insert(old(self).queued(), (time, cmd)),
    {
        self.insert_sorted(time, cmd);
        proof {
            let k = choose|k: int|
                splits_at(old(self).queued(), time, k) && self.queued() == old(self).queued().insert(
                    k,
                    (time, cmd),
                );
            lemma_split_at_count(old(self).queued(), time, k);
        }
    }

    fn insert_sorted(&mut self, time: Time, cmd: Command)
        requires
            old(self).wf(),
        ensures
            final(self).wf(),
            exists|k: int|
                splits_at(old(self).queued(), time, k) && final(self).queued() == old(
                    self,
                ).queued().insert(k, (time, cmd)),
            final(self).batch == old(self).batch,
            final(self).now == old(self).now,
    {
        let mut k: usize = self.queue.len();
        while k > 0 && self.queue[k - 1].0 > time
            invariant
                0 <= k <= self.queue@.len(),
                self.queue == old(self).queue,
                sorted_by_time(self.queue@),
                forall|i: int| k <= i < self.queue@.len() ==> #[trigger] self.queue@[i].0 > time,
            decreases k,
        {
            k = k - 1;
        }
        let ghost q = self.queue@;
        assert(splits_at(q, time, k as int));
        self.queue.insert(k, (time, cmd));
        assert(self.queue@ == q.insert(k as int, (time, cmd)));
        assert(splits_at(old(self).queued(), time, k as int));
        assert(sorted_by_time(self.queue@)) by {
            assert forall|i: int, j: int| 0 <= i < j < self.queue@.len() implies #[trigger]
                self.queue@[i].0 <= #[trigger] self.queue@[j].0 by {
                if i < k && j > k {
                    assert(self.queue@[j] == q[j - 1]);
                } else if i > k {
                    assert(self.queue@[i] == q[i - 1]);
                }
            }
        }
    }

    /// Adds a command to the batch; it is queued at `finalize_batch`.
    pub fn quick_push(&mut self, time: Time, cmd: Command)
        requires
            old(self).wf(),
        ensures
            final(self).wf(),
            final(self).queued() == old(self).queued(),
            final(self).batched() == old(self).batched().push((time, cmd)),
            final(self).current_time() == old(self).current_time(),
    {
        self.batch.push((time, cmd));
    }

    /// Queues the batch, as if each entry of it had been pushed in turn.
    pub fn finalize_batch(&mut self)
        requires
            old(self).wf(),
        ensures
            final(self).wf(),
            final(self).batched().len() == 0,
            final(self).queued() == queue_insert_all(old(self).queued(), old(self).batched()),
            final(self).current_time() == old(self).current_time(),
    {
        let mut batch = Vec::new();
        std::mem::swap(&mut batch, &mut self.batch);
        let ghost q0 = self.queue@;
        let ghost b0 = batch@;
        let n: usize = batch.len();
        let mut j: usize = 0;
        while batch.len() > 0
            invariant
                b0.len() == n,
                self.wf(),
                self.batch@.len() == 0,
                0 <= j <= b0.len(),
                batch@ == b0.skip(j as int),
                self.queue@ == queue_insert_all(q0, b0.take(j as int)),
                self.now == old(self).now,
            decreases batch@.len(),
        {
            let ghost q = self.queue@;
            assert(batch@.len() == b0.len() - j);
            let (t, cmd) = batch.remove(0);
            assert(b0[j as int] == (t, cmd));
            self.insert_sorted(t, cmd);
            proof {
                let k = choose|k: int| splits_at(q, t, k) && self.queue@ == q.insert(k, (t, cmd));
                lemma_split_at_count(q, t, k);
                assert(b0.take(j as int + 1).drop_last() == b0.take(j as int));
                assert(b0.take(j as int + 1).last() == (t, cmd));
            }
            j = j + 1;
            assert(batch@ =~= b0.skip(j as int));
        }
        assert(b0.take(j as int) == b0);
    }

    /// Takes out every queued command due at `now`, earliest first, those of one time in the
    /// order they were pushed.
    pub fn pop_due(&mut self, now: Time) -> (r: Vec<Command>)
        requires
            old(self).wf(),
            now >= old(self).current_time(),
        ensures
            final(self).wf(),
            final(self).current_time() == now,
            final(self).batched() == old(self).batched(),
            exists|k: int|
                splits_at(old(self).queued(), now, k) && r@ == old(self).queued().take(k).map_values(
                    |e: (Time, Command)| e.1,
                ) && final(self).queued() == old(self).queued().skip(k),
    {
        let ghost q = self.queue@;
        let mut out: Vec<Command> = Vec::new();
        let mut rest = Vec::new();
        std::mem::swap(&mut rest, &mut self.queue);
        let n: usize = rest.len();
        let mut k: usize = 0;
        while rest.len() > 0 && rest[0].0 <= now
            invariant
                0 <= k <= q.len(),
                q.len() == n,
                rest@ == q.skip(k as int),
                rest@.len() == q.len() - k,
                out@ == q.take(k as int).map_values(|e: (Time, Command)| e.1),
                forall|i: int| 0 <= i < k ==> #[trigger] q[i].0 <= now,
                sorted_by_time(q),
                self.queue@.len() == 0,
                self.batch == old(self).batch,
                self.now == old(self).now,
            decreases rest@.len(),
        {
            assert(rest@.len() == q.len() - k);
            let (t, cmd) = rest.remove(0);
            assert(q[k as int].0 == t);
            out.push(cmd);
            k = k + 1;
            assert(out@ =~= q.take(k as int).map_values(|e: (Time, Command)| e.1));
            assert(rest@ =~= q.skip(k as int));
        }
        assert(splits_at(q, now, k as int)) by {
            if k < q.len() {
                assert(q[k as int].0 > now);
                assert forall|i: int| k <= i < q.len() implies #[trigger] q[i].0 > now by {
                    assert(q[k as int].0 <= q[i].0);
                }
            }
        }
        self.queue = rest;
        assert(sorted_by_time(self.queue@)) by {
            assert forall|i: int, j: int| 0 <= i < j < self.queue@.len() implies #[trigger]
                self.queue@[i].0 <= #[trigger] self.queue@[j].0 by {
                assert(self.queue@[i] == q[i + k]);
                assert(self.queue@[j] == q[j + k]);
            }
        }
        self.now = now;
        assert(self.queue@ == q.skip(k as int));
        assert(q == old(self).queued());
        assert(splits_at(old(self).queued(), now, k as int) && out@ == q.take(k as int).map_values(
            |e: (Time, Command)| e.1,
        ) && self.queue@ == q.skip(k as int));
        out
    }

    /// Whether no command is queued or batched.
    pub fn is_empty(&self) -> (r: bool)
        ensures
            r == (self.queued().len() == 0 && self.batched().len() == 0),
    {
        self.queue.len() == 0 && self.batch.len() == 0
    }
}

} // verus!
