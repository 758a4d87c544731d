//! The crowd and the lines it stands in.
//!
//! The passes a tick makes over everybody in the park that need only their
//! visits: who has made it back to the entrance, who has given up on a line,
//! who joins one, and who is turned loose when a ride stops. What a guest
//! feels about any of it is the body's business, not this module's.

use vstd::prelude::*;

use crate::park::visit::decided;
use crate::park::{Money, Park, Plan, Queue, TilePos, Visit};

verus! {

/// Every guest in `vs` is standing somewhere on its route.
pub open spec fn all_wf(vs: Seq<Visit>) -> bool {
    forall|k: int| 0 <= k < vs.len() ==> #[trigger] vs[k].wf()
}

/// Whether `v` has walked back to `entrance` meaning to leave, and has got
/// there.
pub open spec fn leaving(v: Visit, entrance: TilePos) -> bool {
    v.plan_of() == Plan::GoingHome && v.idle() && v.here() == entrance
}

/// The guests who stay when those at `entrance` on their way out have gone.
pub open spec fn staying(entrance: TilePos) -> spec_fn(Visit) -> bool {
    |v: Visit| !leaving(v, entrance)
}

/// Sees off everybody who has made it back to the entrance meaning to go
/// home, and returns how many left.
///
/// Everybody else stays, in the order they were in.
pub fn show_out_the_guests(visits: &mut Vec<Visit>, entrance: TilePos) -> (left: usize)
    requires
        all_wf(old(visits)@),
    ensures
        final(visits)@ == old(visits)@.filter(staying(entrance)),
        all_wf(final(visits)@),
        left == old(visits)@.len() - final(visits)@.len(),
{
    let mut rest: Vec<Visit> = Vec::new();
    std::mem::swap(&mut rest, visits);
    let ghost all = rest@;
    let total = rest.len();
    let mut kept: Vec<Visit> = Vec::new();
    let mut done: usize = 0;
    while rest.len() > 0
        invariant
            all_wf(all),
            total == all.len(),
            done + rest@.len() == all.len(),
            rest@ == all.subrange(done as int, all.len() as int),
            kept@ == all.take(done as int).filter(staying(entrance)),
            all_wf(kept@),
            kept@.len() <= done,
        decreases rest@.len(),
    {
        let v = rest.remove(0);
        proof {
            assert(v == all[done as int]);
            assert(all.take(done as int + 1) =~= all.take(done as int).push(v));
            all.take(done as int).lemma_filter_push(v, staying(entrance));
        }
        if !(v.is_going_home() && v.is_idle() && v.tile() == entrance) {
            kept.push(v);
        }
        done = done + 1;
        proof {
            assert(rest@ =~= all.subrange(done as int, all.len() as int));
        }
    }
    proof {
        assert(all.take(done as int) =~= all);
    }
    *visits = kept;
    total - visits.len()
}

/// `k` is the first guest in `vs` with the id `id`.
pub open spec fn first_with(vs: Seq<Visit>, id: u32, k: int) -> bool {
    &&& 0 <= k < vs.len()
    &&& vs[k].id_of() == id
    &&& forall|j: int| 0 <= j < k ==> vs[j].id_of() != id
}

/// Whether the guest `id` is in `vs` and still queueing for `ride`.
pub open spec fn still_in_line(vs: Seq<Visit>, ride: u32, id: u32) -> bool {
    exists|k: int| first_with(vs, id, k) && #[trigger] waits_for(vs[k], ride)
}

/// Whether `v` is queueing for `ride`.
pub open spec fn waits_for(v: Visit, ride: u32) -> bool {
    v.queue_of() matches Some((r, _)) && r == ride
}

/// The ids that stay in the line for `ride`.
pub open spec fn still_waiting(vs: Seq<Visit>, ride: u32) -> spec_fn(u32) -> bool {
    |id: u32| still_in_line(vs, ride, id)
}

/// Where the first guest with the id `id` is in `visits`, if it is there.
pub fn find_guest(visits: &[Visit], id: u32) -> (k: Option<usize>)
    ensures
        k matches Some(k) ==> first_with(visits@, id, k as int),
        k is None ==> forall|j: int| 0 <= j < visits@.len() ==> visits@[j].id_of() != id,
{
    let mut i: usize = 0;
    while i < visits.len()
        invariant
            i <= visits@.len(),
            forall|j: int| 0 <= j < i ==> visits@[j].id_of() != id,
        decreases visits@.len() - i,
    {
        if visits[i].id() == id {
            return Some(i);
        }
        i = i + 1;
    }
    None
}

/// Whether the guest `id` is still queueing for `ride`.
fn is_still_in_line(visits: &[Visit], ride: u32, id: u32) -> (b: bool)
    ensures
        b == still_in_line(visits@, ride, id),
{
    match find_guest(visits, id) {
        None => {
            proof {
                if still_in_line(visits@, ride, id) {
                    let k = choose|k: int| first_with(visits@, id, k) && waits_for(visits@[k], ride);
                    assert(visits@[k].id_of() == id);
                }
            }
            false
        },
        Some(k) => {
            let b = match visits[k].queueing_for() {
                Some((r, _)) => r == ride,
                None => false,
            };
            proof {
                if b {
                    assert(first_with(visits@, id, k as int) && waits_for(visits@[k as int], ride));
                }
                if still_in_line(visits@, ride, id) {
                    let j = choose|j: int| first_with(visits@, id, j) && waits_for(visits@[j], ride);
                    if j < k {
                        assert(visits@[j].id_of() != id);
                    } else if k < j {
                        assert(visits@[k as int].id_of() != id);
                    }
                }
            }
            b
        },
    }
}

/// Drops anybody from the line for `ride` who is no longer waiting in it.
///
/// A guest that gives up on the day decides to go home, and does not change
/// its mind: without this it would keep its place at the front of a line it
/// is walking away from, and nobody behind it would ever board. Everybody who
/// stays keeps their place relative to the others.
pub fn clear_out_the_line(queue: &mut Queue, ride: u32, visits: &[Visit])
    requires
        old(queue).wf(),
    ensures
        final(queue).wf(),
        final(queue).line() == old(queue).line().filter(still_waiting(visits@, ride)),
{
    let waiting = queue.send_everybody_away();
    let ghost w = waiting@;
    let ghost p = still_waiting(visits@, ride);
    let mut i: usize = 0;
    while i < waiting.len()
        invariant
            i <= w.len(),
            waiting@ == w,
            w == old(queue).line(),
            w.len() <= Queue::MAX_LENGTH,
            w.no_duplicates(),
            p == still_waiting(visits@, ride),
            queue.wf(),
            queue.line() == w.take(i as int).filter(p),
        decreases w.len() - i,
    {
        let id = waiting[i];
        proof {
            assert(w.take(i as int + 1) =~= w.take(i as int).push(id));
            w.take(i as int).lemma_filter_push(id, p);
            w.take(i as int).lemma_filter_len(p);
            if queue.line().contains(id) {
                w.take(i as int).lemma_filter_contains_rev(p, id);
                let j = choose|j: int| 0 <= j < i && w.take(i as int)[j] == id;
                assert(w[j] == w[i as int]);
            }
        }
        if is_still_in_line(visits, ride, id) {
            let joined = queue.join(id);
            assert(joined);
        }
        i = i + 1;
    }
    proof {
        assert(w.take(w.len() as int) =~= w);
    }
}

/// Sends everybody in `sent_away` off to find something else to do: the ride
/// they were waiting for has stopped.
pub fn send_the_line_away(visits: &mut Vec<Visit>, sent_away: &[u32])
    ensures
        final(visits)@.len() == old(visits)@.len(),
        forall|k: int|
            0 <= k < old(visits)@.len() ==> if sent_away@.contains(#[trigger] old(visits)@[k].id_of()) {
                old(visits)@[k].with_plan(
                    &final(visits)@[k],
                    decided(old(visits)@[k].plan_of(), Plan::Wandering),
                )
            } else {
                final(visits)@[k] == old(visits)@[k]
            },
{
    let ghost before = visits@;
    let mut i: usize = 0;
    while i < visits.len()
        invariant
            i <= visits@.len(),
            visits@.len() == before.len(),
            forall|k: int|
                0 <= k < i ==> if sent_away@.contains(#[trigger] before[k].id_of()) {
                    before[k].with_plan(&visits@[k], decided(before[k].plan_of(), Plan::Wandering))
                } else {
                    visits@[k] == before[k]
                },
            forall|k: int| i <= k < visits@.len() ==> visits@[k] == before[k],
        decreases visits@.len() - i,
    {
        let id = visits[i].id();
        if contains_id(sent_away, id) {
            let mut v = visits.remove(i);
            v.decide(Plan::Wandering);
            visits.insert(i, v);
        }
        i = i + 1;
    }
}

/// Whether `id` is one of `ids`.
fn contains_id(ids: &[u32], id: u32) -> (b: bool)
    ensures
        b == ids@.contains(id),
{
    let mut i: usize = 0;
    while i < ids.len()
        invariant
            i <= ids@.len(),
            forall|j: int| 0 <= j < i ==> ids@[j] != id,
        decreases ids@.len() - i,
    {
        if ids[i] == id {
            return true;
        }
        i = i + 1;
    }
    false
}

/// Whether `v` has stood in a line longer than it was worth, at the tick `now`.
pub open spec fn out_of_patience(v: Visit, now: u64) -> bool {
    v.queue_of() matches Some((_, since)) && now - since > Queue::PATIENCE
}

/// The guests who give up waiting at `now`.
pub open spec fn tired_of_waiting(now: u64) -> spec_fn(Visit) -> bool {
    |v: Visit| out_of_patience(v, now)
}

/// Who gave up on which line.
pub open spec fn ticket(v: Visit) -> (u32, u32) {
    (
        v.id_of(),
        match v.queue_of() {
            Some((ride, _)) => ride,
            None => 0,
        },
    )
}

/// Lets go of anybody who has stood in a line for longer than its patience
/// lasts, and returns who they were and which ride they gave up on.
///
/// A queue that never moves is the most reliable way to empty a park; the
/// caller takes them out of the line and sees to their mood.
pub fn give_up_waiting(visits: &mut Vec<Visit>, now: u64) -> (gave_up: Vec<(u32, u32)>)
    ensures
        final(visits)@.len() == old(visits)@.len(),
        forall|k: int|
            0 <= k < old(visits)@.len() ==> if out_of_patience(#[trigger] old(visits)@[k], now) {
                old(visits)@[k].with_plan(
                    &final(visits)@[k],
                    decided(old(visits)@[k].plan_of(), Plan::Wandering),
                )
            } else {
                final(visits)@[k] == old(visits)@[k]
            },
        gave_up@ == old(visits)@.filter(tired_of_waiting(now)).map_values(|v: Visit| ticket(v)),
{
    let ghost before = visits@;
    let ghost p = tired_of_waiting(now);
    let mut gave_up: Vec<(u32, u32)> = Vec::new();
    let mut i: usize = 0;
    while i < visits.len()
        invariant
            i <= visits@.len(),
            visits@.len() == before.len(),
            p == tired_of_waiting(now),
            forall|k: int|
                0 <= k < i ==> if out_of_patience(#[trigger] before[k], now) {
                    before[k].with_plan(&visits@[k], decided(before[k].plan_of(), Plan::Wandering))
                } else {
                    visits@[k] == before[k]
                },
            forall|k: int| i <= k < visits@.len() ==> visits@[k] == before[k],
            gave_up@ == before.take(i as int).filter(p).map_values(|v: Visit| ticket(v)),
        decreases visits@.len() - i,
    {
        let ghost v0 = before[i as int];
        proof {
            assert(before.take(i as int + 1) =~= before.take(i as int).push(v0));
            before.take(i as int).lemma_filter_push(v0, p);
        }
        match visits[i].queueing_for() {
            Some((ride, since)) => {
                if now.saturating_sub(since) > Queue::PATIENCE as u64 {
                    let id = visits[i].id();
                    let mut v = visits.remove(i);
                    v.decide(Plan::Wandering);
                    visits.insert(i, v);
                    gave_up.push((id, ride));
                    proof {
                        assert(gave_up@ =~= before.take(i as int + 1).filter(p).map_values(
                            |v: Visit| ticket(v),
                        ));
                    }
                } else {
                    proof {
                        assert(before.take(i as int + 1).filter(p) == before.take(i as int).filter(p));
                    }
                }
            },
            None => {
                proof {
                    assert(before.take(i as int + 1).filter(p) == before.take(i as int).filter(p));
                }
            },
        }
        i = i + 1;
    }
    proof {
        assert(before.take(before.len() as int) =~= before);
    }
    gave_up
}

/// Sends off anybody on the way to a line for a ride that is no longer there.
pub fn forget_lost_rides(visits: &mut Vec<Visit>, park: &Park)
    ensures
        final(visits)@.len() == old(visits)@.len(),
        forall|k: int|
            0 <= k < old(visits)@.len() ==> if (#[trigger] old(visits)@[k]).queue_of() matches Some(
                (ride, _),
            ) && !park.has_ride(ride) {
                old(visits)@[k].with_plan(
                    &final(visits)@[k],
                    decided(old(visits)@[k].plan_of(), Plan::Wandering),
                )
            } else {
                final(visits)@[k] == old(visits)@[k]
            },
{
    let ghost before = visits@;
    let mut i: usize = 0;
    while i < visits.len()
        invariant
            i <= visits@.len(),
            visits@.len() == before.len(),
            forall|k: int|
                0 <= k < i ==> if (#[trigger] before[k]).queue_of() matches Some((ride, _))
                    && !park.has_ride(ride) {
                    before[k].with_plan(&visits@[k], decided(before[k].plan_of(), Plan::Wandering))
                } else {
                    visits@[k] == before[k]
                },
            forall|k: int| i <= k < visits@.len() ==> visits@[k] == before[k],
        decreases visits@.len() - i,
    {
        if let Some((ride, _)) = visits[i].queueing_for() {
            if park.find_ride(ride).is_none() {
                let mut v = visits.remove(i);
                v.decide(Plan::Wandering);
                visits.insert(i, v);
            }
        }
        i = i + 1;
    }
}

/// What becomes of one guest when the line for a ride is joined.
#[derive(Debug, Clone, Copy, PartialEq, Eq, Structural)]
pub enum Joining {
    /// Nothing: not waiting for this ride, already in its line, or not yet at
    /// the back of it.
    Stays,
    /// Sent off to do something else: the ride is shut, or its line is full.
    Wanders,
    /// Takes its place at the back of the line and stands still there.
    Joins,
}

/// What becomes of `v` at the line for `ride` when the line holds `q`, the
/// ride is `open` or not, and the queue path it stands on is `line`.
///
/// A line is joined at the back, not barged into from the side, and it holds
/// as many as there is path to stand on.
pub open spec fn joining(q: Seq<u32>, ride: u32, open: bool, line: Seq<TilePos>, v: Visit) -> Joining {
    if !waits_for(v, ride) || q.contains(v.id_of()) {
        Joining::Stays
    } else if !open {
        Joining::Wanders
    } else if !line.contains(v.here()) {
        Joining::Stays
    } else if q.len() >= line.len() || q.len() >= Queue::MAX_LENGTH {
        Joining::Wanders
    } else {
        Joining::Joins
    }
}

/// The line for `ride` once every guest of `vs`, in order, has had its turn
/// at joining it.
pub open spec fn line_after(
    q0: Seq<u32>,
    ride: u32,
    open: bool,
    line: Seq<TilePos>,
    vs: Seq<Visit>,
) -> Seq<u32>
    decreases vs.len(),
{
    if vs.len() == 0 {
        q0
    } else {
        let q = line_after(q0, ride, open, line, vs.drop_last());
        if joining(q, ride, open, line, vs.last()) == Joining::Joins {
            q.push(vs.last().id_of())
        } else {
            q
        }
    }
}

/// Whether `t` is one of the tiles of `line`.
fn on_the_line(line: &[TilePos], t: TilePos) -> (b: bool)
    ensures
        b == line@.contains(t),
{
    let mut i: usize = 0;
    while i < line.len()
        invariant
            i <= line@.len(),
            forall|j: int| 0 <= j < i ==> line@[j] != t,
        decreases line@.len() - i,
    {
        if line[i] == t {
            return true;
        }
        i = i + 1;
    }
    false
}

/// Whether `now` is what became of the `k`th guest of `before` when it had its
/// turn at the line for `ride`, which then held what the guests ahead of it
/// had left it.
pub open spec fn turn_taken(
    q0: Seq<u32>,
    ride: u32,
    open: bool,
    line: Seq<TilePos>,
    before: Seq<Visit>,
    k: int,
    now: Visit,
) -> bool {
    let q = line_after(q0, ride, open, line, before.take(k));
    match joining(q, ride, open, line, before[k]) {
        Joining::Stays => now == before[k],
        Joining::Wanders => before[k].with_plan(&now, decided(before[k].plan_of(), Plan::Wandering)),
        Joining::Joins => before[k].stopped(&now),
    }
}

/// Gives one guest its turn at joining the line for `ride`.
fn join_one(queue: &mut Queue, ride: u32, open: bool, line: &[TilePos], v: &mut Visit)
    requires
        old(queue).wf(),
        old(v).wf(),
    ensures
        final(queue).wf(),
        final(v).wf(),
        final(queue).line() == if joining(old(queue).line(), ride, open, line@, *old(v))
            == Joining::Joins {
            old(queue).line().push(old(v).id_of())
        } else {
            old(queue).line()
        },
        match joining(old(queue).line(), ride, open, line@, *old(v)) {
            Joining::Stays => *final(v) == *old(v),
            Joining::Wanders => old(v).with_plan(
                final(v),
                decided(old(v).plan_of(), Plan::Wandering),
            ),
            Joining::Joins => old(v).stopped(final(v)),
        },
{
    let waiting = match v.queueing_for() {
        Some((r, _)) => r == ride,
        None => false,
    };
    let id = v.id();
    if waiting && !queue.holds(id) {
        if !open {
            v.decide(Plan::Wandering);
        } else if on_the_line(line, v.tile()) {
            if queue.len() >= line.len() {
                v.decide(Plan::Wandering);
            } else if !queue.join(id) {
                v.decide(Plan::Wandering);
            } else {
                v.stop();
            }
        }
    }
}

/// Puts the guests who have walked to the line for `ride` into it, in the
/// order they come in `visits`.
///
/// `open` is whether the ride is running and `line` the queue path leading
/// away from its station. Somebody who arrives at a shut ride or a full line
/// goes off to do something else; somebody who joins stands still, so that
/// the shuffle up the line can put it in its place.
pub fn join_the_line(
    queue: &mut Queue,
    ride: u32,
    open: bool,
    line: &[TilePos],
    visits: &mut Vec<Visit>,
)
    requires
        old(queue).wf(),
        all_wf(old(visits)@),
    ensures
        final(queue).wf(),
        all_wf(final(visits)@),
        final(queue).line() == line_after(old(queue).line(), ride, open, line@, old(visits)@),
        final(visits)@.len() == old(visits)@.len(),
        forall|k: int|
            0 <= k < old(visits)@.len() ==> turn_taken(
                old(queue).line(),
                ride,
                open,
                line@,
                old(visits)@,
                k,
                #[trigger] final(visits)@[k],
            ),
{
    let ghost before = visits@;
    let ghost q0 = queue.line();
    let mut i: usize = 0;
    while i < visits.len()
        invariant
            i <= visits@.len(),
            visits@.len() == before.len(),
            all_wf(before),
            all_wf(visits@),
            queue.wf(),
            queue.line() == line_after(q0, ride, open, line@, before.take(i as int)),
            forall|k: int|
                0 <= k < i ==> turn_taken(q0, ride, open, line@, before, k, #[trigger] visits@[k]),
            forall|k: int| i <= k < visits@.len() ==> visits@[k] == before[k],
        decreases visits@.len() - i,
    {
        let ghost prev = visits@;
        proof {
            assert(before.take(i as int + 1).drop_last() =~= before.take(i as int));
            assert(before.take(i as int + 1).last() == before[i as int]);
        }
        let mut v = visits.remove(i);
        join_one(queue, ride, open, line, &mut v);
        let ghost now = v;
        visits.insert(i, v);
        proof {
            assert(visits@ =~= prev.update(i as int, now));
            assert(turn_taken(q0, ride, open, line@, before, i as int, now));
        }
        i = i + 1;
    }
    proof {
        assert(before.take(before.len() as int) =~= before);
    }
}

/// A line holds no more people than there is queue path for them to stand on:
/// if it starts within its path, no round of joining takes it past.
pub proof fn a_line_holds_what_its_path_holds(
    q0: Seq<u32>,
    ride: u32,
    open: bool,
    line: Seq<TilePos>,
    vs: Seq<Visit>,
)
    requires
        q0.len() <= line.len(),
    ensures
        line_after(q0, ride, open, line, vs).len() <= line.len(),
    decreases vs.len(),
{
    if vs.len() > 0 {
        a_line_holds_what_its_path_holds(q0, ride, open, line, vs.drop_last());
    }
}

/// Nobody leaves the park but through the entrance: everybody who is gone
/// after the guests are shown out had walked back to it meaning to go home,
/// and everybody who had not is still there.
pub proof fn only_the_entrance_lets_anybody_out(vs: Seq<Visit>, entrance: TilePos, v: Visit)
    ensures
        vs.contains(v) && !leaving(v, entrance) ==> vs.filter(staying(entrance)).contains(v),
        vs.filter(staying(entrance)).contains(v) ==> vs.contains(v) && !leaving(v, entrance),
{
    if vs.contains(v) && !leaving(v, entrance) {
        let k = choose|k: int| 0 <= k < vs.len() && vs[k] == v;
        vs.lemma_filter_contains(staying(entrance), k);
    }
    if vs.filter(staying(entrance)).contains(v) {
        vs.lemma_filter_contains_rev(staying(entrance), v);
        let k = choose|k: int| 0 <= k < vs.filter(staying(entrance)).len() && vs.filter(staying(entrance))[k] == v;
        vs.lemma_filter_pred(staying(entrance), k);
    }
}

/// Whether the guest `id` is passed over at the front of a line whose front
/// tile is `front` and whose fare is `price`: it is not in the park any more,
/// or it is standing at the front without the fare in its pocket.
pub open spec fn passed_over(vs: Seq<Visit>, front: TilePos, price: Money, id: u32) -> bool {
    forall|k: int| #[trigger] first_with(vs, id, k) ==> vs[k].here() == front && vs[k].money_of() < price
}

/// How many at the front of `line` are passed over, one after another, before
/// somebody who is not.
pub open spec fn passed(vs: Seq<Visit>, front: TilePos, price: Money, line: Seq<u32>) -> nat
    decreases line.len(),
{
    if line.len() > 0 && passed_over(vs, front, price, line[0]) {
        1 + passed(vs, front, price, line.subrange(1, line.len() as int))
    } else {
        0
    }
}

/// Whether, once those passed over have gone, the guest at the front of `line`
/// steps aboard: it is there, and standing at the front.
pub open spec fn boards(vs: Seq<Visit>, front: TilePos, price: Money, line: Seq<u32>) -> bool {
    let n = passed(vs, front, price, line) as int;
    n < line.len() && exists|k: int| #[trigger] first_with(vs, line[n], k) && vs[k].here() == front
}

/// Whether the `k`th guest of `vs` was passed over at the front of `line`: it
/// is the guest of one of the ids that were.
pub open spec fn was_passed_over(vs: Seq<Visit>, front: TilePos, price: Money, line: Seq<u32>, k: int) -> bool {
    exists|j: int|
        0 <= j < passed(vs, front, price, line) && #[trigger] first_with(vs, line[j], k)
}

/// No more are passed over than are in the line.
proof fn lemma_passed_len(vs: Seq<Visit>, front: TilePos, price: Money, line: Seq<u32>)
    ensures
        passed(vs, front, price, line) <= line.len(),
    decreases line.len(),
{
    if line.len() > 0 {
        lemma_passed_len(vs, front, price, line.subrange(1, line.len() as int));
    }
}

/// Counting those passed over from the `j`th place on.
proof fn lemma_passed_from(vs: Seq<Visit>, front: TilePos, price: Money, line: Seq<u32>, j: int)
    requires
        0 <= j <= passed(vs, front, price, line),
    ensures
        passed(vs, front, price, line) == j + passed(vs, front, price, line.subrange(j, line.len() as int)),
        forall|i: int| 0 <= i < j ==> passed_over(vs, front, price, #[trigger] line[i]),
    decreases j,
{
    lemma_passed_len(vs, front, price, line);
    if j == 0 {
        assert(line.subrange(0, line.len() as int) =~= line);
    } else {
        let rest = line.subrange(1, line.len() as int);
        lemma_passed_from(vs, front, price, rest, j - 1);
        assert(rest.subrange(j - 1, rest.len() as int) =~= line.subrange(j, line.len() as int));
        assert forall|i: int| 0 <= i < j implies passed_over(vs, front, price, #[trigger] line[i]) by {
            if i > 0 {
                assert(line[i] == rest[i - 1]);
            }
        }
    }
}

/// Whether `now` is what became of the `k`th guest of `vs` when the front of
/// the line `q0` for `ride` was called aboard.
pub open spec fn boarded_as(
    vs: Seq<Visit>,
    front: TilePos,
    price: Money,
    q0: Seq<u32>,
    ride: u32,
    k: int,
    now: Visit,
) -> bool {
    let n = passed(vs, front, price, q0) as int;
    if was_passed_over(vs, front, price, q0, k) {
        vs[k].with_plan(&now, decided(vs[k].plan_of(), Plan::Wandering))
    } else if boards(vs, front, price, q0) && first_with(vs, q0[n], k) {
        &&& now.id_of() == vs[k].id_of()
        &&& now.money_of() == vs[k].money_of() - price
        &&& now.plan_of() == Plan::Riding { ride }
        &&& now.route_of() == vs[k].route_of()
    } else {
        now == vs[k]
    }
}

/// Only the plan of a guest changed, so who is first with each id, where they
/// stand and what they carry are all as they were.
proof fn lemma_first_with_kept(vs: Seq<Visit>, ws: Seq<Visit>)
    requires
        vs.len() == ws.len(),
        forall|k: int|
            0 <= k < vs.len() ==> (#[trigger] ws[k]).id_of() == vs[k].id_of() && ws[k].here()
                == vs[k].here() && ws[k].money_of() == vs[k].money_of(),
    ensures
        forall|id: u32, k: int| #[trigger] first_with(ws, id, k) == first_with(vs, id, k),
        forall|id: u32, front: TilePos, price: Money|
            #[trigger] passed_over(ws, front, price, id) == passed_over(vs, front, price, id),
{
    assert forall|id: u32, k: int| #[trigger] first_with(ws, id, k) == first_with(vs, id, k) by {
        if 0 <= k < vs.len() {
            assert(forall|j: int| 0 <= j < k ==> ws[j].id_of() == vs[j].id_of());
        }
    }
    assert forall|id: u32, front: TilePos, price: Money|
        #[trigger] passed_over(ws, front, price, id) == passed_over(vs, front, price, id) by {
        if passed_over(vs, front, price, id) {
            assert forall|k: int| #[trigger] first_with(ws, id, k) implies ws[k].here() == front
                && ws[k].money_of() < price by {
                assert(first_with(vs, id, k));
            }
        }
        if passed_over(ws, front, price, id) {
            assert forall|k: int| #[trigger] first_with(vs, id, k) implies vs[k].here() == front
                && vs[k].money_of() < price by {
                assert(first_with(ws, id, k));
            }
        }
    }
}

/// Puts the guest at the front of the line for `ride` aboard, if it has got
/// there and can pay the fare.
///
/// Anybody at the front who has left the park is dropped from the line, and so
/// is anybody standing there without `price` in its pocket, who goes off to do
/// something else. The first guest after them who is standing on `front` pays
/// and boards; one still walking up the line keeps everybody behind it
/// waiting. Returns who boarded and what it paid, which is the park's to keep.
/// Called only while the train has a seat to offer.
pub fn board_the_front(
    queue: &mut Queue,
    ride: u32,
    front: TilePos,
    price: Money,
    visits: &mut Vec<Visit>,
) -> (boarded: Option<(u32, Money)>)
    requires
        old(queue).wf(),
        all_wf(old(visits)@),
        price >= 0,
    ensures
        final(queue).wf(),
        all_wf(final(visits)@),
        final(visits)@.len() == old(visits)@.len(),
        final(queue).line() == if boards(old(visits)@, front, price, old(queue).line()) {
            old(queue).line().subrange(
                passed(old(visits)@, front, price, old(queue).line()) as int + 1,
                old(queue).line().len() as int,
            )
        } else {
            old(queue).line().subrange(
                passed(old(visits)@, front, price, old(queue).line()) as int,
                old(queue).line().len() as int,
            )
        },
        boarded == if boards(old(visits)@, front, price, old(queue).line()) {
            Some((old(queue).line()[passed(old(visits)@, front, price, old(queue).line()) as int], price))
        } else {
            None
        },
        forall|k: int|
            0 <= k < old(visits)@.len() ==> boarded_as(
                old(visits)@,
                front,
                price,
                old(queue).line(),
                ride,
                k,
                #[trigger] final(visits)@[k],
            ),
{
    let ghost q0 = queue.line();
    let ghost vs = visits@;
    let ghost n = passed(vs, front, price, q0) as int;
    proof {
        lemma_passed_len(vs, front, price, q0);
    }
    let mut j: usize = 0;
    loop
        invariant
            vs == old(visits)@,
            q0 == old(queue).line(),
            price >= 0,
            0 <= j <= n,
            n <= q0.len(),
            q0.len() <= Queue::MAX_LENGTH,
            q0.no_duplicates(),
            n == passed(vs, front, price, q0) as int,
            queue.wf(),
            queue.line() == q0.subrange(j as int, q0.len() as int),
            all_wf(vs),
            all_wf(visits@),
            visits@.len() == vs.len(),
            forall|k: int|
                0 <= k < vs.len() ==> (#[trigger] visits@[k]).id_of() == vs[k].id_of()
                    && visits@[k].here() == vs[k].here() && visits@[k].money_of() == vs[k].money_of(),
            forall|k: int|
                0 <= k < vs.len() ==> if exists|i: int| 0 <= i < j && #[trigger] first_with(vs, q0[i], k) {
                    vs[k].with_plan(&visits@[k], decided(vs[k].plan_of(), Plan::Wandering))
                } else {
                    visits@[k] == vs[k]
                },
        decreases q0.len() - j,
    {
        proof {
            lemma_passed_from(vs, front, price, q0, j as int);
            lemma_first_with_kept(vs, visits@);
            let rest = q0.subrange(j as int, q0.len() as int);
            if j < q0.len() {
                assert(rest[0] == q0[j as int]);
            }
        }
        let id = match queue.front() {
            Some(id) => id,
            None => {
                proof {
                    assert(q0.subrange(j as int, q0.len() as int).len() == 0);
                    assert(j as int == n);
                    assert(forall|k: int| 0 <= k < vs.len() ==> was_passed_over(vs, front, price, q0, k)
                        == exists|i: int| 0 <= i < j && #[trigger] first_with(vs, q0[i], k));
                }
                return None;
            },
        };
        match find_guest(visits.as_slice(), id) {
            None => {
                proof {
                    assert(passed_over(visits@, front, price, id));
                }
                queue.leave(id);
                proof {
                    assert(q0.subrange(j as int, q0.len() as int).remove(0) =~= q0.subrange(j as int + 1, q0.len() as int));
                    assert(forall|k: int| !first_with(vs, id, k));
                }
                j = j + 1;
            },
            Some(k) => {
                if visits[k].tile() != front {
                    proof {
                        assert(!passed_over(visits@, front, price, id));
                        assert(j as int == n);
                        assert(!boards(vs, front, price, q0)) by {
                            if boards(vs, front, price, q0) {
                                let m = choose|m: int| #[trigger] first_with(vs, q0[n], m) && vs[m].here() == front;
                                if m < k { assert(visits@[m].id_of() == id); } else if k < m { assert(vs[k as int].id_of() == id); }
                            }
                        }
                        assert(forall|k: int| 0 <= k < vs.len() ==> was_passed_over(vs, front, price, q0, k)
                            == exists|i: int| 0 <= i < j && #[trigger] first_with(vs, q0[i], k));
                    }
                    return None;
                }
                if !visits[k].can_afford(price) {
                    proof {
                        assert forall|m: int| #[trigger] first_with(visits@, id, m) implies visits@[m].here() == front
                            && visits@[m].money_of() < price by {
                            if m < k { assert(visits@[m].id_of() == id); } else if k < m { assert(visits@[k as int].id_of() == id); }
                        }
                        assert(passed_over(visits@, front, price, id));
                    }
                    queue.leave(id);
                    let ghost prev = visits@;
                    proof {
                        assert(prev[k as int].wf());
                    }
                    let mut v = visits.remove(k);
                    v.decide(Plan::Wandering);
                    let ghost now = v;
                    visits.insert(k, v);
                    proof {
                        assert(visits@ =~= prev.update(k as int, now));
                        assert forall|m: int| 0 <= m < visits@.len() implies (#[trigger] visits@[m]).wf() by {
                            if m != k {
                                assert(visits@[m] == prev[m]);
                            }
                        }
                        assert(q0.subrange(j as int, q0.len() as int).remove(0) =~= q0.subrange(j as int + 1, q0.len() as int));
                        assert(first_with(vs, q0[j as int], k as int));
                        assert forall|m: int| m != k implies !#[trigger] first_with(vs, q0[j as int], m) by {
                            if first_with(vs, q0[j as int], m) {
                                if m < k { assert(vs[m].id_of() == id); } else { assert(vs[k as int].id_of() == id); }
                            }
                        }
                        if exists|i: int| 0 <= i < j && #[trigger] first_with(vs, q0[i], k as int) {
                            let i = choose|i: int| 0 <= i < j && #[trigger] first_with(vs, q0[i], k as int);
                            assert(q0[i] == q0[j as int]);
                        }
                    }
                    j = j + 1;
                } else {
                    proof {
                        assert(!passed_over(visits@, front, price, id));
                        assert(j as int == n);
                        assert(boards(vs, front, price, q0)) by {
                            assert(first_with(vs, q0[n], k as int));
                        }
                        assert(forall|m: int| 0 <= m < vs.len() ==> was_passed_over(vs, front, price, q0, m)
                            == exists|i: int| 0 <= i < j && #[trigger] first_with(vs, q0[i], m));
                        if exists|i: int| 0 <= i < j && #[trigger] first_with(vs, q0[i], k as int) {
                            let i = choose|i: int| 0 <= i < j && #[trigger] first_with(vs, q0[i], k as int);
                            assert(q0[i] == q0[j as int]);
                        }
                    }
                    queue.leave(id);
                    let ghost prev = visits@;
                    proof {
                        assert(prev[k as int].wf());
                    }
                    let mut v = visits.remove(k);
                    let paid = v.pay(price);
                    v.decide_anyway(Plan::Riding { ride });
                    let ghost now = v;
                    visits.insert(k, v);
                    proof {
                        assert(visits@ =~= prev.update(k as int, now));
                        assert forall|m: int| 0 <= m < visits@.len() implies (#[trigger] visits@[m]).wf() by {
                            if m != k {
                                assert(visits@[m] == prev[m]);
                            }
                        }
                        assert(q0.subrange(j as int, q0.len() as int).remove(0) =~= q0.subrange(j as int + 1, q0.len() as int));
                        assert forall|m: int| 0 <= m < vs.len() && m != k implies !#[trigger] first_with(vs, q0[n], m) by {
                            if first_with(vs, q0[n], m) {
                                if m < k { assert(vs[m].id_of() == id); } else { assert(vs[k as int].id_of() == id); }
                            }
                        }
                    }
                    return Some((id, paid));
                }
            },
        }
    }
}

/// Where the guest in `place` stands in a line laid along `line`: on its tile
/// of the path, or where the path runs out for everybody past the end of it.
pub fn standing_place(line: &[TilePos], place: usize) -> (t: TilePos)
    requires
        line@.len() > 0,
    ensures
        t == if place < line@.len() {
            line@[place as int]
        } else {
            line@[line@.len() - 1]
        },
{
    if place < line.len() {
        line[place]
    } else {
        line[line.len() - 1]
    }
}

/// Whether `v` is aboard `ride`.
pub open spec fn aboard(v: Visit, ride: u32) -> bool {
    v.plan_of() == Plan::Riding { ride }
}

/// How many of the first `k` guests of `vs` are aboard `ride`.
pub open spec fn aboard_before(vs: Seq<Visit>, ride: u32, k: int) -> nat
    decreases k,
{
    if k <= 0 {
        0
    } else if aboard(vs[k - 1], ride) {
        aboard_before(vs, ride, k - 1) + 1
    } else {
        aboard_before(vs, ride, k - 1)
    }
}

/// Counting further along never counts fewer.
proof fn lemma_aboard_grows(vs: Seq<Visit>, ride: u32, a: int, b: int)
    requires
        0 <= a <= b,
    ensures
        aboard_before(vs, ride, a) <= aboard_before(vs, ride, b),
    decreases b - a,
{
    if a < b {
        lemma_aboard_grows(vs, ride, a, b - 1);
    }
}

/// Whether the `k`th guest of `vs` is one of the first `got_off` aboard
/// `ride`, who are the ones a train that has come back lets off.
pub open spec fn lets_off(vs: Seq<Visit>, ride: u32, got_off: u32, k: int) -> bool {
    aboard(vs[k], ride) && aboard_before(vs, ride, k) < got_off
}

/// Puts the first `got_off` guests aboard `ride` back on their feet, and
/// returns who they were, so that what they thought of the ride can be seen
/// to.
pub fn let_off_the_riders(visits: &mut Vec<Visit>, ride: u32, got_off: u32) -> (off: Vec<u32>)
    ensures
        final(visits)@.len() == old(visits)@.len(),
        forall|k: int|
            0 <= k < old(visits)@.len() ==> if lets_off(old(visits)@, ride, got_off, k) {
                old(visits)@[k].with_plan(&(#[trigger] final(visits)@[k]), Plan::Wandering)
            } else {
                final(visits)@[k] == old(visits)@[k]
            },
        off@.len() == if aboard_before(old(visits)@, ride, old(visits)@.len() as int) < got_off {
            aboard_before(old(visits)@, ride, old(visits)@.len() as int)
        } else {
            got_off as nat
        },
        forall|k: int|
            0 <= k < old(visits)@.len() && #[trigger] lets_off(old(visits)@, ride, got_off, k)
                ==> off@[aboard_before(old(visits)@, ride, k) as int] == old(visits)@[k].id_of(),
{
    let ghost before = visits@;
    let mut off: Vec<u32> = Vec::new();
    let mut i: usize = 0;
    while i < visits.len()
        invariant
            i <= visits@.len(),
            visits@.len() == before.len(),
            off@.len() == if aboard_before(before, ride, i as int) < got_off {
                aboard_before(before, ride, i as int)
            } else {
                got_off as nat
            },
            forall|k: int|
                0 <= k < i ==> if lets_off(before, ride, got_off, k) {
                    before[k].with_plan(&(#[trigger] visits@[k]), Plan::Wandering)
                } else {
                    visits@[k] == before[k]
                },
            forall|k: int|
                0 <= k < i && #[trigger] lets_off(before, ride, got_off, k) ==> off@[aboard_before(
                    before,
                    ride,
                    k,
                ) as int] == before[k].id_of(),
            forall|k: int| i <= k < visits@.len() ==> visits@[k] == before[k],
        decreases visits@.len() - i,
    {
        let len = off.len();
        let riding = match visits[i].riding() {
            Some(r) => r == ride,
            None => false,
        };
        if riding && len < got_off as usize {
            let id = visits[i].id();
            let ghost prev = visits@;
            let mut v = visits.remove(i);
            v.get_off();
            let ghost now = v;
            visits.insert(i, v);
            off.push(id);
            proof {
                assert(visits@ =~= prev.update(i as int, now));
                assert forall|k: int|
                    0 <= k < i && #[trigger] lets_off(before, ride, got_off, k) implies off@[aboard_before(
                        before,
                        ride,
                        k,
                    ) as int] == before[k].id_of() by {
                    lemma_aboard_grows(before, ride, k + 1, i as int);
                }
            }
        }
        i = i + 1;
    }
    off
}

} // verus!
