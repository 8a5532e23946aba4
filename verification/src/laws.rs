//! What holds of the hub over several events.

use vstd::prelude::*;

use crate::api::{chat_begun, chat_start, request_id, ChatRequestView};
use crate::frame::{
    all_lines, can_be_framed, framed_all, lemma_framed_back, lemma_reads_join, stream_of,
    unfinished,
};
use crate::hub::{
    chain_at, dealt_anew, handled, heard_from, heartbeat_answer, layers_for, left, lemma_chain_at,
    lemma_dealt_anew, lemma_dealt_places, lemma_round_closed, overdue, reassignment_at, reassignments, recipients, registered,
    registration_answer, round_closed, round_start_of, updates_except, HubView, Notice, Reaction,
    MISSES_TO_REMOVE,
};
use crate::message::{HeartbeatView, HubMessage, InferenceResponse, WorkerView};
use crate::pipeline::{
    first_layer, lemma_layers_partitioned, lemma_ranked_in_order, lemma_ranked_same_workers, ranked,
    share, worker_score,
};
use crate::roster::{
    lemma_on_list, lemma_update_unique, lemma_upserted, lemma_without, lemma_without_all, lemma_worker_at, on_list,
    unique_ids, upserted, with_layers, without_all, worker_at,
};
use crate::session::owner_after;

verus! {

// ---------------------------------------------------------------------------
// Rounds of heartbeats
// ---------------------------------------------------------------------------

/// The memory after some rounds in which nobody was heard from.
pub open spec fn silent_rounds(h: HubView, n: nat) -> HubView
    decreases n,
{
    if n == 0 {
        h
    } else {
        round_closed(silent_rounds(h, (n - 1) as nat))
    }
}

/// Whether a worker was asked for a heartbeat and has not been heard from.
pub open spec fn silent(h: HubView, id: Seq<char>) -> bool {
    h.responded.dom().contains(id) && !h.responded[id]
}

/// A list without some identifiers has the others.
proof fn lemma_still_on_list(workers: Seq<WorkerView>, gone: Set<Seq<char>>, id: Seq<char>)
    requires
        unique_ids(workers),
    ensures
        on_list(without_all(workers, gone), id) <==> on_list(workers, id) && !gone.contains(id),
        on_list(without_all(workers, gone), id) ==> without_all(workers, gone)[worker_at(
            without_all(workers, gone),
            id,
        )] == workers[worker_at(workers, id)],
{
    let after = without_all(workers, gone);
    lemma_without_all(workers, gone);
    lemma_worker_at(workers, id);
    lemma_worker_at(after, id);
    if on_list(after, id) {
        let w = after[worker_at(after, id)];
        assert(after.contains(w));
        let j = choose|j: int| 0 <= j < workers.len() && workers[j] == w;
        lemma_on_list(workers, j);
    }
    if on_list(workers, id) && !gone.contains(id) {
        let w = workers[worker_at(workers, id)];
        assert(workers.contains(w));
        assert(after.contains(w));
        let j = choose|j: int| 0 <= j < after.len() && after[j] == w;
        lemma_on_list(after, j);
    }
}

/// A round removes the workers that have missed too many heartbeats and no
/// others; whoever stays keeps what the hub knew of it.
pub proof fn lemma_round_removes_overdue(h: HubView, id: Seq<char>)
    requires
        h.inv(),
    ensures
        round_closed(h).inv(),
        on_list(round_closed(h).workers, id) <==> on_list(h.workers, id) && !overdue(h).contains(
            id,
        ),
        on_list(round_closed(h).workers, id) ==> round_closed(h).workers[worker_at(
            round_closed(h).workers,
            id,
        )] == h.workers[worker_at(h.workers, id)],
{
    lemma_round_closed(h);
    lemma_still_on_list(h.workers, overdue(h), id);
}

/// A worker that falls silent is removed with its fourth missed heartbeat in a
/// row, and no sooner.
pub proof fn lemma_silent_worker(h: HubView, id: Seq<char>, n: nat)
    requires
        h.inv(),
        on_list(h.workers, id),
        silent(h, id),
    ensures
        silent_rounds(h, n).inv(),
        on_list(silent_rounds(h, n).workers, id) <==> h.misses(id) + n < MISSES_TO_REMOVE,
        on_list(silent_rounds(h, n).workers, id) ==> silent_rounds(h, n).misses(id) == h.misses(id)
            + n && silent(silent_rounds(h, n), id),
    decreases n,
{
    if n > 0 {
        let before = silent_rounds(h, (n - 1) as nat);
        lemma_silent_worker(h, id, (n - 1) as nat);
        lemma_round_removes_overdue(before, id);
    } else if h.missed.dom().contains(id) {
        assert(h.missed[id] < MISSES_TO_REMOVE);
    }
}

/// A worker that was heard from in a round stays, with no heartbeat missed.
pub proof fn lemma_heard_worker_stays(h: HubView, hb: HeartbeatView)
    requires
        h.inv(),
        heard_from(h, hb).inv(),
        on_list(h.workers, hb.worker_id),
    ensures
        on_list(round_closed(heard_from(h, hb)).workers, hb.worker_id),
        round_closed(heard_from(h, hb)).misses(hb.worker_id) == 0,
{
    let id = hb.worker_id;
    let after = heard_from(h, hb);
    lemma_worker_at(h.workers, id);
    let i = worker_at(h.workers, id);
    assert(after.workers[i].id == id);
    lemma_on_list(after.workers, i);
    lemma_round_removes_overdue(after, id);
}

/// Hearing the same thing twice is hearing it once.
pub proof fn lemma_heard_twice(h: HubView, hb: HeartbeatView)
    requires
        h.inv(),
        heard_from(h, hb).inv(),
    ensures
        heard_from(heard_from(h, hb), hb) == heard_from(h, hb),
{
    let once = heard_from(h, hb);
    let twice = heard_from(once, hb);
    lemma_worker_at(h.workers, hb.worker_id);
    if on_list(h.workers, hb.worker_id) {
        let i = worker_at(h.workers, hb.worker_id);
        assert(once.workers[i].id == hb.worker_id);
        lemma_on_list(once.workers, i);
        assert(twice.workers =~= once.workers);
    }
    assert(twice.missed =~= once.missed);
    assert(twice.responded =~= once.responded);
    assert(twice =~= once);
}

/// A worker that reports the layers it was told of is told the same again,
/// and not to change anything.
pub proof fn lemma_obedient_worker(h: HubView, hb: HeartbeatView, again: HeartbeatView)
    requires
        again.worker_id == hb.worker_id,
        again.layer_offset == heartbeat_answer(h, hb).layer_offset,
        again.num_layers == heartbeat_answer(h, hb).num_layers,
    ensures
        heartbeat_answer(h, again).layer_offset == again.layer_offset,
        heartbeat_answer(h, again).num_layers == again.num_layers,
        !heartbeat_answer(h, again).reassign,
{
}

// ---------------------------------------------------------------------------
// Coming and going
// ---------------------------------------------------------------------------

/// A worker that has registered is on the list, reached over its connection,
/// with no heartbeat missed and with the layers that it was told of.
pub proof fn lemma_registered(h: HubView, conn: u64, info: WorkerView)
    requires
        h.inv(),
    ensures
        ({
            let after = registered(h, conn, info);
            let answer = registration_answer(h, conn, info);
            let i = worker_at(after.workers, info.id);
            &&& unique_ids(after.workers)
            &&& on_list(after.workers, info.id)
            &&& i == worker_at(h.workers, info.id)
            &&& after.workers[i] == (WorkerView {
                layer_offset: answer.layer_offset,
                num_layers: answer.num_layers,
                ..info
            })
            &&& after.streams[info.id] == conn
            &&& after.misses(info.id) == 0
        }),
{
    let list = upserted(h.workers, info);
    let layers = layers_for(list, h.model.num_layers as int, info.id);
    let after = with_layers(list, info.id, layers.0, layers.1);
    lemma_upserted(h.workers, info);
    let i = worker_at(list, info.id);
    lemma_worker_at(list, info.id);
    lemma_worker_at(h.workers, info.id);
    lemma_update_unique(list, i, after[i]);
    lemma_on_list(after, i);
}

/// Of every other worker the hub knows after a registration what it knew
/// before.
pub proof fn lemma_others_kept(h: HubView, conn: u64, info: WorkerView, other: Seq<char>)
    requires
        h.inv(),
        other != info.id,
    ensures
        ({
            let after = registered(h, conn, info);
            &&& on_list(after.workers, other) == on_list(h.workers, other)
            &&& on_list(h.workers, other) ==> after.workers[worker_at(after.workers, other)]
                == h.workers[worker_at(h.workers, other)]
            &&& after.streams.dom().contains(other) == h.streams.dom().contains(other)
            &&& h.streams.dom().contains(other) ==> after.streams[other] == h.streams[other]
            &&& after.misses(other) == h.misses(other)
        }),
{
    let after = registered(h, conn, info).workers;
    lemma_registered(h, conn, info);
    lemma_upserted(h.workers, info);
    lemma_worker_at(h.workers, info.id);
    lemma_worker_at(h.workers, other);
    lemma_worker_at(after, other);
    if on_list(h.workers, other) {
        let j = worker_at(h.workers, other);
        assert(after[j] == h.workers[j]);
        lemma_on_list(after, j);
    }
    if on_list(after, other) {
        let j = worker_at(after, other);
        assert(after[j] == h.workers[j]);
        lemma_on_list(h.workers, j);
    }
}

/// The pipeline's entry for a worker is the one of its record.
proof fn lemma_entry(h: HubView, id: Seq<char>)
    requires
        unique_ids(h.workers),
        on_list(h.workers, id),
    ensures
        ({
            let chain = h.pipeline().workers;
            let p = chain_at(chain, id);
            let w = h.workers[worker_at(h.workers, id)];
            &&& 0 <= p < chain.len()
            &&& chain[p].worker_id == id
            &&& chain[p].layer_offset == w.layer_offset
            &&& chain[p].num_layers == w.num_layers
        }),
{
    broadcast use vstd::seq_lib::group_to_multiset_ensures;

    let chain = h.pipeline().workers;
    let ranking = ranked(h.workers);
    let p = chain_at(chain, id);
    let w = h.workers[worker_at(h.workers, id)];
    lemma_worker_at(h.workers, id);
    lemma_chain_at(chain, id);
    lemma_ranked_in_order(h.workers);
    lemma_ranked_same_workers(h.workers);
    assert(h.workers.contains(w));
    assert(h.workers.to_multiset().count(w) > 0);
    assert(ranking.contains(w));
    let k = choose|k: int| 0 <= k < ranking.len() && ranking[k] == w;
    assert(chain[k].worker_id == id);
    assert(p <= k);
    let found = ranking[p];
    assert(chain[p].worker_id == found.id);
    assert(ranking.contains(found));
    assert(ranking.to_multiset().count(found) > 0);
    assert(h.workers.contains(found));
    let j = choose|j: int| 0 <= j < h.workers.len() && h.workers[j] == found;
    lemma_on_list(h.workers, j);
}

/// The layers that a worker is told of when it registers are the ones that the
/// pipeline in the same answer gives it.
pub proof fn lemma_registration_consistent(h: HubView, conn: u64, info: WorkerView)
    requires
        h.inv(),
    ensures
        ({
            let answer = registration_answer(h, conn, info);
            let chain = registered(h, conn, info).pipeline().workers;
            let p = chain_at(chain, info.id);
            &&& answer.pipeline == Some(registered(h, conn, info).pipeline())
            &&& 0 <= p < chain.len()
            &&& chain[p].worker_id == info.id
            &&& chain[p].layer_offset == answer.layer_offset
            &&& chain[p].num_layers == answer.num_layers
        }),
{
    lemma_registered(h, conn, info);
    lemma_entry(registered(h, conn, info), info.id);
}

/// Nothing is left of a worker whose connection closed.
pub proof fn lemma_nothing_left(h: HubView, id: Seq<char>)
    requires
        h.inv(),
    ensures
        !on_list(left(h, id).workers, id),
        !left(h, id).streams.dom().contains(id),
        !left(h, id).missed.dom().contains(id),
        !left(h, id).responded.dom().contains(id),
{
    lemma_without(h.workers, id);
}

/// A worker that comes and goes leaves the hub as it was.
pub proof fn lemma_comes_and_goes(h: HubView, conn: u64, info: WorkerView)
    requires
        h.inv(),
        !on_list(h.workers, info.id),
        !h.streams.dom().contains(info.id),
        !h.missed.dom().contains(info.id),
        !h.responded.dom().contains(info.id),
    ensures
        left(registered(h, conn, info), info.id) == h,
{
    let after = registered(h, conn, info);
    lemma_upserted(h.workers, info);
    lemma_registered(h, conn, info);
    lemma_worker_at(h.workers, info.id);
    assert(worker_at(h.workers, info.id) == h.workers.len());
    let list = upserted(h.workers, info);
    assert(worker_at(list, info.id) == h.workers.len());
    assert(after.workers.len() == h.workers.len() + 1);
    assert(after.workers[h.workers.len() as int].id == info.id);
    lemma_on_list(after.workers, h.workers.len() as int);
    let end = left(after, info.id);
    assert(end.workers =~= h.workers);
    assert(end.streams =~= h.streams);
    assert(end.missed =~= h.missed);
    assert(end.responded =~= h.responded);
    assert(end =~= h);
}

/// Every other connected worker learns of a worker that registers, at once:
/// it gets a message, and the pipeline in it has the new worker.
pub proof fn lemma_others_learn(
    h: HubView,
    conn: u64,
    info: WorkerView,
    notices: Seq<Notice>,
    other: Seq<char>,
)
    requires
        h.inv(),
        updates_except(registered(h, conn, info), info.id, notices),
        h.streams.dom().contains(other),
        other != info.id,
    ensures
        exists|i: int|
            0 <= i < notices.len() && (#[trigger] notices[i]).worker_id@ == other
                && notices[i].conn == h.streams[other] && ({
                let told = notices[i].message@.pipeline;
                told is Some && chain_at(told->0.workers, info.id) < told->0.workers.len()
            }),
{
    let after = registered(h, conn, info);
    assert(recipients(notices).contains(other));
    let i = choose|i: int| 0 <= i < recipients(notices).len() && recipients(notices)[i] == other;
    assert(notices[i].worker_id@ == other);
    lemma_registered(h, conn, info);
    lemma_entry(after, info.id);
}

// ---------------------------------------------------------------------------
// Workers and connections
// ---------------------------------------------------------------------------

/// Whether the workers on the list are those that have a connection.
pub open spec fn all_connected(h: HubView) -> bool {
    forall|k: Seq<char>| #[trigger] h.streams.dom().contains(k) <==> on_list(h.workers, k)
}

/// Lists with the same identifiers have them in the same places.
proof fn lemma_same_places(a: Seq<WorkerView>, b: Seq<WorkerView>, id: Seq<char>)
    requires
        a.len() == b.len(),
        forall|i: int| 0 <= i < a.len() ==> (#[trigger] a[i]).id == b[i].id,
    ensures
        worker_at(a, id) == worker_at(b, id),
    decreases a.len(),
{
    if a.len() > 0 && a[0].id != id {
        let a2 = a.drop_first();
        let b2 = b.drop_first();
        assert forall|i: int| 0 <= i < a2.len() implies (#[trigger] a2[i]).id == b2[i].id by {
            assert(a2[i] == a[i + 1]);
        }
        lemma_same_places(a2, b2, id);
    }
}

/// Whatever happens, the workers on the list are those that have a
/// connection: a registration, a sign of life, a closed connection, the end of
/// a round and dealing out anew keep it so, and nothing else touches either.
pub proof fn lemma_all_connected(
    h: HubView,
    conn: u64,
    info: WorkerView,
    hb: HeartbeatView,
    id: Seq<char>,
)
    requires
        h.inv(),
        all_connected(h),
    ensures
        all_connected(registered(h, conn, info)),
        all_connected(heard_from(h, hb)),
        all_connected(left(h, id)),
        all_connected(round_closed(h)),
        all_connected(dealt_anew(h)),
{
    let a = registered(h, conn, info);
    lemma_registered(h, conn, info);
    assert forall|k: Seq<char>| #[trigger] a.streams.dom().contains(k) <==> on_list(
        a.workers,
        k,
    ) by {
        if k != info.id {
            lemma_others_kept(h, conn, info, k);
        }
    }
    let b = heard_from(h, hb);
    lemma_worker_at(h.workers, hb.worker_id);
    assert forall|k: Seq<char>| #[trigger] b.streams.dom().contains(k) <==> on_list(
        b.workers,
        k,
    ) by {
        lemma_same_places(h.workers, b.workers, k);
    }
    let c = left(h, id);
    lemma_without(h.workers, id);
    assert forall|k: Seq<char>| #[trigger] c.streams.dom().contains(k) <==> on_list(
        c.workers,
        k,
    ) by {
        lemma_worker_at(h.workers, k);
        lemma_worker_at(c.workers, k);
        if on_list(c.workers, k) {
            let w = c.workers[worker_at(c.workers, k)];
            assert(c.workers.contains(w));
            let j = choose|j: int| 0 <= j < h.workers.len() && h.workers[j] == w;
            lemma_on_list(h.workers, j);
            assert(h.streams.dom().contains(k));
        }
        if k != id && on_list(h.workers, k) {
            let w = h.workers[worker_at(h.workers, k)];
            assert(h.workers.contains(w));
            assert(c.workers.contains(w));
            let j = choose|j: int| 0 <= j < c.workers.len() && c.workers[j] == w;
            lemma_on_list(c.workers, j);
        }
        if k != id {
            assert(h.streams.dom().contains(k) <==> on_list(h.workers, k));
        }
    }
    let d = round_closed(h);
    assert forall|k: Seq<char>| #[trigger] d.streams.dom().contains(k) <==> on_list(
        d.workers,
        k,
    ) by {
        lemma_still_on_list(h.workers, overdue(h), k);
        assert(h.streams.dom().contains(k) <==> on_list(h.workers, k));
    }
    let e = dealt_anew(h);
    assert forall|k: Seq<char>| #[trigger] e.streams.dom().contains(k) <==> on_list(
        e.workers,
        k,
    ) by {
        lemma_same_places(h.workers, e.workers, k);
        assert(h.streams.dom().contains(k) <==> on_list(h.workers, k));
    }
}

/// A hub without workers and connections begins that way.
pub proof fn lemma_all_connected_at_first(h: HubView)
    requires
        h.workers.len() == 0,
        h.streams == Map::<Seq<char>, u64>::empty(),
    ensures
        all_connected(h),
{
}

/// So a round of heartbeats begins whenever there is a worker, with a message
/// to the first one of the pipeline.
pub proof fn lemma_round_begins(h: HubView)
    requires
        h.inv(),
        all_connected(h),
    ensures
        h.workers.len() == 0 ==> round_start_of(h) is NoWorkers,
        h.workers.len() > 0 ==> round_start_of(h) is Forward,
{
    if h.workers.len() > 0 {
        lemma_first_is_lowest(h, h.workers[0]);
        let first = ranked(h.workers)[0];
        let j = choose|j: int| 0 <= j < h.workers.len() && h.workers[j] == first;
        lemma_on_list(h.workers, j);
        assert(h.streams.dom().contains(first.id));
    }
}

/// The notices after others have left go to the connected workers of the
/// pipeline, each once for each of its places.
proof fn lemma_reassigned_at(h: HubView, n: int, i: int)
    requires
        0 <= i < n,
        h.streams.dom().contains(h.pipeline().workers[i].worker_id),
    ensures
        reassignments(h, n).contains(
            (
                h.pipeline().workers[i].worker_id,
                h.streams[h.pipeline().workers[i].worker_id],
                reassignment_at(h, i),
            ),
        ),
    decreases n,
{
    let all = reassignments(h, n);
    let front = reassignments(h, n - 1);
    let id = h.pipeline().workers[i].worker_id;
    let notice = (id, h.streams[id], reassignment_at(h, i));
    if i == n - 1 {
        assert(all[all.len() - 1] == notice);
    } else {
        lemma_reassigned_at(h, n - 1, i);
        let k = choose|k: int| 0 <= k < front.len() && front[k] == notice;
        assert(all[k] == notice);
    }
}

/// Every connected worker on the list is told when others have left: to load
/// the layers that fall to it among those that remain.
pub proof fn lemma_remaining_told(h: HubView, id: Seq<char>)
    requires
        h.inv(),
        on_list(h.workers, id),
        h.streams.dom().contains(id),
    ensures
        exists|k: int|
            0 <= k < reassignments(dealt_anew(h), h.workers.len() as int).len() && {
                let notice = #[trigger] reassignments(dealt_anew(h), h.workers.len() as int)[k];
                let layers = layers_for(h.workers, h.model.num_layers as int, id);
                &&& notice.0 == id
                &&& notice.1 == h.streams[id]
                &&& notice.2.reassign
                &&& notice.2.layer_offset == layers.0
                &&& notice.2.num_layers == layers.1
                &&& notice.2.pipeline == Some(dealt_anew(h).pipeline())
            },
{
    let n = h.workers.len() as int;
    let after = dealt_anew(h);
    let p = chain_at(after.pipeline().workers, id);
    lemma_dealt_anew(h);
    lemma_worker_at(h.workers, id);
    lemma_same_places(h.workers, after.workers, id);
    lemma_entry(after, id);
    lemma_dealt_places(h, p);
    lemma_reassigned_at(after, n, p);
    let all = reassignments(after, n);
    let notice = (id, h.streams[id], reassignment_at(after, p));
    let k = choose|k: int| 0 <= k < all.len() && all[k] == notice;
    assert(all[k] == notice);
}

/// Where all workers are connected, each place of the pipeline gets a notice.
proof fn lemma_all_reassigned(h: HubView, m: int)
    requires
        0 <= m <= h.workers.len(),
        forall|i: int|
            0 <= i < h.workers.len() ==> h.streams.dom().contains(
                (#[trigger] h.pipeline().workers[i]).worker_id,
            ),
    ensures
        reassignments(h, m).len() == m,
        forall|i: int|
            0 <= i < m ==> (#[trigger] reassignments(h, m)[i]).2 == reassignment_at(h, i),
    decreases m,
{
    if m > 0 {
        lemma_all_reassigned(h, m - 1);
        let front = reassignments(h, m - 1);
        assert(h.streams.dom().contains(h.pipeline().workers[m - 1].worker_id));
        assert forall|i: int| 0 <= i < m implies (#[trigger] reassignments(h, m)[i]).2
            == reassignment_at(h, i) by {
            if i < m - 1 {
                assert(reassignments(h, m)[i] == front[i]);
            }
        }
    }
}

/// The layers that the remaining workers are told of when others have left
/// follow each other without a gap or an overlap, from the first layer of the
/// model to the last.
pub proof fn lemma_reassigned_partition(h: HubView)
    requires
        h.inv(),
        all_connected(h),
        h.workers.len() > 0,
    ensures
        ({
            let n = h.workers.len() as int;
            let told = reassignments(dealt_anew(h), n);
            &&& told.len() == n
            &&& told[0].2.layer_offset == 0
            &&& forall|i: int|
                0 <= i < n - 1 ==> (#[trigger] told[i]).2.layer_offset + told[i].2.num_layers
                    == told[i + 1].2.layer_offset
            &&& told[n - 1].2.layer_offset + told[n - 1].2.num_layers == h.model.num_layers
        }),
{
    broadcast use vstd::seq_lib::group_to_multiset_ensures;

    let t = h.model.num_layers as int;
    let n = h.workers.len() as int;
    let after = dealt_anew(h);
    let told = reassignments(after, n);
    let ranking = ranked(h.workers);
    lemma_ranked_in_order(h.workers);
    lemma_ranked_same_workers(h.workers);
    assert forall|i: int| 0 <= i < n implies after.streams.dom().contains(
        (#[trigger] after.pipeline().workers[i]).worker_id,
    ) by {
        lemma_dealt_places(h, i);
        let w = ranking[i];
        assert(ranking.contains(w));
        assert(ranking.to_multiset().count(w) > 0);
        assert(h.workers.contains(w));
        let j = choose|j: int| 0 <= j < h.workers.len() && h.workers[j] == w;
        lemma_on_list(h.workers, j);
        assert(h.streams.dom().contains(w.id));
    }
    lemma_all_reassigned(after, n);
    lemma_layers_partitioned(t, n);
    assert forall|i: int| 0 <= i < n implies told[i].2.layer_offset == first_layer(i, t, n)
        && (#[trigger] told[i]).2.num_layers == share(i, t, n) by {
        lemma_dealt_places(h, i);
        assert(told[i].2 == reassignment_at(after, i));
    }
    assert forall|i: int| 0 <= i < n - 1 implies (#[trigger] told[i]).2.layer_offset
        + told[i].2.num_layers == told[i + 1].2.layer_offset by {
        assert(first_layer(i, t, n) + share(i, t, n) == first_layer(i + 1, t, n));
        assert(told[i + 1].2.layer_offset == first_layer(i + 1, t, n));
    }
    assert(told[0].2.layer_offset == first_layer(0, t, n));
    assert(told[n - 1].2.num_layers == share(n - 1, t, n));
    assert(first_layer(n - 1, t, n) + share(n - 1, t, n) == first_layer(n - 1 + 1, t, n));
}

/// What a worker was told when others had left still holds at its next sign
/// of life: it is told the same layers again, and to change nothing if it has
/// them.
pub proof fn lemma_reassignment_lasts(h: HubView, hb: HeartbeatView)
    requires
        h.inv(),
        on_list(h.workers, hb.worker_id),
    ensures
        ({
            let layers = layers_for(h.workers, h.model.num_layers as int, hb.worker_id);
            let answer = heartbeat_answer(heard_from(dealt_anew(h), hb), hb);
            &&& answer.layer_offset == layers.0
            &&& answer.num_layers == layers.1
            &&& answer.reassign == (hb.layer_offset != layers.0 || hb.num_layers != layers.1)
        }),
{
    let id = hb.worker_id;
    let after = dealt_anew(h);
    let heard = heard_from(after, hb);
    lemma_dealt_anew(h);
    lemma_worker_at(h.workers, id);
    lemma_same_places(h.workers, after.workers, id);
    lemma_same_places(after.workers, heard.workers, id);
    assert forall|i: int, j: int| 0 <= i < j < heard.workers.len() implies (
    #[trigger] heard.workers[i]).id != (#[trigger] heard.workers[j]).id by {
        assert(after.workers[i].id != after.workers[j].id);
    }
    lemma_entry(heard, id);
}

// ---------------------------------------------------------------------------
// A stream of messages
// ---------------------------------------------------------------------------

/// The memory after a message over a connection.
pub open spec fn after_message(h: HubView, conn: u64, message: HubMessage) -> HubView {
    match message {
        HubMessage::Register(info) => registered(h, conn, info@),
        HubMessage::Heartbeat(hb) => heard_from(h, hb@),
        HubMessage::InferenceResponse(resp) => HubView { pending: h.pending.remove(resp@.id), ..h },
        _ => h,
    }
}

/// Whether two lists of notices say the same to the same workers.
pub open spec fn same_notices(a: Seq<Notice>, b: Seq<Notice>) -> bool {
    &&& forall|k: Seq<char>| #[trigger]
        recipients(a).contains(k) <==> recipients(b).contains(k)
    &&& forall|i: int, j: int|
        0 <= i < a.len() && 0 <= j < b.len() && (#[trigger] a[i]).worker_id@ == (
        #[trigger] b[j]).worker_id@ ==> a[i].conn == b[j].conn && a[i].message@ == b[j].message@
}

/// Whether two reactions are one, but for the order of notices.
pub open spec fn same_reaction(a: Reaction, b: Reaction) -> bool {
    match a {
        Reaction::Registered { worker_id, answer, notices } => {
            &&& b matches Reaction::Registered { worker_id: id2, answer: answer2, notices: notices2 }
            &&& worker_id@ == id2@
            &&& answer@ == answer2@
            &&& same_notices(notices@, notices2@)
        },
        Reaction::Heard { answer, round_over } => {
            &&& b matches Reaction::Heard { answer: answer2, round_over: over2 }
            &&& answer@ == answer2@
            &&& round_over == over2
        },
        Reaction::Deliver { waiter, response } => {
            &&& b matches Reaction::Deliver { waiter: waiter2, response: response2 }
            &&& waiter == waiter2
            &&& response@ == response2@
        },
        Reaction::NobodyWaits => b is NobodyWaits,
        Reaction::Forward { conn, message } => {
            &&& b matches Reaction::Forward { conn: conn2, message: message2 }
            &&& conn == conn2
            &&& message@ == message2@
        },
        Reaction::NoTarget => b is NoTarget,
        Reaction::Unexpected => b is Unexpected,
    }
}

/// A message does one thing to a memory and calls for one reaction.
pub proof fn lemma_one_reaction(
    h: HubView,
    conn: u64,
    message: HubMessage,
    after: HubView,
    reaction: Reaction,
    after2: HubView,
    reaction2: Reaction,
)
    requires
        handled(h, conn, message, after, reaction),
        handled(h, conn, message, after2, reaction2),
    ensures
        after == after_message(h, conn, message),
        after2 == after,
        same_reaction(reaction, reaction2),
{
}

/// How far a connection has come: the hub's memory, whose connection it is,
/// what is unread, and the messages that were handled, each with the memory
/// that it met.
#[verifier::ext_equal]
pub struct RunView {
    pub hub: HubView,
    pub owner: Option<Seq<char>>,
    pub unread: Seq<u8>,
    pub met: Seq<(HubView, HubMessage)>,
}

/// A connection after some lines, of which those that can be parsed are
/// handled in their order and the others do nothing.
pub open spec fn after_lines(
    run: RunView,
    conn: u64,
    lines: Seq<Seq<u8>>,
    parse: spec_fn(Seq<u8>) -> Option<HubMessage>,
) -> RunView
    decreases lines.len(),
{
    if lines.len() == 0 {
        run
    } else {
        let before = after_lines(run, conn, lines.drop_last(), parse);
        match parse(lines.last()) {
            Some(message) => RunView {
                hub: after_message(before.hub, conn, message),
                owner: owner_after(before.owner, message),
                met: before.met.push((before.hub, message)),
                ..before
            },
            None => before,
        }
    }
}

/// A connection after a read: the lines that are complete now are handled.
pub open spec fn after_read(
    run: RunView,
    conn: u64,
    data: Seq<u8>,
    parse: spec_fn(Seq<u8>) -> Option<HubMessage>,
) -> RunView {
    let bytes = run.unread + data;
    after_lines(RunView { unread: unfinished(bytes), ..run }, conn, all_lines(bytes), parse)
}

/// A connection after some reads.
pub open spec fn after_reads(
    run: RunView,
    conn: u64,
    reads: Seq<Seq<u8>>,
    parse: spec_fn(Seq<u8>) -> Option<HubMessage>,
) -> RunView
    decreases reads.len(),
{
    if reads.len() == 0 {
        run
    } else {
        after_read(after_reads(run, conn, reads.drop_last(), parse), conn, reads.last(), parse)
    }
}

/// Lines behind lines are handled behind them; what is unread plays no part.
proof fn lemma_lines_join(
    run: RunView,
    conn: u64,
    a: Seq<Seq<u8>>,
    b: Seq<Seq<u8>>,
    unread: Seq<u8>,
    parse: spec_fn(Seq<u8>) -> Option<HubMessage>,
)
    ensures
        after_lines(RunView { unread, ..after_lines(run, conn, a, parse) }, conn, b, parse)
            == after_lines(RunView { unread, ..run }, conn, a + b, parse),
        after_lines(run, conn, a, parse).unread == run.unread,
    decreases a.len() + b.len(),
{
    if b.len() > 0 {
        lemma_lines_join(run, conn, a, b.drop_last(), unread, parse);
        assert((a + b).drop_last() =~= a + b.drop_last());
        assert((a + b).last() == b.last());
    } else {
        assert(a + b =~= a);
        if a.len() > 0 {
            let none: Seq<Seq<u8>> = seq![];
            lemma_lines_join(run, conn, a.drop_last(), none, unread, parse);
            assert(a.drop_last() + none =~= a.drop_last());
        }
    }
}

/// However a stream is cut into reads, a connection comes to the same: the
/// complete lines of the whole stream that can be parsed are handled in their
/// order, and nothing else does anything. What `parse` makes of a line is left
/// open.
pub proof fn lemma_cuts_make_no_difference(
    run: RunView,
    conn: u64,
    reads: Seq<Seq<u8>>,
    parse: spec_fn(Seq<u8>) -> Option<HubMessage>,
)
    requires
        run.unread == Seq::<u8>::empty(),
    ensures
        after_reads(run, conn, reads, parse) == after_lines(
            RunView { unread: unfinished(stream_of(reads)), ..run },
            conn,
            all_lines(stream_of(reads)),
            parse,
        ),
    decreases reads.len(),
{
    if reads.len() > 0 {
        let front = reads.drop_last();
        let a = stream_of(front);
        let b = reads.last();
        lemma_cuts_make_no_difference(run, conn, front, parse);
        lemma_reads_join(a, b);
        let start = RunView { unread: unfinished(a), ..run };
        let end = unfinished(a + b);
        let none: Seq<Seq<u8>> = seq![];
        lemma_lines_join(start, conn, all_lines(a), none, end, parse);
        lemma_lines_join(start, conn, all_lines(a), all_lines(unfinished(a) + b), end, parse);
    } else {
        assert(RunView { unread: unfinished(stream_of(reads)), ..run } =~= run);
    }
}

/// Two connections that start alike and get the same bytes come to the same,
/// however the bytes are cut.
pub proof fn lemma_same_bytes_same_end(
    run: RunView,
    conn: u64,
    a: Seq<Seq<u8>>,
    b: Seq<Seq<u8>>,
    parse: spec_fn(Seq<u8>) -> Option<HubMessage>,
)
    requires
        run.unread == Seq::<u8>::empty(),
        stream_of(a) == stream_of(b),
    ensures
        after_reads(run, conn, a, parse) == after_reads(run, conn, b, parse),
{
    lemma_cuts_make_no_difference(run, conn, a, parse);
    lemma_cuts_make_no_difference(run, conn, b, parse);
}

/// Lines that can all be parsed are all handled, in their order.
proof fn lemma_all_handled(
    run: RunView,
    conn: u64,
    messages: Seq<HubMessage>,
    write: spec_fn(HubMessage) -> Seq<u8>,
    parse: spec_fn(Seq<u8>) -> Option<HubMessage>,
)
    requires
        forall|i: int|
            0 <= i < messages.len() ==> parse(write(#[trigger] messages[i])) == Some(messages[i]),
    ensures
        ({
            let end = after_lines(run, conn, messages.map_values(write), parse);
            &&& end.unread == run.unread
            &&& end.met.len() == run.met.len() + messages.len()
            &&& forall|i: int|
                0 <= i < messages.len() ==> (#[trigger] end.met[run.met.len() + i]).1 == messages[i]
        }),
    decreases messages.len(),
{
    if messages.len() > 0 {
        let front = messages.drop_last();
        let lines = messages.map_values(write);
        assert forall|i: int| 0 <= i < front.len() implies parse(write(#[trigger] front[i])) == Some(
            front[i],
        ) by {
            assert(front[i] == messages[i]);
        }
        lemma_all_handled(run, conn, front, write, parse);
        assert(lines.drop_last() =~= front.map_values(write));
        assert(lines.last() == write(messages[messages.len() - 1]));
        let before = after_lines(run, conn, lines.drop_last(), parse);
        let end = after_lines(run, conn, lines, parse);
        assert forall|i: int| 0 <= i < messages.len() implies (#[trigger] end.met[run.met.len()
            + i]).1 == messages[i] by {
            if i < front.len() {
                assert(end.met[run.met.len() + i] == before.met[run.met.len() + i]);
                assert(front[i] == messages[i]);
            }
        }
    }
}

/// Messages that are framed and sent one behind the other arrive as they are
/// and in their order, however the stream is cut into reads, and leave nothing
/// unread; provided that each is written so that it can be framed, without
/// which nothing is sent, and can be parsed again.
pub proof fn lemma_messages_arrive(
    run: RunView,
    conn: u64,
    messages: Seq<HubMessage>,
    reads: Seq<Seq<u8>>,
    write: spec_fn(HubMessage) -> Seq<u8>,
    parse: spec_fn(Seq<u8>) -> Option<HubMessage>,
)
    requires
        run.unread == Seq::<u8>::empty(),
        forall|i: int|
            0 <= i < messages.len() ==> can_be_framed(write(#[trigger] messages[i])) && parse(
                write(messages[i]),
            ) == Some(messages[i]),
        stream_of(reads) == framed_all(messages.map_values(write)),
    ensures
        ({
            let end = after_reads(run, conn, reads, parse);
            &&& end.unread == Seq::<u8>::empty()
            &&& end.met.len() == run.met.len() + messages.len()
            &&& forall|i: int|
                0 <= i < messages.len() ==> (#[trigger] end.met[run.met.len() + i]).1 == messages[i]
        }),
{
    let lines = messages.map_values(write);
    let nothing: Seq<u8> = seq![];
    assert forall|i: int| 0 <= i < lines.len() implies can_be_framed(#[trigger] lines[i]) by {
        assert(lines[i] == write(messages[i]));
    }
    lemma_framed_back(lines, nothing);
    assert(framed_all(lines) + nothing =~= framed_all(lines));
    assert(all_lines(nothing) =~= seq![]);
    assert(lines + all_lines(nothing) =~= lines);
    lemma_cuts_make_no_difference(run, conn, reads, parse);
    lemma_all_handled(RunView { unread: nothing, ..run }, conn, messages, write, parse);
}

// ---------------------------------------------------------------------------
// Prompts
// ---------------------------------------------------------------------------

/// No answer to a prompt is delivered twice.
pub proof fn lemma_delivered_once(
    h: HubView,
    conn: u64,
    first: InferenceResponse,
    between: HubView,
    reaction: Reaction,
    conn2: u64,
    second: InferenceResponse,
    after: HubView,
    reaction2: Reaction,
)
    requires
        handled(h, conn, HubMessage::InferenceResponse(first), between, reaction),
        handled(between, conn2, HubMessage::InferenceResponse(second), after, reaction2),
        first@.id == second@.id,
    ensures
        reaction2 is NobodyWaits,
        after == between,
{
    assert(after.pending =~= between.pending);
    assert(after =~= between);
}

/// The answer to a prompt reaches the one that waits for it.
pub proof fn lemma_answer_arrives(
    h: HubView,
    request: ChatRequestView,
    number: u64,
    waiter: u64,
    conn: u64,
    response: InferenceResponse,
    after: HubView,
    reaction: Reaction,
)
    requires
        chat_start(h, request, number) is Send,
        response@.id == request_id(number),
        handled(
            chat_begun(h, request, number, waiter),
            conn,
            HubMessage::InferenceResponse(response),
            after,
            reaction,
        ),
    ensures
        reaction matches Reaction::Deliver { waiter: who, response: what } && who == waiter && what@
            == response@,
        after == (HubView { pending: h.pending.remove(request_id(number)), ..h }),
{
    assert(after.pending =~= h.pending.remove(request_id(number)));
    assert(after =~= (HubView { pending: h.pending.remove(request_id(number)), ..h }));
}

/// Prompts go to a worker that no other scores below.
pub proof fn lemma_first_is_lowest(h: HubView, w: WorkerView)
    requires
        h.workers.contains(w),
    ensures
        h.pipeline().workers.len() > 0,
        h.pipeline().workers[0].worker_id == ranked(h.workers)[0].id,
        h.workers.contains(ranked(h.workers)[0]),
        worker_score(ranked(h.workers)[0]) <= worker_score(w),
{
    broadcast use vstd::seq_lib::group_to_multiset_ensures;

    let ranking = ranked(h.workers);
    lemma_ranked_in_order(h.workers);
    lemma_ranked_same_workers(h.workers);
    assert(h.workers.to_multiset().count(w) > 0);
    assert(ranking.contains(w));
    let k = choose|k: int| 0 <= k < ranking.len() && ranking[k] == w;
    assert(worker_score(ranking[0]) <= worker_score(ranking[k]));
    assert(ranking.contains(ranking[0]));
    assert(ranking.to_multiset().count(ranking[0]) > 0);
}

} // verus!
