//! What the hub's events come to, in terms of the workers' records.

use vstd::prelude::*;

use crate::hub::{
    chain_at, dealt_anew, ends_round, first_worker_of, handled, heard_from, heartbeat_answer,
    layers_for, left, lemma_chain_at, model_changed, overdue, peer_of, reassignments, recipients,
    registered, registration_answer, removals, removed_ids, round_closed, round_start_of,
    updates_except, FirstWorkerView, HubView, Notice, Reaction, Removed, RoundStartView,
    MISSES_TO_REMOVE,
};
use crate::laws::{lemma_first_is_lowest, lemma_registered};
use crate::message::{
    opt_text, HeartbeatView, HubMessage, InferenceForward, InferenceResponse, WorkerView,
};
use crate::pipeline::{
    assignments, first_layer, lemma_layer_step, lemma_layers_bounded, lemma_layers_disjoint,
    lemma_ranked_contains, lemma_ranked_in_order, lemma_ranked_map, lemma_shares_before, ranked,
    share, shares_before, worker_score,
};
use crate::roster::{
    lemma_on_list, lemma_ranked_unique, lemma_upserted, lemma_without_all, lemma_worker_at, on_list,
    unique_ids, upserted, with_layers, without, without_all, worker_at,
};

verus! {

/// A record is where its identifier says.
proof fn lemma_record(workers: Seq<WorkerView>, w: WorkerView)
    requires
        unique_ids(workers),
        workers.contains(w),
    ensures
        on_list(workers, w.id),
        0 <= worker_at(workers, w.id) < workers.len(),
        workers[worker_at(workers, w.id)] == w,
{
    let i = choose|i: int| 0 <= i < workers.len() && workers[i] == w;
    lemma_on_list(workers, i);
}

/// An identifier that no record has is not on the list.
proof fn lemma_no_record(workers: Seq<WorkerView>, id: Seq<char>)
    requires
        forall|w: WorkerView| #[trigger] workers.contains(w) ==> w.id != id,
    ensures
        !on_list(workers, id),
        worker_at(workers, id) == workers.len(),
{
    lemma_worker_at(workers, id);
    if on_list(workers, id) {
        assert(workers.contains(workers[worker_at(workers, id)]));
    }
}

/// The layers of a worker are those of its place in the ranking.
proof fn lemma_layers_for(workers: Seq<WorkerView>, total: usize, p: int)
    requires
        unique_ids(workers),
        0 <= p < workers.len(),
    ensures
        ({
            let t = total as int;
            let n = workers.len() as int;
            let layers = layers_for(workers, t, ranked(workers)[p].id);
            &&& layers.0 == first_layer(p, t, n)
            &&& layers.1 == share(p, t, n)
            &&& 0 <= first_layer(p, t, n)
            &&& first_layer(p, t, n) + share(p, t, n) <= t
        }),
{
    let t = total as int;
    let n = workers.len() as int;
    lemma_ranked_in_order(workers);
    lemma_ranked_unique(workers);
    lemma_on_list(ranked(workers), p);
    lemma_layers_bounded(p, t, n);
    lemma_layers_bounded(p + 1, t, n);
    lemma_layer_step(p, t, n);
}

// ---------------------------------------------------------------------------
// A worker registers
// ---------------------------------------------------------------------------

/// New layers for a worker change nothing in the order of the ranking.
proof fn lemma_same_ranking(workers: Seq<WorkerView>, id: Seq<char>, offset: usize, num: usize)
    requires
        unique_ids(workers),
    ensures
        with_layers(workers, id, offset, num).len() == workers.len(),
        ranked(with_layers(workers, id, offset, num)).len() == workers.len(),
        forall|i: int|
            0 <= i < workers.len() ==> (#[trigger] ranked(
                with_layers(workers, id, offset, num),
            )[i]).id == ranked(workers)[i].id,
{
    let change = |w: WorkerView|
        if w.id == id {
            WorkerView { layer_offset: offset, num_layers: num, ..w }
        } else {
            w
        };
    let after = with_layers(workers, id, offset, num);
    lemma_worker_at(workers, id);
    assert forall|i: int| 0 <= i < workers.len() implies #[trigger] after[i] == change(
        workers[i],
    ) by {
        lemma_on_list(workers, i);
    }
    assert(after =~= workers.map_values(change));
    lemma_ranked_in_order(workers);
    lemma_ranked_in_order(after);
    lemma_ranked_map(workers, change);
}

/// A worker that registers is told the layers that fall to its place in the
/// ranking of all workers then on the list: they begin behind the shares of
/// those that are ranked before it, and their number is an even share of all
/// layers, or one more for the first as many as are left over.
pub proof fn lemma_told_by_place(h: HubView, conn: u64, info: WorkerView, p: int)
    requires
        h.inv(),
        0 <= p < registered(h, conn, info).workers.len(),
        ranked(registered(h, conn, info).workers)[p].id == info.id,
    ensures
        ({
            let answer = registration_answer(h, conn, info);
            let list = registered(h, conn, info).workers;
            let t = h.model.num_layers as int;
            let n = list.len() as int;
            &&& answer.num_layers == t / n + (if p < t % n {
                1int
            } else {
                0int
            })
            &&& answer.layer_offset == p * (t / n) + (if p < t % n {
                p
            } else {
                t % n
            })
            &&& answer.layer_offset == shares_before(p, t, n)
            &&& answer.layer_offset + answer.num_layers == shares_before(p + 1, t, n)
            &&& answer.layer_offset + answer.num_layers <= t
            &&& assignments(list, t)[p] == (
                info.id,
                answer.layer_offset as int,
                answer.num_layers as int,
            )
        }),
{
    let list = upserted(h.workers, info);
    let t = h.model.num_layers as int;
    let n = list.len() as int;
    let layers = layers_for(list, t, info.id);
    lemma_upserted(h.workers, info);
    lemma_same_ranking(list, info.id, layers.0, layers.1);
    lemma_layers_for(list, h.model.num_layers, p);
    lemma_shares_before(p, t, n);
    lemma_shares_before(p + 1, t, n);
    lemma_layer_step(p, t, n);
}

/// A worker that registers has a place in the ranking, and only one.
pub proof fn lemma_registered_has_a_place(h: HubView, conn: u64, info: WorkerView)
    requires
        h.inv(),
    ensures
        exists|p: int|
            0 <= p < registered(h, conn, info).workers.len() && (#[trigger] ranked(
                registered(h, conn, info).workers,
            )[p]).id == info.id,
        forall|p: int, q: int|
            0 <= p < q < registered(h, conn, info).workers.len() ==> (#[trigger] ranked(
                registered(h, conn, info).workers,
            )[p]).id != (#[trigger] ranked(registered(h, conn, info).workers)[q]).id,
{
    let after = registered(h, conn, info).workers;
    lemma_registered(h, conn, info);
    lemma_worker_at(after, info.id);
    lemma_ranked_in_order(after);
    lemma_ranked_unique(after);
    let w = after[worker_at(after, info.id)];
    assert(after.contains(w));
    lemma_ranked_contains(after, w);
    let p = choose|p: int| 0 <= p < ranked(after).len() && ranked(after)[p] == w;
    assert(ranked(after)[p].id == info.id);
}

/// Two workers whose registrations lead to one list are told layers that do
/// not overlap.
pub proof fn lemma_told_apart(
    h: HubView,
    conn: u64,
    info: WorkerView,
    h2: HubView,
    conn2: u64,
    info2: WorkerView,
)
    requires
        h.inv(),
        h2.inv(),
        upserted(h.workers, info) == upserted(h2.workers, info2),
        h.model.num_layers == h2.model.num_layers,
        info.id != info2.id,
    ensures
        ({
            let a = registration_answer(h, conn, info);
            let b = registration_answer(h2, conn2, info2);
            ||| a.layer_offset + a.num_layers <= b.layer_offset
            ||| b.layer_offset + b.num_layers <= a.layer_offset
        }),
{
    let list = upserted(h.workers, info);
    let t = h.model.num_layers as int;
    let n = list.len() as int;
    let la = layers_for(list, t, info.id);
    let lb = layers_for(list, t, info2.id);
    let after = registered(h, conn, info).workers;
    let after2 = registered(h2, conn2, info2).workers;
    lemma_upserted(h.workers, info);
    lemma_upserted(h2.workers, info2);
    lemma_same_ranking(list, info.id, la.0, la.1);
    lemma_same_ranking(list, info2.id, lb.0, lb.1);
    lemma_registered_has_a_place(h, conn, info);
    lemma_registered_has_a_place(h2, conn2, info2);
    let p = choose|p: int| 0 <= p < after.len() && (#[trigger] ranked(after)[p]).id == info.id;
    let q = choose|q: int| 0 <= q < after2.len() && (#[trigger] ranked(after2)[q]).id == info2.id;
    assert(ranked(list)[p].id == info.id);
    assert(ranked(list)[q].id == info2.id);
    lemma_layers_for(list, h.model.num_layers, p);
    lemma_layers_for(list, h.model.num_layers, q);
    if p < q {
        lemma_layers_disjoint(p, q, t, n);
    } else {
        lemma_layers_disjoint(q, p, t, n);
    }
}

/// What a registration changes: the worker's own record, which is new or in
/// the place of its old one, its connection and its count of misses. The rest
/// stays, and the answer has the model's name and fingerprint, the address of
/// the hub's own copy, and the pipeline that now holds.
pub proof fn lemma_registration_changes(h: HubView, conn: u64, info: WorkerView)
    requires
        h.inv(),
    ensures
        ({
            let after = registered(h, conn, info);
            let answer = registration_answer(h, conn, info);
            let known = exists|w: WorkerView| #[trigger] h.workers.contains(w) && w.id == info.id;
            &&& after.workers.len() == h.workers.len() + (if known {
                0int
            } else {
                1int
            })
            &&& forall|i: int|
                0 <= i < h.workers.len() ==> (#[trigger] after.workers[i]).id == h.workers[i].id
            &&& forall|i: int|
                0 <= i < h.workers.len() && h.workers[i].id != info.id
                    ==> #[trigger] after.workers[i] == h.workers[i]
            &&& forall|i: int|
                0 <= i < after.workers.len() && (#[trigger] after.workers[i]).id == info.id
                    ==> after.workers[i] == (WorkerView {
                    layer_offset: answer.layer_offset,
                    num_layers: answer.num_layers,
                    ..info
                })
            &&& !known ==> after.workers.last().id == info.id
            &&& after.streams == h.streams.insert(info.id, conn)
            &&& after.missed == h.missed.insert(info.id, 0)
            &&& after.responded == h.responded
            &&& after.pending == h.pending
            &&& after.model == h.model
            &&& after.model_alias == h.model_alias
            &&& after.model_url == h.model_url
            &&& after.model_hash == h.model_hash
            &&& after.address == h.address
            &&& !answer.reassign
            &&& answer.model_name == h.model.name
            &&& answer.model_url == "http://"@ + h.address + "/model/download"@
            &&& answer.model_hash == h.model_hash
            &&& answer.pipeline == Some(after.pipeline())
        }),
{
    let after = registered(h, conn, info);
    let list = upserted(h.workers, info);
    lemma_registered(h, conn, info);
    lemma_upserted(h.workers, info);
    lemma_worker_at(h.workers, info.id);
    if on_list(h.workers, info.id) {
        assert(h.workers.contains(h.workers[worker_at(h.workers, info.id)]));
    }
    if exists|w: WorkerView| #[trigger] h.workers.contains(w) && w.id == info.id {
        let w = choose|w: WorkerView| #[trigger] h.workers.contains(w) && w.id == info.id;
        lemma_record(h.workers, w);
    }
    assert forall|i: int| 0 <= i < h.workers.len() && h.workers[i].id != info.id implies
        #[trigger] after.workers[i] == h.workers[i] by {
        assert(i != worker_at(h.workers, info.id));
    }
    assert forall|i: int|
        0 <= i < after.workers.len() && (#[trigger] after.workers[i]).id == info.id implies i
        == worker_at(after.workers, info.id) by {
        lemma_on_list(after.workers, i);
    }
}

/// Of a worker that registers, every other connected worker is told over its
/// own connection, and once, the layers of its own record, or none where it
/// has no record, the model and the pipeline, and to change nothing.
pub proof fn lemma_update_tells_record(h: HubView, id: Seq<char>, notices: Seq<Notice>, i: int)
    requires
        unique_ids(h.workers),
        updates_except(h, id, notices),
        0 <= i < notices.len(),
    ensures
        ({
            let to = notices[i].worker_id@;
            let said = notices[i].message@;
            &&& to != id
            &&& h.streams.dom().contains(to)
            &&& notices[i].conn == h.streams[to]
            &&& forall|w: WorkerView| #[trigger]
                h.workers.contains(w) && w.id == to ==> said.layer_offset == w.layer_offset
                    && said.num_layers == w.num_layers
            &&& (forall|w: WorkerView| #[trigger] h.workers.contains(w) ==> w.id != to)
                ==> said.layer_offset == 0 && said.num_layers == 0
            &&& !said.reassign
            &&& said.model_name == h.model.name
            &&& said.model_url == "http://"@ + h.address + "/model/download"@
            &&& said.model_hash == Seq::<char>::empty()
            &&& said.pipeline == Some(h.pipeline())
            &&& forall|j: int|
                0 <= j < notices.len() && j != i ==> (#[trigger] notices[j]).worker_id@ != to
        }),
{
    let to = notices[i].worker_id@;
    let said = notices[i].message@;
    assert(recipients(notices)[i] == to);
    assert forall|j: int| 0 <= j < notices.len() && j != i implies (#[trigger] notices[
    j]).worker_id@ != to by {
        assert(recipients(notices)[j] == notices[j].worker_id@);
    }
    assert(recipients(notices).contains(to));
    assert forall|w: WorkerView| #[trigger] h.workers.contains(w) && w.id == to implies
        said.layer_offset == w.layer_offset && said.num_layers == w.num_layers by {
        lemma_entry_of(h, w);
    }
    if forall|w: WorkerView| #[trigger] h.workers.contains(w) ==> w.id != to {
        lemma_no_entry(h, to);
    }
}

/// The pipeline's first entry for a worker has the layers of its record.
proof fn lemma_entry_of(h: HubView, w: WorkerView)
    requires
        unique_ids(h.workers),
        h.workers.contains(w),
    ensures
        ({
            let chain = h.pipeline().workers;
            let p = chain_at(chain, w.id);
            &&& 0 <= p < chain.len()
            &&& ranked(h.workers)[p] == w
            &&& chain[p].worker_id == w.id
            &&& chain[p].layer_offset == w.layer_offset
            &&& chain[p].num_layers == w.num_layers
        }),
{
    let chain = h.pipeline().workers;
    let ranking = ranked(h.workers);
    let p = chain_at(chain, w.id);
    lemma_chain_at(chain, w.id);
    lemma_ranked_in_order(h.workers);
    lemma_ranked_unique(h.workers);
    lemma_ranked_contains(h.workers, w);
    let k = choose|k: int| 0 <= k < ranking.len() && ranking[k] == w;
    assert(chain[k].worker_id == w.id);
    if p < k {
        assert(chain[p].worker_id == ranking[p].id);
        assert(ranking[p].id != ranking[k].id);
    }
}

/// The pipeline has no entry for a worker without a record.
proof fn lemma_no_entry(h: HubView, id: Seq<char>)
    requires
        forall|w: WorkerView| #[trigger] h.workers.contains(w) ==> w.id != id,
    ensures
        chain_at(h.pipeline().workers, id) == h.pipeline().workers.len(),
{
    let chain = h.pipeline().workers;
    let ranking = ranked(h.workers);
    let p = chain_at(chain, id);
    lemma_chain_at(chain, id);
    lemma_ranked_in_order(h.workers);
    if p < chain.len() {
        assert(chain[p].worker_id == ranking[p].id);
        assert(ranking.contains(ranking[p]));
        lemma_ranked_contains(h.workers, ranking[p]);
    }
}

// ---------------------------------------------------------------------------
// A worker gives a sign of life
// ---------------------------------------------------------------------------

/// What a sign of life changes: in the record of the worker that gave it the
/// four figures it reports, its count of misses and that it was heard. Nobody
/// is added, dropped or moved, and the rest stays.
pub proof fn lemma_heard_changes(h: HubView, hb: HeartbeatView)
    requires
        h.inv(),
    ensures
        ({
            let after = heard_from(h, hb);
            &&& after.workers.len() == h.workers.len()
            &&& forall|i: int|
                0 <= i < h.workers.len() ==> #[trigger] after.workers[i] == (if h.workers[i].id
                    == hb.worker_id {
                    WorkerView {
                        load: hb.load,
                        has_gpu: hb.has_gpu,
                        vram_gb: hb.vram_gb,
                        active: hb.active,
                        ..h.workers[i]
                    }
                } else {
                    h.workers[i]
                })
            &&& after.missed == h.missed.insert(hb.worker_id, 0)
            &&& after.responded == h.responded.insert(hb.worker_id, true)
            &&& after.streams == h.streams
            &&& after.pending == h.pending
            &&& after.model == h.model
            &&& after.model_alias == h.model_alias
            &&& after.model_url == h.model_url
            &&& after.model_hash == h.model_hash
            &&& after.address == h.address
        }),
{
    let after = heard_from(h, hb);
    lemma_worker_at(h.workers, hb.worker_id);
    assert forall|i: int| 0 <= i < h.workers.len() implies #[trigger] after.workers[i] == (
    if h.workers[i].id == hb.worker_id {
        WorkerView {
            load: hb.load,
            has_gpu: hb.has_gpu,
            vram_gb: hb.vram_gb,
            active: hb.active,
            ..h.workers[i]
        }
    } else {
        h.workers[i]
    }) by {
        lemma_on_list(h.workers, i);
    }
}

/// A worker that gave a sign of life is told the layers of its own record,
/// and to change where they are not the ones it reported; one without a record
/// is told what it reported. All are told the model, and the pipeline where
/// there is one.
pub proof fn lemma_heard_told_record(h: HubView, hb: HeartbeatView)
    requires
        unique_ids(h.workers),
    ensures
        ({
            let answer = heartbeat_answer(h, hb);
            &&& forall|w: WorkerView| #[trigger]
                h.workers.contains(w) && w.id == hb.worker_id ==> {
                    &&& answer.layer_offset == w.layer_offset
                    &&& answer.num_layers == w.num_layers
                    &&& answer.reassign == (w.layer_offset != hb.layer_offset || w.num_layers
                        != hb.num_layers)
                }
            &&& (forall|w: WorkerView| #[trigger] h.workers.contains(w) ==> w.id != hb.worker_id)
                ==> {
                &&& answer.layer_offset == hb.layer_offset
                &&& answer.num_layers == hb.num_layers
                &&& !answer.reassign
            }
            &&& answer.model_name == h.model.name
            &&& answer.model_url == "http://"@ + h.address + "/model/download"@
            &&& answer.model_hash == h.model_hash
            &&& h.workers.len() == 0 ==> answer.pipeline is None
            &&& h.workers.len() > 0 ==> answer.pipeline == Some(h.pipeline())
        }),
{
    let answer = heartbeat_answer(h, hb);
    assert forall|w: WorkerView| #[trigger]
        h.workers.contains(w) && w.id == hb.worker_id implies answer.layer_offset == w.layer_offset
        && answer.num_layers == w.num_layers && answer.reassign == (w.layer_offset
        != hb.layer_offset || w.num_layers != hb.num_layers) by {
        lemma_entry_of(h, w);
    }
    if forall|w: WorkerView| #[trigger] h.workers.contains(w) ==> w.id != hb.worker_id {
        lemma_no_entry(h, hb.worker_id);
    }
}

/// A round ends with the sign of life of the worker that is ranked last: no
/// other scores higher.
pub proof fn lemma_round_ends_with_last(h: HubView, id: Seq<char>)
    ensures
        ends_round(h, id) <==> h.workers.len() > 0 && ranked(h.workers).last().id == id,
        ends_round(h, id) ==> exists|w: WorkerView| #[trigger]
            h.workers.contains(w) && w.id == id && forall|x: WorkerView| #[trigger]
                h.workers.contains(x) ==> worker_score(x) <= worker_score(w),
{
    let chain = h.pipeline().workers;
    let ranking = ranked(h.workers);
    let n = h.workers.len() as int;
    lemma_ranked_in_order(h.workers);
    if ends_round(h, id) {
        let i = choose|i: int|
            0 <= i < chain.len() && (#[trigger] chain[i]).worker_id == id && chain[i].is_last;
        assert(i == n - 1);
        let w = ranking[n - 1];
        assert(ranking.contains(w));
        lemma_ranked_contains(h.workers, w);
        assert forall|x: WorkerView| #[trigger] h.workers.contains(x) implies worker_score(x)
            <= worker_score(w) by {
            lemma_ranked_contains(h.workers, x);
            let k = choose|k: int| 0 <= k < ranking.len() && ranking[k] == x;
            assert(worker_score(ranking[k]) <= worker_score(ranking[n - 1]));
        }
    }
    if n > 0 && ranking.last().id == id {
        assert(chain[n - 1].worker_id == id && chain[n - 1].is_last);
    }
}

// ---------------------------------------------------------------------------
// Workers leave
// ---------------------------------------------------------------------------

/// Taking one worker out leaves the others in their order.
proof fn lemma_without_filter(workers: Seq<WorkerView>, id: Seq<char>)
    requires
        unique_ids(workers),
    ensures
        without(workers, id) == workers.filter(|w: WorkerView| w.id != id),
    decreases workers.len(),
{
    reveal(Seq::filter);
    let keep = |w: WorkerView| w.id != id;
    lemma_worker_at(workers, id);
    if workers.len() > 0 {
        let rest = workers.drop_last();
        assert forall|a: int, b: int| 0 <= a < b < rest.len() implies (#[trigger] rest[a]).id != (
        #[trigger] rest[b]).id by {
            assert(workers[a].id != workers[b].id);
        }
        lemma_without_filter(rest, id);
        lemma_worker_at(rest, id);
        let i = worker_at(workers, id);
        if workers.last().id == id {
            lemma_on_list(workers, workers.len() - 1);
            if on_list(rest, id) {
                let k = worker_at(rest, id);
                assert(workers[k].id != workers[workers.len() - 1].id);
            }
            assert(without(workers, id) =~= rest);
        } else if on_list(workers, id) {
            assert(rest[i].id == id);
            lemma_on_list(rest, i);
            assert(without(workers, id) =~= without(rest, id).push(workers.last()));
        } else {
            if on_list(rest, id) {
                assert(workers[worker_at(rest, id)].id == id);
            }
            assert(without(workers, id) =~= without(rest, id).push(workers.last()));
        }
    } else {
        assert(without(workers, id) =~= workers.filter(keep));
    }
}

/// Taking workers out leaves the others in their order.
proof fn lemma_without_all_filter(workers: Seq<WorkerView>, gone: Set<Seq<char>>)
    ensures
        without_all(workers, gone) == workers.filter(|w: WorkerView| !gone.contains(w.id)),
    decreases workers.len(),
{
    reveal(Seq::filter);
    if workers.len() > 0 {
        lemma_without_all_filter(workers.drop_last(), gone);
    } else {
        assert(without_all(workers, gone) =~= workers.filter(
            |w: WorkerView| !gone.contains(w.id),
        ));
    }
}

/// What a closed connection changes: of the worker whose it was nothing is
/// kept; all others stay, in their order, and so does the rest, prompts that
/// wait for an answer among it.
pub proof fn lemma_left_changes(h: HubView, id: Seq<char>)
    requires
        h.inv(),
    ensures
        ({
            let after = left(h, id);
            &&& after.workers == h.workers.filter(|w: WorkerView| w.id != id)
            &&& after.streams == h.streams.remove(id)
            &&& after.missed == h.missed.remove(id)
            &&& after.responded == h.responded.remove(id)
            &&& after.pending == h.pending
            &&& after.model == h.model
            &&& after.model_alias == h.model_alias
            &&& after.model_url == h.model_url
            &&& after.model_hash == h.model_hash
            &&& after.address == h.address
        }),
{
    lemma_without_filter(h.workers, id);
}

/// Whether a worker was asked in this round, did not answer, and thereby
/// misses its fourth heartbeat in a row.
pub open spec fn misses_fourth(h: HubView, id: Seq<char>) -> bool {
    &&& h.responded.dom().contains(id)
    &&& !h.responded[id]
    &&& h.missed.dom().contains(id)
    &&& h.missed[id] >= 3
}

/// What the end of a round changes: the workers that miss their fourth
/// heartbeat in a row go, with their connections and counts, and the others
/// stay in their order, with their connections. Who was heard from starts
/// again at zero, who was asked in vain has missed one more, who was not asked
/// has missed as many as before. All that stay, and nobody else, are asked in
/// the next round.
pub proof fn lemma_round_changes(h: HubView, id: Seq<char>)
    requires
        h.inv(),
    ensures
        ({
            let after = round_closed(h);
            &&& after.workers == h.workers.filter(|w: WorkerView| !misses_fourth(h, w.id))
            &&& misses_fourth(h, id) ==> {
                &&& !after.streams.dom().contains(id)
                &&& !after.missed.dom().contains(id)
                &&& !after.responded.dom().contains(id)
            }
            &&& !misses_fourth(h, id) ==> {
                &&& after.streams.dom().contains(id) == h.streams.dom().contains(id)
                &&& h.streams.dom().contains(id) ==> after.streams[id] == h.streams[id]
                &&& after.misses(id) == (if !h.responded.dom().contains(id) {
                    h.misses(id)
                } else if h.responded[id] {
                    0
                } else {
                    h.misses(id) + 1
                })
            }
            &&& after.responded.dom().contains(id) <==> exists|w: WorkerView| #[trigger]
                after.workers.contains(w) && w.id == id
            &&& after.responded.dom().contains(id) ==> !after.responded[id]
            &&& after.pending == h.pending
            &&& after.model == h.model
            &&& after.model_alias == h.model_alias
            &&& after.model_url == h.model_url
            &&& after.model_hash == h.model_hash
            &&& after.address == h.address
        }),
{
    let after = round_closed(h);
    let gone = overdue(h);
    lemma_without_all(h.workers, gone);
    lemma_without_all_filter(h.workers, gone);
    assert forall|k: Seq<char>| #[trigger] gone.contains(k) <==> misses_fourth(h, k) by {
        lemma_overdue(h, k);
    }
    lemma_filter_same(
        h.workers,
        |w: WorkerView| !gone.contains(w.id),
        |w: WorkerView| !misses_fourth(h, w.id),
    );
    lemma_worker_at(h.workers, id);
    lemma_overdue(h, id);
    if h.missed.dom().contains(id) {
        assert(h.missed[id] < MISSES_TO_REMOVE);
    }
    if after.responded.dom().contains(id) {
        let w = h.workers[worker_at(h.workers, id)];
        assert(h.workers.contains(w));
        assert(after.workers.contains(w));
    }
    if exists|w: WorkerView| #[trigger] after.workers.contains(w) && w.id == id {
        let w = choose|w: WorkerView| #[trigger] after.workers.contains(w) && w.id == id;
        lemma_record(h.workers, w);
    }
}

/// Who has missed too many heartbeats misses a fourth one.
proof fn lemma_overdue(h: HubView, id: Seq<char>)
    ensures
        overdue(h).contains(id) <==> misses_fourth(h, id),
{
}

/// Two tests that agree on every record pick the same records.
proof fn lemma_filter_same(
    workers: Seq<WorkerView>,
    f: spec_fn(WorkerView) -> bool,
    g: spec_fn(WorkerView) -> bool,
)
    requires
        forall|w: WorkerView| f(w) == #[trigger] g(w),
    ensures
        workers.filter(f) == workers.filter(g),
    decreases workers.len(),
{
    reveal(Seq::filter);
    if workers.len() > 0 {
        lemma_filter_same(workers.drop_last(), f, g);
    }
}

/// The workers that a round removes are named, each once: those that miss
/// their fourth heartbeat in a row and nobody else.
pub proof fn lemma_removed_named(
    h: HubView,
    password: Seq<char>,
    removed: Seq<Removed>,
    id: Seq<char>,
)
    requires
        removals(h, password, removed),
    ensures
        misses_fourth(h, id) <==> exists|i: int|
            0 <= i < removed.len() && (#[trigger] removed[i]).worker_id@ == id,
        forall|i: int, j: int|
            0 <= i < j < removed.len() ==> (#[trigger] removed[i]).worker_id@ != (
            #[trigger] removed[j]).worker_id@,
{
    let ids = removed_ids(removed);
    lemma_overdue(h, id);
    if misses_fourth(h, id) {
        assert(ids.contains(id));
        let i = choose|i: int| 0 <= i < ids.len() && ids[i] == id;
        assert(removed[i].worker_id@ == id);
    }
    if exists|i: int| 0 <= i < removed.len() && (#[trigger] removed[i]).worker_id@ == id {
        let i = choose|i: int| 0 <= i < removed.len() && (#[trigger] removed[i]).worker_id@ == id;
        assert(ids[i] == id);
        assert(ids.contains(id));
    }
    assert forall|i: int, j: int| 0 <= i < j < removed.len() implies (#[trigger] removed[
    i]).worker_id@ != (#[trigger] removed[j]).worker_id@ by {
        assert(ids[i] != ids[j]);
    }
}

/// The peer that goes with a removed worker is the one in that worker's own
/// record, as the round found it: it is named wherever the record has one and
/// there is a password to manage the tunnel with, and nowhere else.
pub proof fn lemma_removed_peer(h: HubView, password: Seq<char>, removed: Seq<Removed>, i: int)
    requires
        unique_ids(h.workers),
        removals(h, password, removed),
        0 <= i < removed.len(),
    ensures
        forall|w: WorkerView| #[trigger]
            h.workers.contains(w) && w.id == removed[i].worker_id@ ==> {
                &&& removed[i].peer is Some <==> w.wg_peer_id.len() > 0 && password.len() > 0
                &&& removed[i].peer is Some ==> removed[i].peer->0@ == w.wg_peer_id
            },
        (forall|w: WorkerView| #[trigger] h.workers.contains(w) ==> w.id != removed[i].worker_id@)
            ==> removed[i].peer is None,
{
    let id = removed[i].worker_id@;
    assert(opt_text(removed[i].peer) == peer_of(h, id, password));
    assert forall|w: WorkerView| #[trigger] h.workers.contains(w) && w.id == id implies (
    removed[i].peer is Some <==> w.wg_peer_id.len() > 0 && password.len() > 0) && (
    removed[i].peer is Some ==> removed[i].peer->0@ == w.wg_peer_id) by {
        lemma_record(h.workers, w);
    }
    if forall|w: WorkerView| #[trigger] h.workers.contains(w) ==> w.id != id {
        lemma_no_record(h.workers, id);
    }
}

/// No peer of a worker that stays is named for removal, where no two workers
/// share a peer.
pub proof fn lemma_staying_peer_kept(
    h: HubView,
    password: Seq<char>,
    removed: Seq<Removed>,
    w: WorkerView,
    i: int,
)
    requires
        h.inv(),
        removals(h, password, removed),
        forall|a: WorkerView, b: WorkerView| #[trigger]
            h.workers.contains(a) && #[trigger] h.workers.contains(b) && a.id != b.id
                ==> a.wg_peer_id != b.wg_peer_id,
        round_closed(h).workers.contains(w),
        0 <= i < removed.len(),
    ensures
        removed[i].peer is Some ==> removed[i].peer->0@ != w.wg_peer_id,
{
    let id = removed[i].worker_id@;
    lemma_without_all(h.workers, overdue(h));
    lemma_removed_peer(h, password, removed, i);
    assert(removed_ids(removed)[i] == id);
    assert(removed_ids(removed).contains(id));
    if removed[i].peer is Some {
        if forall|x: WorkerView| #[trigger] h.workers.contains(x) ==> x.id != id {
            assert(removed[i].peer is None);
        }
        let x = choose|x: WorkerView| #[trigger] h.workers.contains(x) && x.id == id;
        assert(h.workers.contains(x) && h.workers.contains(w));
    }
}

// ---------------------------------------------------------------------------
// Where rounds and prompts begin
// ---------------------------------------------------------------------------

/// The first worker is the one that the hub's own pipeline begins with: one of
/// those registered, which no other scores below, reached over its own
/// connection. There is none only where nobody is registered.
pub proof fn lemma_first_worker(h: HubView)
    ensures
        first_worker_of(h) is Missing <==> h.workers.len() == 0,
        first_worker_of(h) matches FirstWorkerView::Connected(id, conn) ==> {
                &&& h.pipeline().workers[0].worker_id == id
                &&& h.pipeline().workers[0].is_first
                &&& h.streams.dom().contains(id)
                &&& conn == h.streams[id]
                &&& exists|w: WorkerView| #[trigger]
                    h.workers.contains(w) && w.id == id && forall|x: WorkerView| #[trigger]
                        h.workers.contains(x) ==> worker_score(w) <= worker_score(x)
            },
        first_worker_of(h) matches FirstWorkerView::NotConnected(id) ==> {
                &&& h.pipeline().workers[0].worker_id == id
                &&& !h.streams.dom().contains(id)
                &&& exists|w: WorkerView| #[trigger]
                    h.workers.contains(w) && w.id == id && forall|x: WorkerView| #[trigger]
                        h.workers.contains(x) ==> worker_score(w) <= worker_score(x)
            },
{
    lemma_ranked_in_order(h.workers);
    if h.workers.len() > 0 {
        let w = ranked(h.workers)[0];
        lemma_first_is_lowest(h, h.workers[0]);
        assert forall|x: WorkerView| #[trigger] h.workers.contains(x) implies worker_score(w)
            <= worker_score(x) by {
            lemma_first_is_lowest(h, x);
        }
        assert(h.workers.contains(w) && w.id == h.pipeline().workers[0].worker_id);
    }
}

/// A round of heartbeats begins with the worker that the pipeline in the
/// message itself begins with, over that worker's own connection; the pipeline
/// is that of all registered workers. It begins wherever that worker is
/// connected.
pub proof fn lemma_round_goes_to_first(h: HubView)
    ensures
        round_start_of(h) matches RoundStartView::Forward { worker_id, conn, pipeline } ==> {
                &&& pipeline == h.pipeline()
                &&& pipeline.workers.len() == h.workers.len()
                &&& pipeline.workers.len() > 0
                &&& pipeline.workers[0].worker_id == worker_id
                &&& pipeline.workers[0].is_first
                &&& h.streams.dom().contains(worker_id)
                &&& conn == h.streams[worker_id]
            },
        round_start_of(h) is Forward <==> h.workers.len() > 0 && h.streams.dom().contains(
            ranked(h.workers)[0].id,
        ),
        round_start_of(h) matches RoundStartView::NotConnected(id) ==> h.workers.len() > 0 && id
            == ranked(h.workers)[0].id && !h.streams.dom().contains(id),
        round_start_of(h) is NoWorkers <==> h.workers.len() == 0,
        round_start_of(h) is NoStreams <==> h.workers.len() > 0 && forall|k: Seq<char>|
            !#[trigger] h.streams.dom().contains(k),
{
    lemma_first_worker(h);
    lemma_ranked_in_order(h.workers);
    if forall|k: Seq<char>| !#[trigger] h.streams.dom().contains(k) {
        assert(h.streams.dom() =~= Set::<Seq<char>>::empty());
    }
}

// ---------------------------------------------------------------------------
// Dealing out anew
// ---------------------------------------------------------------------------

/// Where the layers are dealt out anew, each worker gets those of its place in
/// the ranking, by the same shares as on registration, and keeps the rest of
/// its record and its place on the list.
pub proof fn lemma_dealt_by_place(h: HubView, i: int, p: int)
    requires
        h.inv(),
        0 <= i < h.workers.len(),
        0 <= p < h.workers.len(),
        ranked(h.workers)[p].id == h.workers[i].id,
    ensures
        ({
            let after = dealt_anew(h);
            let t = h.model.num_layers as int;
            let n = h.workers.len() as int;
            let w = after.workers[i];
            &&& after.workers.len() == n
            &&& w.layer_offset == p * (t / n) + (if p < t % n {
                p
            } else {
                t % n
            })
            &&& w.num_layers == t / n + (if p < t % n {
                1int
            } else {
                0int
            })
            &&& w == (WorkerView {
                layer_offset: w.layer_offset,
                num_layers: w.num_layers,
                ..h.workers[i]
            })
            &&& after == (HubView { workers: after.workers, ..h })
        }),
{
    lemma_layers_for(h.workers, h.model.num_layers, p);
}

/// Each notice of a reassignment goes to a worker on the list over its own
/// connection, tells it to load the layers of its place in the ranking, and
/// has the model and the pipeline. The notices go out in the order of the
/// ranking.
pub proof fn lemma_reassignment_notice(h: HubView, m: int, k: int)
    requires
        0 <= m <= h.workers.len(),
        0 <= k < reassignments(h, m).len(),
    ensures
        exists|p: int|
            0 <= p < m && {
                let notice = reassignments(h, m)[k];
                let t = h.model.num_layers as int;
                let n = h.workers.len() as int;
                &&& notice.0 == (#[trigger] ranked(h.workers)[p]).id
                &&& h.streams.dom().contains(notice.0)
                &&& notice.1 == h.streams[notice.0]
                &&& notice.2.reassign
                &&& notice.2.layer_offset == first_layer(p, t, n)
                &&& notice.2.num_layers == share(p, t, n)
                &&& notice.2.model_name == h.model.name
                &&& notice.2.model_url == "http://"@ + h.address + "/model/download"@
                &&& notice.2.model_hash == h.model_hash
                &&& notice.2.pipeline == Some(h.pipeline())
            },
        forall|l: int|
            k < l < reassignments(h, m).len() ==> exists|p: int, q: int|
                0 <= p < q < m && reassignments(h, m)[k].0 == (#[trigger] ranked(h.workers)[p]).id
                    && (#[trigger] reassignments(h, m)[l]).0 == (#[trigger] ranked(
                    h.workers,
                )[q]).id,
    decreases m,
{
    let all = reassignments(h, m);
    let front = reassignments(h, m - 1);
    let t = h.model.num_layers as int;
    let n = h.workers.len() as int;
    lemma_ranked_in_order(h.workers);
    assert(h.pipeline().workers[m - 1].worker_id == ranked(h.workers)[m - 1].id);
    lemma_layers_bounded(m - 1, t, n);
    lemma_layers_bounded(m, t, n);
    lemma_layer_step(m - 1, t, n);
    if k < front.len() {
        lemma_reassignment_notice(h, m - 1, k);
        assert(all[k] == front[k]);
        let p = choose|p: int|
            0 <= p < m - 1 && front[k].0 == (#[trigger] ranked(h.workers)[p]).id
                && front[k].2.layer_offset == first_layer(p, t, n) && front[k].2.num_layers
                == share(p, t, n);
        assert(0 <= p < m && all[k].0 == ranked(h.workers)[p].id);
        assert forall|l: int| k < l < all.len() implies exists|p: int, q: int|
            0 <= p < q < m && all[k].0 == (#[trigger] ranked(h.workers)[p]).id && (
            #[trigger] all[l]).0 == (#[trigger] ranked(h.workers)[q]).id by {
            if l < front.len() {
                assert(all[l] == front[l]);
                let (p2, q2) = choose|p2: int, q2: int|
                    0 <= p2 < q2 < m - 1 && front[k].0 == (#[trigger] ranked(h.workers)[p2]).id
                        && front[l].0 == (#[trigger] ranked(h.workers)[q2]).id;
                assert(0 <= p2 < q2 < m && all[k].0 == ranked(h.workers)[p2].id && all[l].0
                    == ranked(h.workers)[q2].id);
            } else {
                assert(0 <= p < m - 1 < m && all[k].0 == ranked(h.workers)[p].id && all[l].0
                    == ranked(h.workers)[m - 1].id);
            }
        }
    } else {
        assert(all[k].0 == ranked(h.workers)[m - 1].id);
    }
}

// ---------------------------------------------------------------------------
// Messages
// ---------------------------------------------------------------------------

/// A message for another worker goes, as it is, to the connection of the
/// worker it names, whoever sent it; where that one is not connected nothing
/// goes out. The hub's memory stays as it was.
pub proof fn lemma_message_passed_on(
    h: HubView,
    conn: u64,
    message: InferenceForward,
    after: HubView,
    reaction: Reaction,
)
    requires
        handled(h, conn, HubMessage::InferenceForward(message), after, reaction),
    ensures
        after == h,
        h.streams.dom().contains(message@.to_worker) ==> (reaction matches Reaction::Forward {
            conn: target,
            message: passed,
        } && target == h.streams[message@.to_worker] && passed@ == message@),
        !h.streams.dom().contains(message@.to_worker) ==> reaction is NoTarget,
{
}

/// An answer to a prompt goes, as it is, to the one that waits for the prompt
/// it names, who then waits no more; everybody else waits as before. Where
/// nobody waits for it nothing is done.
pub proof fn lemma_answer_delivered(
    h: HubView,
    conn: u64,
    response: InferenceResponse,
    after: HubView,
    reaction: Reaction,
)
    requires
        handled(h, conn, HubMessage::InferenceResponse(response), after, reaction),
    ensures
        after == (HubView { pending: after.pending, ..h }),
        !after.pending.dom().contains(response@.id),
        forall|k: Seq<char>|
            k != response@.id ==> (#[trigger] after.pending.dom().contains(k)
                <==> h.pending.dom().contains(k)),
        forall|k: Seq<char>| #[trigger]
            after.pending.dom().contains(k) ==> after.pending[k] == h.pending[k],
        h.pending.dom().contains(response@.id) ==> (reaction matches Reaction::Deliver {
            waiter,
            response: what,
        } && waiter == h.pending[response@.id] && what@ == response@),
        !h.pending.dom().contains(response@.id) ==> reaction is NobodyWaits,
{
}

/// A message that workers do not send does nothing.
pub proof fn lemma_message_ignored(
    h: HubView,
    conn: u64,
    message: HubMessage,
    after: HubView,
    reaction: Reaction,
)
    requires
        handled(h, conn, message, after, reaction),
        message !is Register,
        message !is Heartbeat,
        message !is InferenceResponse,
        message !is InferenceForward,
    ensures
        after == h,
        reaction is Unexpected,
{
}

// ---------------------------------------------------------------------------
// The model
// ---------------------------------------------------------------------------

/// Another model has the name, the number of layers and the address that are
/// given; all else stays, the workers and their layers among it.
pub proof fn lemma_model_changes(
    h: HubView,
    name: Seq<char>,
    num_layers: usize,
    url: Seq<char>,
)
    ensures
        ({
            let after = model_changed(h, name, num_layers, url);
            &&& after.model.name == name
            &&& after.model.num_layers == num_layers
            &&& after.model_url == url
            &&& after.model.hidden_size == h.model.hidden_size
            &&& after.model.num_heads == h.model.num_heads
            &&& after.model.vocab_size == h.model.vocab_size
            &&& after.model_alias == h.model_alias
            &&& after.model_hash == h.model_hash
            &&& after.address == h.address
            &&& after.workers == h.workers
            &&& after.streams == h.streams
            &&& after.missed == h.missed
            &&& after.responded == h.responded
            &&& after.pending == h.pending
        }),
{
}

} // verus!
