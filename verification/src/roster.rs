//! The list of registered workers: each identifier once.

use vstd::prelude::*;

use crate::message::{HeartbeatView, WorkerInfo, WorkerView};
use crate::pipeline::{
    lemma_place, lemma_ranked_in_order, lemma_ranked_same_workers, place, rankable, ranked,
    worker_views,
};
use crate::score::{has_score, nan};
use crate::text::same_text;

verus! {

/// The position of the worker with an identifier, or the number of workers.
pub open spec fn worker_at(workers: Seq<WorkerView>, id: Seq<char>) -> int
    decreases workers.len(),
{
    if workers.len() == 0 || workers[0].id == id {
        0
    } else {
        1 + worker_at(workers.drop_first(), id)
    }
}

/// Whether a worker with an identifier is on the list.
pub open spec fn on_list(workers: Seq<WorkerView>, id: Seq<char>) -> bool {
    worker_at(workers, id) < workers.len()
}

/// Whether no two workers have one identifier.
pub open spec fn unique_ids(workers: Seq<WorkerView>) -> bool {
    forall|i: int, j: int|
        0 <= i < j < workers.len() ==> (#[trigger] workers[i]).id != (#[trigger] workers[j]).id
}

/// The first worker with an identifier is where `worker_at` says.
pub proof fn lemma_worker_at(workers: Seq<WorkerView>, id: Seq<char>)
    ensures
        0 <= worker_at(workers, id) <= workers.len(),
        on_list(workers, id) ==> workers[worker_at(workers, id)].id == id,
        forall|j: int| 0 <= j < worker_at(workers, id) ==> (#[trigger] workers[j]).id != id,
    decreases workers.len(),
{
    if workers.len() > 0 && workers[0].id != id {
        let rest = workers.drop_first();
        lemma_worker_at(rest, id);
        assert forall|j: int| 0 <= j < worker_at(workers, id) implies (#[trigger] workers[j]).id
            != id by {
            if j > 0 {
                assert(rest[j - 1] == workers[j]);
            }
        }
    }
}

/// A worker is on the list if it stands anywhere on it.
pub proof fn lemma_on_list(workers: Seq<WorkerView>, i: int)
    requires
        0 <= i < workers.len(),
        unique_ids(workers),
    ensures
        worker_at(workers, workers[i].id) == i,
{
    let id = workers[i].id;
    lemma_worker_at(workers, id);
    let k = worker_at(workers, id);
    if k < i {
        assert(workers[k].id != workers[i].id);
    }
}

/// A ranking names each worker once where the list does.
pub proof fn lemma_ranked_unique(workers: Seq<WorkerView>)
    requires
        unique_ids(workers),
    ensures
        unique_ids(ranked(workers)),
    decreases workers.len(),
{
    broadcast use vstd::seq_lib::group_to_multiset_ensures;

    if workers.len() > 0 {
        let rest = workers.drop_last();
        let w = workers.last();
        let ranking = ranked(rest);
        let p = place(ranking, w);
        let all = ranked(workers);
        assert forall|i: int, j: int| 0 <= i < j < rest.len() implies (#[trigger] rest[i]).id != (
        #[trigger] rest[j]).id by {
            assert(workers[i].id != workers[j].id);
        }
        lemma_ranked_unique(rest);
        lemma_ranked_same_workers(rest);
        lemma_ranked_in_order(rest);
        lemma_place(ranking, w);
        assert forall|i: int| 0 <= i < ranking.len() implies (#[trigger] ranking[i]).id != w.id by {
            let x = ranking[i];
            assert(ranking.contains(x));
            assert(ranking.to_multiset().count(x) > 0);
            assert(rest.contains(x));
            let k = choose|k: int| 0 <= k < rest.len() && rest[k] == x;
            assert(workers[k].id != workers[workers.len() - 1].id);
        }
        assert forall|i: int, j: int| 0 <= i < j < all.len() implies (#[trigger] all[i]).id != (
        #[trigger] all[j]).id by {
            let i2 = if i < p { i } else { i - 1 };
            let j2 = if j < p { j } else { j - 1 };
            if i == p {
                assert(all[j] == ranking[j2]);
            } else if j == p {
                assert(all[i] == ranking[i2]);
            } else {
                assert(ranking[i2].id != ranking[j2].id);
            }
        }
    }
}

/// The list with a worker added, or put in place of the one with its
/// identifier.
pub open spec fn upserted(workers: Seq<WorkerView>, w: WorkerView) -> Seq<WorkerView> {
    if on_list(workers, w.id) {
        workers.update(worker_at(workers, w.id), w)
    } else {
        workers.push(w)
    }
}

/// The list without the worker with an identifier.
pub open spec fn without(workers: Seq<WorkerView>, id: Seq<char>) -> Seq<WorkerView> {
    if on_list(workers, id) {
        workers.remove(worker_at(workers, id))
    } else {
        workers
    }
}

/// The list without the workers with some identifiers.
pub open spec fn without_all(workers: Seq<WorkerView>, gone: Set<Seq<char>>) -> Seq<WorkerView>
    decreases workers.len(),
{
    if workers.len() == 0 {
        seq![]
    } else {
        let front = without_all(workers.drop_last(), gone);
        if gone.contains(workers.last().id) {
            front
        } else {
            front.push(workers.last())
        }
    }
}

/// The list with new layers for the worker with an identifier.
pub open spec fn with_layers(
    workers: Seq<WorkerView>,
    id: Seq<char>,
    offset: usize,
    num: usize,
) -> Seq<WorkerView> {
    if on_list(workers, id) {
        let i = worker_at(workers, id);
        workers.update(i, WorkerView { layer_offset: offset, num_layers: num, ..workers[i] })
    } else {
        workers
    }
}

/// The list after a sign of life.
pub open spec fn with_heartbeat(workers: Seq<WorkerView>, hb: HeartbeatView) -> Seq<WorkerView> {
    if on_list(workers, hb.worker_id) {
        let i = worker_at(workers, hb.worker_id);
        workers.update(
            i,
            WorkerView {
                load: hb.load,
                has_gpu: hb.has_gpu,
                vram_gb: hb.vram_gb,
                active: hb.active,
                ..workers[i]
            },
        )
    } else {
        workers
    }
}

/// Whether every worker's layers have an end that can be written down.
pub open spec fn layers_fit(workers: Seq<WorkerView>) -> bool {
    forall|i: int|
        0 <= i < workers.len() ==> (#[trigger] workers[i]).layer_offset + workers[i].num_layers
            <= usize::MAX
}

/// Replacing a worker by one with the same identifier keeps identifiers apart.
pub proof fn lemma_update_unique(workers: Seq<WorkerView>, i: int, w: WorkerView)
    requires
        unique_ids(workers),
        0 <= i < workers.len(),
        workers[i].id == w.id,
    ensures
        unique_ids(workers.update(i, w)),
{
    let after = workers.update(i, w);
    assert forall|a: int, b: int| 0 <= a < b < after.len() implies (#[trigger] after[a]).id != (
    #[trigger] after[b]).id by {
        assert(workers[a].id != workers[b].id);
    }
}

/// Adding or replacing a worker keeps identifiers apart, and puts the worker
/// on the list.
pub proof fn lemma_upserted(workers: Seq<WorkerView>, w: WorkerView)
    requires
        unique_ids(workers),
    ensures
        unique_ids(upserted(workers, w)),
        on_list(upserted(workers, w), w.id),
        upserted(workers, w)[worker_at(upserted(workers, w), w.id)] == w,
        worker_at(upserted(workers, w), w.id) == worker_at(workers, w.id),
{
    lemma_worker_at(workers, w.id);
    let after = upserted(workers, w);
    let i = worker_at(workers, w.id);
    if on_list(workers, w.id) {
        lemma_update_unique(workers, i, w);
    } else {
        assert forall|a: int, b: int| 0 <= a < b < after.len() implies (#[trigger] after[a]).id
            != (#[trigger] after[b]).id by {
            if b < workers.len() {
                assert(workers[a].id != workers[b].id);
            } else {
                assert(workers[a].id != w.id);
            }
        }
    }
    assert(after[i] == w);
    lemma_on_list(after, i);
}

/// Taking workers out keeps the others: a worker is on the new list if and
/// only if it is on the old one and not to go.
pub proof fn lemma_without_all(workers: Seq<WorkerView>, gone: Set<Seq<char>>)
    requires
        unique_ids(workers),
    ensures
        unique_ids(without_all(workers, gone)),
        without_all(workers, gone).len() <= workers.len(),
        forall|w: WorkerView| #[trigger]
            without_all(workers, gone).contains(w) <==> workers.contains(w) && !gone.contains(w.id),
    decreases workers.len(),
{
    if workers.len() > 0 {
        let rest = workers.drop_last();
        let last = workers.last();
        let front = without_all(rest, gone);
        let after = without_all(workers, gone);
        assert forall|a: int, b: int| 0 <= a < b < rest.len() implies (#[trigger] rest[a]).id != (
        #[trigger] rest[b]).id by {
            assert(workers[a].id != workers[b].id);
        }
        lemma_without_all(rest, gone);
        assert forall|w: WorkerView| #[trigger] after.contains(w) <==> workers.contains(w)
            && !gone.contains(w.id) by {
            if after.contains(w) {
                let i = choose|i: int| 0 <= i < after.len() && after[i] == w;
                if i < front.len() {
                    assert(front[i] == w);
                    assert(front.contains(w));
                    let j = choose|j: int| 0 <= j < rest.len() && rest[j] == w;
                    assert(workers[j] == w);
                } else {
                    assert(workers[workers.len() - 1] == w);
                }
            }
            if workers.contains(w) && !gone.contains(w.id) {
                let j = choose|j: int| 0 <= j < workers.len() && workers[j] == w;
                if j < rest.len() {
                    assert(rest[j] == w);
                    assert(rest.contains(w));
                    assert(front.contains(w));
                    let i = choose|i: int| 0 <= i < front.len() && front[i] == w;
                    assert(after[i] == w);
                } else {
                    assert(after[after.len() - 1] == w);
                }
            }
        }
        if !gone.contains(last.id) {
            assert forall|a: int, b: int| 0 <= a < b < after.len() implies (#[trigger] after[a]).id
                != (#[trigger] after[b]).id by {
                if b < front.len() {
                    assert(front[a].id != front[b].id);
                } else {
                    assert(front.contains(front[a]));
                    let j = choose|j: int| 0 <= j < rest.len() && rest[j] == front[a];
                    assert(workers[j].id != workers[workers.len() - 1].id);
                }
            }
        }
    }
}

/// A list stays rankable, and its layers writable, as workers leave.
pub proof fn lemma_fewer_rankable(before: Seq<WorkerView>, after: Seq<WorkerView>)
    requires
        rankable(before),
        layers_fit(before),
        after.len() <= before.len(),
        forall|w: WorkerView| #[trigger] after.contains(w) ==> before.contains(w),
    ensures
        rankable(after),
        layers_fit(after),
{
    assert forall|i: int| 0 <= i < after.len() implies (#[trigger] after[i]).layer_offset
        + after[i].num_layers <= usize::MAX by {
        assert(after.contains(after[i]));
        let j = choose|j: int| 0 <= j < before.len() && before[j] == after[i];
    }
    if after.len() >= 2 {
        assert forall|i: int| 0 <= i < after.len() implies has_score(
            (#[trigger] after[i]).has_gpu,
            after[i].vram_gb,
        ) by {
            assert(after.contains(after[i]));
            let j = choose|j: int| 0 <= j < before.len() && before[j] == after[i];
        }
    }
}

/// Taking one worker out.
pub proof fn lemma_without(workers: Seq<WorkerView>, id: Seq<char>)
    requires
        unique_ids(workers),
    ensures
        unique_ids(without(workers, id)),
        !on_list(without(workers, id), id),
        without(workers, id).len() <= workers.len(),
        forall|w: WorkerView| #[trigger]
            without(workers, id).contains(w) <==> workers.contains(w) && w.id != id,
{
    lemma_worker_at(workers, id);
    let after = without(workers, id);
    let i = worker_at(workers, id);
    if on_list(workers, id) {
        assert forall|a: int, b: int| 0 <= a < b < after.len() implies (#[trigger] after[a]).id
            != (#[trigger] after[b]).id by {
            let a2 = if a < i { a } else { a + 1 };
            let b2 = if b < i { b } else { b + 1 };
            assert(workers[a2].id != workers[b2].id);
        }
        assert forall|w: WorkerView| #[trigger] after.contains(w) <==> workers.contains(w) && w.id
            != id by {
            if after.contains(w) {
                let a = choose|a: int| 0 <= a < after.len() && after[a] == w;
                let a2 = if a < i { a } else { a + 1 };
                assert(workers[a2] == w);
                if a2 < i {
                    assert(workers[a2].id != workers[i].id);
                } else {
                    assert(workers[i].id != workers[a2].id);
                }
            }
            if workers.contains(w) && w.id != id {
                let a = choose|a: int| 0 <= a < workers.len() && workers[a] == w;
                let a2 = if a < i { a } else { a - 1 };
                assert(after[a2] == w);
            }
        }
    } else {
        assert forall|w: WorkerView| #[trigger] after.contains(w) <==> workers.contains(w) && w.id
            != id by {
            if workers.contains(w) {
                let a = choose|a: int| 0 <= a < workers.len() && workers[a] == w;
                assert(workers[a].id != id);
            }
        }
    }
    lemma_worker_at(after, id);
    if on_list(after, id) {
        assert(after.contains(after[worker_at(after, id)]));
    }
}

/// The position of the worker with an identifier, or the number of workers.
pub fn position(workers: &Vec<WorkerInfo>, id: &str) -> (r: usize)
    ensures
        r == worker_at(worker_views(workers@), id@),
        r <= workers@.len(),
{
    let ghost views = worker_views(workers@);
    proof {
        lemma_worker_at(views, id@);
    }
    let n: usize = workers.len();
    for i in 0..n
        invariant
            n == workers@.len(),
            views == worker_views(workers@),
            forall|k: int| 0 <= k < i ==> (#[trigger] views[k]).id != id@,
            0 <= worker_at(views, id@) <= n,
            worker_at(views, id@) < n ==> views[worker_at(views, id@)].id == id@,
            forall|j: int| 0 <= j < worker_at(views, id@) ==> (#[trigger] views[j]).id != id@,
    {
        assert(views[i as int].id == workers@[i as int].id@);
        if same_text(workers[i].id.as_str(), id) {
            return i;
        }
    }
    n
}

/// Whether the workers can be ranked.
pub fn can_rank(workers: &[WorkerInfo]) -> (r: bool)
    ensures
        r == rankable(worker_views(workers@)),
{
    let ghost views = worker_views(workers@);
    if workers.len() < 2 {
        return true;
    }
    for i in 0..workers.len()
        invariant
            views == worker_views(workers@),
            views.len() >= 2,
            forall|k: int|
                0 <= k < i ==> has_score((#[trigger] views[k]).has_gpu, views[k].vram_gb),
    {
        if workers[i].has_gpu && nan(workers[i].vram_gb) {
            assert(!has_score(views[i as int].has_gpu, views[i as int].vram_gb));
            return false;
        }
    }
    true
}

} // verus!
