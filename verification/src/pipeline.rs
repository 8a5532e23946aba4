//! Ranking the workers, dealing out layers, and chaining the workers up.

use vstd::prelude::*;

pub use crate::message::{
    HeartbeatResponse, HopInfo, HubInitiate, HubMessage, InferenceForward, InferenceRequest,
    InferenceResponse, ModelConfig, PipelineInfo, PipelineWorker, WorkerHeartbeat, WorkerInfo,
    PROTOCOL_VERSION,
};
use crate::message::{HopView, PipelineView, PipelineWorkerView, WorkerView};
use crate::score::{has_score, is_nan, lemma_score_monotone, rank, score, score_of};

verus! {

// ---------------------------------------------------------------------------
// The ranking
// ---------------------------------------------------------------------------

/// What the workers of a list hold.
pub open spec fn worker_views(workers: Seq<WorkerInfo>) -> Seq<WorkerView> {
    workers.map_values(|w: WorkerInfo| w@)
}

/// The score by which a worker is ranked.
pub open spec fn worker_score(w: WorkerView) -> int {
    score(w.has_gpu, w.vram_gb)
}

/// Whether the workers can be ranked: each score that is compared with
/// another has to be a number.
pub open spec fn rankable(workers: Seq<WorkerView>) -> bool {
    workers.len() < 2 || forall|i: int|
        0 <= i < workers.len() ==> has_score(
            (#[trigger] workers[i]).has_gpu,
            workers[i].vram_gb,
        )
}

/// Where `w` goes in a ranking: behind every worker that does not score more.
pub open spec fn place(ranking: Seq<WorkerView>, w: WorkerView) -> int
    decreases ranking.len(),
{
    if ranking.len() > 0 && worker_score(w) < worker_score(ranking.last()) {
        place(ranking.drop_last(), w)
    } else {
        ranking.len() as int
    }
}

/// The workers from the lowest score to the highest; equal ones keep their
/// order.
pub open spec fn ranked(workers: Seq<WorkerView>) -> Seq<WorkerView>
    decreases workers.len(),
{
    if workers.len() == 0 {
        seq![]
    } else {
        let ranking = ranked(workers.drop_last());
        ranking.insert(place(ranking, workers.last()), workers.last())
    }
}

/// Whether no worker scores less than one before it.
pub open spec fn in_order(workers: Seq<WorkerView>) -> bool {
    forall|i: int, j: int|
        0 <= i <= j < workers.len() ==> worker_score(#[trigger] workers[i]) <= worker_score(
            #[trigger] workers[j],
        )
}

/// A worker's place has no higher score before it and only higher ones behind.
pub proof fn lemma_place(ranking: Seq<WorkerView>, w: WorkerView)
    ensures
        0 <= place(ranking, w) <= ranking.len(),
        place(ranking, w) > 0 ==> worker_score(ranking[place(ranking, w) - 1]) <= worker_score(w),
        forall|i: int|
            place(ranking, w) <= i < ranking.len() ==> worker_score(w) < worker_score(
                #[trigger] ranking[i],
            ),
    decreases ranking.len(),
{
    if ranking.len() > 0 && worker_score(w) < worker_score(ranking.last()) {
        let rest = ranking.drop_last();
        lemma_place(rest, w);
        assert forall|i: int| place(ranking, w) <= i < ranking.len() implies worker_score(w)
            < worker_score(#[trigger] ranking[i]) by {
            if i < rest.len() {
                assert(rest[i] == ranking[i]);
            }
        }
    }
}

/// The ranking is ordered by score.
pub proof fn lemma_ranked_in_order(workers: Seq<WorkerView>)
    ensures
        in_order(ranked(workers)),
        ranked(workers).len() == workers.len(),
    decreases workers.len(),
{
    if workers.len() > 0 {
        let ranking = ranked(workers.drop_last());
        let w = workers.last();
        let p = place(ranking, w);
        lemma_ranked_in_order(workers.drop_last());
        lemma_place(ranking, w);
        let all = ranking.insert(p, w);
        assert forall|i: int, j: int| 0 <= i <= j < all.len() implies worker_score(
            #[trigger] all[i],
        ) <= worker_score(#[trigger] all[j]) by {
            if i < p && j == p {
                assert(worker_score(ranking[i]) <= worker_score(ranking[p - 1]));
            }
            let i2 = if i < p { i } else { i - 1 };
            let j2 = if j < p { j } else { j - 1 };
            if i != p && j != p {
                assert(worker_score(ranking[i2]) <= worker_score(ranking[j2]));
            }
        }
    }
}

/// The ranking holds the same workers, each as often.
pub proof fn lemma_ranked_same_workers(workers: Seq<WorkerView>)
    ensures
        ranked(workers).to_multiset() == workers.to_multiset(),
    decreases workers.len(),
{
    broadcast use vstd::seq_lib::group_to_multiset_ensures;

    if workers.len() > 0 {
        let rest = workers.drop_last();
        let w = workers.last();
        let ranking = ranked(rest);
        lemma_ranked_same_workers(rest);
        lemma_place(ranking, w);
        assert(workers =~= rest.push(w));
        vstd::seq_lib::to_multiset_insert(ranking, place(ranking, w), w);
    } else {
        assert(ranked(workers) =~= workers);
    }
}

/// Workers with one score stand in the ranking in the order in which they
/// were given.
pub proof fn lemma_ranked_stable(workers: Seq<WorkerView>, value: int)
    ensures
        ranked(workers).filter(|w: WorkerView| worker_score(w) == value) == workers.filter(
            |w: WorkerView| worker_score(w) == value,
        ),
    decreases workers.len(),
{
    let same = |w: WorkerView| worker_score(w) == value;
    if workers.len() > 0 {
        let rest = workers.drop_last();
        let w = workers.last();
        let ranking = ranked(rest);
        let p = place(ranking, w);
        lemma_ranked_stable(rest, value);
        lemma_ranked_in_order(rest);
        lemma_place(ranking, w);
        assert(workers =~= rest.push(w));
        let front = ranking.take(p);
        let back = ranking.skip(p);
        assert(ranking =~= front + back);
        assert(ranking.insert(p, w) =~= front.push(w) + back);
        Seq::filter_distributes_over_add(front, back, same);
        Seq::filter_distributes_over_add(front.push(w), back, same);
        lemma_filter_push(front, same, w);
        lemma_filter_push(rest, same, w);
        if worker_score(w) == value {
            assert forall|i: int| 0 <= i < back.len() implies !same(#[trigger] back[i]) by {
                assert(back[i] == ranking[p + i]);
            }
            lemma_filter_none(back, same);
            assert(front.filter(same).push(w) + back.filter(same) =~= (front.filter(same)
                + back.filter(same)).push(w));
        }
    } else {
        assert(ranked(workers) =~= workers);
    }
}

proof fn lemma_filter_push(s: Seq<WorkerView>, keep: spec_fn(WorkerView) -> bool, w: WorkerView)
    ensures
        s.push(w).filter(keep) == (if keep(w) {
            s.filter(keep).push(w)
        } else {
            s.filter(keep)
        }),
{
    reveal(Seq::filter);
    assert(s.push(w).drop_last() =~= s);
}

proof fn lemma_filter_none(s: Seq<WorkerView>, keep: spec_fn(WorkerView) -> bool)
    requires
        forall|i: int| 0 <= i < s.len() ==> !keep(#[trigger] s[i]),
    ensures
        s.filter(keep) == Seq::<WorkerView>::empty(),
    decreases s.len(),
{
    reveal(Seq::filter);
    if s.len() > 0 {
        let rest = s.drop_last();
        assert forall|i: int| 0 <= i < rest.len() implies !keep(#[trigger] rest[i]) by {
            assert(rest[i] == s[i]);
        }
        lemma_filter_none(rest, keep);
        assert(!keep(s[s.len() - 1]));
    }
}

/// What is in order already is its own ranking.
pub proof fn lemma_ranked_fixed(workers: Seq<WorkerView>)
    requires
        in_order(workers),
    ensures
        ranked(workers) == workers,
    decreases workers.len(),
{
    if workers.len() > 0 {
        let rest = workers.drop_last();
        assert forall|i: int, j: int| 0 <= i <= j < rest.len() implies worker_score(
            #[trigger] rest[i],
        ) <= worker_score(#[trigger] rest[j]) by {
            assert(worker_score(workers[i]) <= worker_score(workers[j]));
        }
        lemma_ranked_fixed(rest);
        if rest.len() > 0 {
            assert(worker_score(workers[workers.len() - 2]) <= worker_score(
                workers[workers.len() - 1],
            ));
        }
        assert(place(rest, workers.last()) == rest.len());
    }
    assert(ranked(workers) =~= workers);
}

/// Ranking a ranking changes nothing.
pub proof fn lemma_ranked_idempotent(workers: Seq<WorkerView>)
    ensures
        ranked(ranked(workers)) == ranked(workers),
{
    lemma_ranked_in_order(workers);
    lemma_ranked_fixed(ranked(workers));
}

/// What is done to each worker without a change of its score can be done
/// before the ranking or after it.
pub proof fn lemma_ranked_map(
    workers: Seq<WorkerView>,
    change: spec_fn(WorkerView) -> WorkerView,
)
    requires
        forall|w: WorkerView| worker_score(#[trigger] change(w)) == worker_score(w),
    ensures
        ranked(workers.map_values(change)) == ranked(workers).map_values(change),
    decreases workers.len(),
{
    let changed = workers.map_values(change);
    if workers.len() > 0 {
        let rest = workers.drop_last();
        let w = workers.last();
        let ranking = ranked(rest);
        lemma_ranked_map(rest, change);
        assert(changed.drop_last() =~= rest.map_values(change));
        assert(changed.last() == change(w));
        lemma_place(ranking, w);
        lemma_place_map(ranking, w, change);
        let p = place(ranking, w);
        assert(ranking.insert(p, w).map_values(change) =~= ranking.map_values(change).insert(
            p,
            change(w),
        ));
    } else {
        assert(changed =~= workers);
        assert(ranked(changed) =~= ranked(workers).map_values(change));
    }
}

proof fn lemma_place_map(
    ranking: Seq<WorkerView>,
    w: WorkerView,
    change: spec_fn(WorkerView) -> WorkerView,
)
    requires
        forall|x: WorkerView| worker_score(#[trigger] change(x)) == worker_score(x),
    ensures
        place(ranking.map_values(change), change(w)) == place(ranking, w),
    decreases ranking.len(),
{
    let changed = ranking.map_values(change);
    if ranking.len() > 0 {
        assert(changed.last() == change(ranking.last()));
        assert(changed.drop_last() =~= ranking.drop_last().map_values(change));
        lemma_place_map(ranking.drop_last(), w, change);
    }
}

/// The workers at the given positions.
pub open spec fn pick(workers: Seq<WorkerView>, order: Seq<usize>) -> Seq<WorkerView> {
    order.map_values(|i: usize| workers[i as int])
}

/// The positions of the workers in the order of the ranking.
pub fn rank_order(workers: &[WorkerInfo]) -> (r: Vec<usize>)
    requires
        rankable(worker_views(workers@)),
    ensures
        r@.len() == workers@.len(),
        forall|i: int| 0 <= i < r@.len() ==> #[trigger] r@[i] < workers@.len(),
        pick(worker_views(workers@), r@) == ranked(worker_views(workers@)),
{
    let ghost views = worker_views(workers@);
    let mut order: Vec<usize> = Vec::new();
    let mut scores: Vec<i64> = Vec::new();
    assert(views.take(0) =~= Seq::empty());
    assert(pick(views, order@) =~= ranked(views.take(0)));
    for n in 0..workers.len()
        invariant
            views == worker_views(workers@),
            scores@.len() == n,
            order@.len() == n,
            forall|i: int| 0 <= i < n ==> #[trigger] scores@[i] == worker_score(views[i]),
            forall|i: int| 0 <= i < n ==> #[trigger] order@[i] < n,
            pick(views, order@) == ranked(views.take(n as int)),
    {
        let value = score_of(workers[n].has_gpu, workers[n].vram_gb);
        scores.push(value);
        let ghost ranking = pick(views, order@);
        let ghost w = views[n as int];
        let mut at: usize = order.len();
        assert(ranking.take(at as int) =~= ranking);
        while at > 0 && value < scores[order[at - 1]]
            invariant
                views == worker_views(workers@),
                n < workers@.len(),
                scores@.len() == n + 1,
                at <= order@.len(),
                order@.len() == n,
                value == worker_score(w),
                w == views[n as int],
                forall|i: int| 0 <= i < n ==> #[trigger] scores@[i] == worker_score(views[i]),
                forall|i: int| 0 <= i < n ==> #[trigger] order@[i] < n,
                ranking == pick(views, order@),
                place(ranking.take(at as int), w) == place(ranking, w),
            decreases at,
        {
            assert(ranking.take(at as int).drop_last() =~= ranking.take(at - 1));
            assert(ranking.take(at as int).last() == views[order@[at - 1] as int]);
            at = at - 1;
        }
        proof {
            if at > 0 {
                assert(ranking.take(at as int).last() == views[order@[at - 1] as int]);
            }
            assert(place(ranking, w) == at);
            assert(views.take(n + 1).drop_last() =~= views.take(n as int));
        }
        let ghost before = order@;
        order.insert(at, n);
        assert(pick(views, order@) =~= ranking.insert(at as int, w));
        assert forall|i: int| 0 <= i < n + 1 implies #[trigger] order@[i] < n + 1 by {
            if i < at {
                assert(order@[i] == before[i]);
            } else if i > at {
                assert(order@[i] == before[i - 1]);
            }
        }
    }
    assert(views.take(workers@.len() as int) =~= views);
    order
}

// ---------------------------------------------------------------------------
// Layers
// ---------------------------------------------------------------------------

/// How many of `total` layers the `i`-th of `n` workers gets.
pub open spec fn share(i: int, total: int, n: int) -> int {
    total / n + (if i < total % n {
        1int
    } else {
        0int
    })
}

/// The first layer of the `i`-th of `n` workers.
pub open spec fn first_layer(i: int, total: int, n: int) -> int {
    i * (total / n) + (if i < total % n {
        i
    } else {
        total % n
    })
}

/// Who gets which layers: identifier, first layer, number of layers, in the
/// order of the ranking.
pub open spec fn assignments(workers: Seq<WorkerView>, total: int) -> Seq<(Seq<char>, int, int)> {
    let n = workers.len() as int;
    Seq::new(
        workers.len(),
        |i: int| (ranked(workers)[i].id, first_layer(i, total, n), share(i, total, n)),
    )
}

/// The workers' layers follow each other without a gap or an overlap, from
/// the first layer to the last, and no two shares differ by more than one.
pub proof fn lemma_layers_partitioned(total: int, n: int)
    requires
        n > 0,
        total >= 0,
    ensures
        first_layer(0, total, n) == 0,
        first_layer(n, total, n) == total,
        forall|i: int|
            0 <= i < n ==> #[trigger] first_layer(i, total, n) + share(i, total, n) == first_layer(
                i + 1,
                total,
                n,
            ),
        forall|i: int, j: int|
            0 <= i <= j < n ==> 0 <= #[trigger] share(j, total, n) <= #[trigger] share(i, total, n)
                <= share(j, total, n) + 1,
{
    let base = total / n;
    let extra = total % n;
    assert(total == base * n + extra && 0 <= extra < n && base >= 0) by (nonlinear_arith)
        requires
            n > 0,
            total >= 0,
            base == total / n,
            extra == total % n,
    ;
    assert(n * base == base * n) by (nonlinear_arith);
    assert(0 * base == 0);
    assert forall|i: int| 0 <= i < n implies #[trigger] first_layer(i, total, n) + share(
        i,
        total,
        n,
    ) == first_layer(i + 1, total, n) by {
        assert((i + 1) * base == i * base + base) by (nonlinear_arith);
    }
}

/// No worker's layers go past the end.
pub proof fn lemma_layers_bounded(i: int, total: int, n: int)
    requires
        0 <= i <= n,
        n > 0,
        total >= 0,
    ensures
        0 <= first_layer(i, total, n) <= total,
    decreases n - i,
{
    lemma_layers_partitioned(total, n);
    if i < n {
        lemma_layers_bounded(i + 1, total, n);
        assert(share(i, total, n) >= 0);
        assert(first_layer(i, total, n) + share(i, total, n) == first_layer(i + 1, total, n));
        assert(0 <= i * (total / n)) by (nonlinear_arith)
            requires
                0 <= i,
                n > 0,
                total >= 0,
        ;
        assert(0 <= total % n) by (nonlinear_arith)
            requires
                n > 0,
        ;
    }
}

/// An assignment as a value of the contracts.
pub open spec fn assignment_view(a: (String, usize, usize)) -> (Seq<char>, int, int) {
    (a.0@, a.1 as int, a.2 as int)
}

/// Deals out `total_layers` layers: as evenly as possible, the lowest score
/// first, one more to the first ones where there is a rest.
pub fn calculate_layer_assignment(workers: &[WorkerInfo], total_layers: usize) -> (r: Vec<
    (String, usize, usize),
>)
    requires
        workers@.len() > 0,
        rankable(worker_views(workers@)),
    ensures
        r@.map_values(|a: (String, usize, usize)| assignment_view(a)) == assignments(
            worker_views(workers@),
            total_layers as int,
        ),
{
    let order = rank_order(workers);
    let n: usize = workers.len();
    let base: usize = total_layers / n;
    let remainder: usize = total_layers % n;
    let ghost views = worker_views(workers@);
    let ghost total = total_layers as int;
    let ghost wanted = assignments(views, total);
    let mut out: Vec<(String, usize, usize)> = Vec::new();
    let mut offset: usize = 0;
    proof {
        lemma_ranked_in_order(views);
        lemma_layers_partitioned(total, n as int);
    }
    for i in 0..n
        invariant
            n == workers@.len(),
            n > 0,
            views == worker_views(workers@),
            order@.len() == n,
            forall|k: int| 0 <= k < order@.len() ==> #[trigger] order@[k] < workers@.len(),
            pick(views, order@) == ranked(views),
            wanted == assignments(views, total),
            total == total_layers,
            base == total / n as int,
            remainder == total % n as int,
            offset == first_layer(i as int, total, n as int),
            out@.len() == i,
            forall|k: int| 0 <= k < i ==> assignment_view(#[trigger] out@[k]) == wanted[k],
    {
        proof {
            lemma_layers_partitioned(total, n as int);
            lemma_layers_bounded(i + 1, total, n as int);
            assert(first_layer(i as int, total, n as int) + share(i as int, total, n as int)
                == first_layer(i + 1, total, n as int));
            lemma_layers_bounded(i as int, total, n as int);
        }
        let extra: usize = if i < remainder {
            1
        } else {
            0
        };
        let num: usize = base + extra;
        let worker = &workers[order[i]];
        assert(worker@ == pick(views, order@)[i as int]);
        out.push((worker.id.clone(), offset, num));
        offset = offset + num;
    }
    assert(out@.map_values(|a: (String, usize, usize)| assignment_view(a)) =~= wanted);
    out
}

// ---------------------------------------------------------------------------
// The pipeline
// ---------------------------------------------------------------------------

/// Where a worker is reached.
pub open spec fn hop_to(w: WorkerView) -> HopView {
    HopView { worker_id: w.id, host: w.wg_ip, port: w.rpc_port }
}

/// The `i`-th worker of a ranking, with its neighbours.
pub open spec fn pipeline_worker(ranking: Seq<WorkerView>, i: int) -> PipelineWorkerView {
    PipelineWorkerView {
        worker_id: ranking[i].id,
        layer_offset: ranking[i].layer_offset,
        num_layers: ranking[i].num_layers,
        last_hop: if i > 0 {
            Some(hop_to(ranking[i - 1]))
        } else {
            None
        },
        next_hop: if i < ranking.len() - 1 {
            Some(hop_to(ranking[i + 1]))
        } else {
            None
        },
        is_first: i == 0,
        is_last: i == ranking.len() - 1,
    }
}

/// The pipeline of the given workers.
pub open spec fn pipeline_of(
    workers: Seq<WorkerView>,
    model_name: Seq<char>,
    model_url: Seq<char>,
    num_layers: usize,
) -> PipelineView {
    PipelineView {
        pipeline_id: "main"@,
        workers: Seq::new(workers.len(), |i: int| pipeline_worker(ranked(workers), i)),
        model_name,
        model_url,
        num_layers,
    }
}

/// Neighbours in a pipeline name each other, the first worker has none before
/// it and the last none behind it.
pub proof fn lemma_pipeline_linked(
    workers: Seq<WorkerView>,
    model_name: Seq<char>,
    model_url: Seq<char>,
    num_layers: usize,
)
    ensures
        ({
            let chain = pipeline_of(workers, model_name, model_url, num_layers).workers;
            &&& chain.len() == workers.len()
            &&& forall|i: int|
                0 <= i < chain.len() ==> {
                    &&& (#[trigger] chain[i]).is_first == (i == 0)
                    &&& chain[i].is_last == (i == chain.len() - 1)
                    &&& chain[i].last_hop is None == chain[i].is_first
                    &&& chain[i].next_hop is None == chain[i].is_last
                    &&& chain[i].next_hop matches Some(hop) ==> hop.worker_id == chain[i
                        + 1].worker_id
                    &&& chain[i].last_hop matches Some(hop) ==> hop.worker_id == chain[i
                        - 1].worker_id
                }
        }),
{
    lemma_ranked_in_order(workers);
}

/// Where a worker is reached.
fn hop_of(w: &WorkerInfo) -> (r: HopInfo)
    ensures
        r@ == hop_to(w@),
{
    HopInfo { worker_id: w.id.clone(), host: w.wg_ip.clone(), port: w.rpc_port }
}

/// Chains the workers up, from the lowest score to the highest.
pub fn build_pipeline_info(
    workers: &[WorkerInfo],
    model_name: &str,
    model_url: &str,
    num_layers: usize,
) -> (r: PipelineInfo)
    requires
        rankable(worker_views(workers@)),
    ensures
        r@ == pipeline_of(worker_views(workers@), model_name@, model_url@, num_layers),
{
    let order = rank_order(workers);
    let ghost views = worker_views(workers@);
    let ghost ranking = ranked(views);
    let n: usize = order.len();
    let mut chain: Vec<PipelineWorker> = Vec::new();
    for i in 0..n
        invariant
            n == workers@.len(),
            order@.len() == n,
            views == worker_views(workers@),
            forall|k: int| 0 <= k < order@.len() ==> #[trigger] order@[k] < workers@.len(),
            ranking == pick(views, order@),
            chain@.len() == i,
            forall|k: int| 0 <= k < i ==> #[trigger] chain@[k]@ == pipeline_worker(ranking, k),
    {
        let w = &workers[order[i]];
        assert(w@ == ranking[i as int]);
        let last_hop = if i > 0 {
            let prev = &workers[order[i - 1]];
            assert(prev@ == ranking[i - 1]);
            Some(hop_of(prev))
        } else {
            None
        };
        let next_hop = if i < n - 1 {
            let next = &workers[order[i + 1]];
            assert(next@ == ranking[i + 1]);
            Some(hop_of(next))
        } else {
            None
        };
        let entry = PipelineWorker {
            worker_id: w.id.clone(),
            layer_offset: w.layer_offset,
            num_layers: w.num_layers,
            last_hop,
            next_hop,
            is_first: i == 0,
            is_last: i == n - 1,
        };
        assert(entry@ == pipeline_worker(ranking, i as int));
        chain.push(entry);
    }
    let info = PipelineInfo {
        pipeline_id: "main".to_string(),
        workers: chain,
        model_name: model_name.to_string(),
        model_url: model_url.to_string(),
        num_layers,
    };
    assert(info@.workers =~= pipeline_of(views, model_name@, model_url@, num_layers).workers);
    info
}

// ---------------------------------------------------------------------------
// What the results have to do with the workers
// ---------------------------------------------------------------------------

/// How many layers the workers before the `i`-th of `n` get together.
pub open spec fn shares_before(i: int, total: int, n: int) -> int
    decreases i,
{
    if i <= 0 {
        0
    } else {
        shares_before(i - 1, total, n) + share(i - 1, total, n)
    }
}

/// A place's layers end where those of the next begin.
pub proof fn lemma_layer_step(i: int, total: int, n: int)
    requires
        0 <= i < n,
        total >= 0,
    ensures
        first_layer(i, total, n) + share(i, total, n) == first_layer(i + 1, total, n),
        share(i, total, n) >= 0,
{
    let base = total / n;
    assert((i + 1) * base == i * base + base) by (nonlinear_arith);
    assert(total / n >= 0) by (nonlinear_arith)
        requires
            n > 0,
            total >= 0,
    ;
}

/// A worker's layers begin where those of the workers before it end.
pub proof fn lemma_shares_before(i: int, total: int, n: int)
    requires
        0 <= i <= n,
        n > 0,
        total >= 0,
    ensures
        first_layer(i, total, n) == shares_before(i, total, n),
    decreases i,
{
    if i > 0 {
        lemma_shares_before(i - 1, total, n);
        lemma_layer_step(i - 1, total, n);
    } else {
        assert(0 <= total % n) by (nonlinear_arith)
            requires
                n > 0,
        ;
        assert(0 * (total / n) == 0) by (nonlinear_arith);
    }
}

/// No layer falls to two places.
pub proof fn lemma_layers_disjoint(p: int, q: int, total: int, n: int)
    requires
        0 <= p < q < n,
        total >= 0,
    ensures
        first_layer(p, total, n) + share(p, total, n) <= first_layer(q, total, n),
    decreases q - p,
{
    lemma_layer_step(p, total, n);
    if p + 1 < q {
        lemma_layers_disjoint(p + 1, q, total, n);
        lemma_layer_step(p + 1, total, n);
    }
}

/// The assignments name the workers from the lowest score to the highest, and
/// give them layers that follow each other from the first to the last, as
/// evenly as can be, with what is left over to those that come first.
pub proof fn lemma_assignments(workers: Seq<WorkerView>, total: int)
    requires
        workers.len() > 0,
        total >= 0,
    ensures
        ({
            let list = assignments(workers, total);
            let n = workers.len() as int;
            &&& list.len() == n
            &&& forall|i: int| 0 <= i < n ==> (#[trigger] list[i]).0 == ranked(workers)[i].id
            &&& list[0].1 == 0
            &&& forall|i: int|
                0 <= i < n - 1 ==> (#[trigger] list[i]).1 + list[i].2 == list[i + 1].1
            &&& list[n - 1].1 + list[n - 1].2 == total
            &&& forall|i: int, j: int|
                0 <= i <= j < n ==> 0 <= (#[trigger] list[j]).2 <= (#[trigger] list[i]).2 <= list[j].2
                    + 1
        }),
{
    let list = assignments(workers, total);
    let n = workers.len() as int;
    assert(first_layer(0, total, n) == 0 && first_layer(n, total, n) == total) by {
        lemma_layers_partitioned(total, n);
    }
    assert forall|i: int| 0 <= i < n - 1 implies (#[trigger] list[i]).1 + list[i].2 == list[i
        + 1].1 by {
        lemma_layer_step(i, total, n);
    }
    lemma_layer_step(n - 1, total, n);
    assert forall|i: int, j: int| 0 <= i <= j < n implies 0 <= (#[trigger] list[j]).2 <= (
    #[trigger] list[i]).2 <= list[j].2 + 1 by {
        lemma_layer_step(j, total, n);
    }
}

/// A ranking holds the given workers and no others.
pub proof fn lemma_ranked_contains(workers: Seq<WorkerView>, w: WorkerView)
    ensures
        ranked(workers).contains(w) <==> workers.contains(w),
{
    broadcast use vstd::seq_lib::group_to_multiset_ensures;

    lemma_ranked_same_workers(workers);
    let a = ranked(workers);
    assert(a.contains(w) <==> a.to_multiset().count(w) > 0);
    assert(workers.contains(w) <==> workers.to_multiset().count(w) > 0);
}

/// Each entry of a pipeline is one of the given workers, in the order of the
/// ranking, with that worker's layers; its hops have the identifier, the host
/// and the port of the workers right behind and right before it.
pub proof fn lemma_pipeline_entries(
    workers: Seq<WorkerView>,
    model_name: Seq<char>,
    model_url: Seq<char>,
    num_layers: usize,
    i: int,
)
    requires
        0 <= i < workers.len(),
    ensures
        ({
            let info = pipeline_of(workers, model_name, model_url, num_layers);
            let chain = info.workers;
            let own = ranked(workers)[i];
            let next = ranked(workers)[i + 1];
            let prev = ranked(workers)[i - 1];
            &&& info.model_name == model_name
            &&& info.model_url == model_url
            &&& info.num_layers == num_layers
            &&& chain.len() == workers.len()
            &&& workers.contains(own)
            &&& chain[i].worker_id == own.id
            &&& chain[i].layer_offset == own.layer_offset
            &&& chain[i].num_layers == own.num_layers
            &&& i + 1 < chain.len() ==> {
                &&& workers.contains(next)
                &&& chain[i + 1].worker_id == next.id
                &&& chain[i].next_hop is Some
                &&& chain[i].next_hop->0.worker_id == next.id
                &&& chain[i].next_hop->0.host == next.wg_ip
                &&& chain[i].next_hop->0.port == next.rpc_port
            }
            &&& i + 1 == chain.len() ==> chain[i].next_hop is None
            &&& i > 0 ==> {
                &&& workers.contains(prev)
                &&& chain[i - 1].worker_id == prev.id
                &&& chain[i].last_hop is Some
                &&& chain[i].last_hop->0.worker_id == prev.id
                &&& chain[i].last_hop->0.host == prev.wg_ip
                &&& chain[i].last_hop->0.port == prev.rpc_port
            }
            &&& i == 0 ==> chain[i].last_hop is None
            &&& chain[i].is_first == (i == 0)
            &&& chain[i].is_last == (i + 1 == chain.len())
        }),
{
    let ranking = ranked(workers);
    lemma_ranked_in_order(workers);
    lemma_ranked_contains(workers, ranking[i]);
    assert(ranking.contains(ranking[i]));
    if i + 1 < workers.len() {
        lemma_ranked_contains(workers, ranking[i + 1]);
        assert(ranking.contains(ranking[i + 1]));
    }
    if i > 0 {
        lemma_ranked_contains(workers, ranking[i - 1]);
        assert(ranking.contains(ranking[i - 1]));
    }
}

/// A pipeline goes from the lowest score to the highest: of two entries, the
/// worker of the first never scores more.
pub proof fn lemma_pipeline_in_order(
    workers: Seq<WorkerView>,
    model_name: Seq<char>,
    model_url: Seq<char>,
    num_layers: usize,
    a: WorkerView,
    b: WorkerView,
)
    requires
        workers.contains(a),
        workers.contains(b),
        worker_score(a) < worker_score(b),
    ensures
        exists|i: int, j: int|
            0 <= i < j < workers.len() && (#[trigger] pipeline_of(
                workers,
                model_name,
                model_url,
                num_layers,
            ).workers[i]).worker_id == a.id && (#[trigger] pipeline_of(
                workers,
                model_name,
                model_url,
                num_layers,
            ).workers[j]).worker_id == b.id,
{
    let ranking = ranked(workers);
    let chain = pipeline_of(workers, model_name, model_url, num_layers).workers;
    lemma_ranked_in_order(workers);
    lemma_ranked_contains(workers, a);
    lemma_ranked_contains(workers, b);
    let i = choose|i: int| 0 <= i < ranking.len() && ranking[i] == a;
    let j = choose|j: int| 0 <= j < ranking.len() && ranking[j] == b;
    if j <= i {
        assert(worker_score(ranking[j]) <= worker_score(ranking[i]));
    }
    assert(chain[i].worker_id == a.id && chain[j].worker_id == b.id);
}

/// Workers cannot be ranked if and only if there are two or more and one of
/// them has a GPU whose VRAM is not a number.
pub proof fn lemma_rankable(workers: Seq<WorkerView>)
    ensures
        !rankable(workers) <==> workers.len() >= 2 && exists|i: int|
            0 <= i < workers.len() && (#[trigger] workers[i]).has_gpu && is_nan(
                workers[i].vram_gb,
            ),
{
    if !rankable(workers) {
        let i = choose|i: int|
            0 <= i < workers.len() && !has_score(
                (#[trigger] workers[i]).has_gpu,
                workers[i].vram_gb,
            );
        assert(workers[i].has_gpu);
    }
    if workers.len() >= 2 && exists|i: int|
        0 <= i < workers.len() && (#[trigger] workers[i]).has_gpu && is_nan(workers[i].vram_gb) {
        let i = choose|i: int|
            0 <= i < workers.len() && (#[trigger] workers[i]).has_gpu && is_nan(
                workers[i].vram_gb,
            );
        assert(!has_score(workers[i].has_gpu, workers[i].vram_gb));
    }
}

/// A worker is ranked by its GPU and its VRAM alone: whatever else differs,
/// workers alike in both score the same, workers without a GPU all score the
/// same, and of two with a GPU the one with more VRAM never scores less.
pub proof fn lemma_worker_score(a: WorkerView, b: WorkerView)
    ensures
        a.has_gpu == b.has_gpu && a.vram_gb == b.vram_gb ==> worker_score(a) == worker_score(b),
        !a.has_gpu && !b.has_gpu ==> worker_score(a) == worker_score(b),
        a.has_gpu && b.has_gpu && !is_nan(a.vram_gb) && !is_nan(b.vram_gb) && rank(a.vram_gb)
            <= rank(b.vram_gb) ==> worker_score(a) <= worker_score(b),
{
    if a.has_gpu && b.has_gpu && !is_nan(a.vram_gb) && !is_nan(b.vram_gb) && rank(a.vram_gb)
        <= rank(b.vram_gb) {
        lemma_score_monotone(a.vram_gb, b.vram_gb);
    }
}

} // verus!
