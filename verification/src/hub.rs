//! What the hub remembers, and what each event does to it.

use vstd::prelude::*;

use crate::idmap::IdMap;
use crate::message::{
    opt_text, HeartbeatResponse, HeartbeatResponseView, HeartbeatView, HubMessage,
    InferenceForward, InferenceResponse, ModelConfig, ModelView, PipelineInfo, PipelineView,
    PipelineWorker, PipelineWorkerView, WorkerHeartbeat, WorkerInfo, WorkerView,
};
use crate::pipeline::{
    assignment_view, assignments, build_pipeline_info, calculate_layer_assignment, first_layer,
    lemma_layers_bounded, lemma_layers_partitioned, lemma_ranked_in_order, lemma_ranked_map, pipeline_of,
    rankable, ranked, share, worker_views,
};
use crate::roster::{
    can_rank, layers_fit, lemma_fewer_rankable, lemma_on_list, lemma_ranked_unique, lemma_update_unique, lemma_upserted,
    lemma_without, lemma_without_all, lemma_worker_at, on_list, position, unique_ids, upserted,
    with_heartbeat, with_layers, without, without_all, worker_at,
};
use crate::score::has_score;
use crate::text::{joined, same_text, texts};

verus! {

/// How many heartbeats in a row a worker misses until it is removed: the miss
/// that makes it this many removes it.
pub const MISSES_TO_REMOVE: u32 = 4;

/// Where workers download the model, through the hub.
pub open spec fn proxy_url(address: Seq<char>) -> Seq<char> {
    "http://"@ + address + "/model/download"@
}

/// Where workers download the model, through the hub.
pub fn model_proxy_url(hub_vpn_addr: &str) -> (r: String)
    ensures
        r@ == proxy_url(hub_vpn_addr@),
{
    let mut url = joined("http://", hub_vpn_addr);
    url.append("/model/download");
    url
}

/// The hub's memory. Connections are known by number; the program around the
/// library holds what the numbers stand for.
pub struct Hub {
    model: ModelConfig,
    model_alias: String,
    model_url: String,
    model_hash: String,
    address: String,
    workers: Vec<WorkerInfo>,
    streams: IdMap<u64>,
    missed: IdMap<u32>,
    responded: IdMap<bool>,
    pending: IdMap<u64>,
}

/// What a [`Hub`] holds.
#[verifier::ext_equal]
pub struct HubView {
    /// The model that is served.
    pub model: ModelView,
    /// The name under which clients are told of it.
    pub model_alias: Seq<char>,
    /// Where the hub itself gets the model.
    pub model_url: Seq<char>,
    /// The fingerprint of the model, once it was downloaded.
    pub model_hash: Seq<char>,
    /// The hub's own address in the tunnel.
    pub address: Seq<char>,
    /// The registered workers.
    pub workers: Seq<WorkerView>,
    /// The connection of each worker that has one.
    pub streams: Map<Seq<char>, u64>,
    /// How many heartbeats each worker has missed in a row.
    pub missed: Map<Seq<char>, u32>,
    /// Who was asked for a heartbeat in this round, and whether one came.
    pub responded: Map<Seq<char>, bool>,
    /// The prompts that wait for an answer, and who waits.
    pub pending: Map<Seq<char>, u64>,
}

impl HubView {
    /// What always holds of the hub's memory.
    pub open spec fn inv(self) -> bool {
        &&& unique_ids(self.workers)
        &&& rankable(self.workers)
        &&& layers_fit(self.workers)
        &&& forall|k: Seq<char>| #[trigger]
            self.missed.dom().contains(k) ==> self.missed[k] < MISSES_TO_REMOVE
    }

    /// The pipeline that workers are told of.
    pub open spec fn pipeline(self) -> PipelineView {
        pipeline_of(self.workers, self.model.name, proxy_url(self.address), self.model.num_layers)
    }

    /// How many heartbeats a worker has missed in a row.
    pub open spec fn misses(self, id: Seq<char>) -> int {
        if self.missed.dom().contains(id) {
            self.missed[id] as int
        } else {
            0
        }
    }
}

impl View for Hub {
    type V = HubView;

    closed spec fn view(&self) -> HubView {
        HubView {
            model: self.model@,
            model_alias: self.model_alias@,
            model_url: self.model_url@,
            model_hash: self.model_hash@,
            address: self.address@,
            workers: worker_views(self.workers@),
            streams: self.streams@,
            missed: self.missed@,
            responded: self.responded@,
            pending: self.pending@,
        }
    }
}

// ---------------------------------------------------------------------------
// A worker registers
// ---------------------------------------------------------------------------

/// The layers that fall to a worker among others: first layer and number.
pub open spec fn layers_for(workers: Seq<WorkerView>, total: int, id: Seq<char>) -> (usize, usize) {
    let p = worker_at(ranked(workers), id);
    let n = workers.len() as int;
    if p < workers.len() {
        (first_layer(p, total, n) as usize, share(p, total, n) as usize)
    } else {
        (0, 0)
    }
}

/// The memory after a worker registered over a connection.
pub open spec fn registered(h: HubView, conn: u64, info: WorkerView) -> HubView {
    let workers = upserted(h.workers, info);
    let layers = layers_for(workers, h.model.num_layers as int, info.id);
    HubView {
        workers: with_layers(workers, info.id, layers.0, layers.1),
        streams: h.streams.insert(info.id, conn),
        missed: h.missed.insert(info.id, 0),
        ..h
    }
}

/// The answer to a registration, from the memory before and after it.
pub open spec fn registration_answer(
    h: HubView,
    conn: u64,
    info: WorkerView,
) -> HeartbeatResponseView {
    let after = registered(h, conn, info);
    let layers = layers_for(
        upserted(h.workers, info),
        h.model.num_layers as int,
        info.id,
    );
    HeartbeatResponseView {
        layer_offset: layers.0,
        num_layers: layers.1,
        reassign: false,
        model_name: h.model.name,
        model_url: proxy_url(h.address),
        model_hash: h.model_hash,
        pipeline: Some(after.pipeline()),
    }
}

/// The position of a worker in a chain, or the length of the chain.
pub open spec fn chain_at(chain: Seq<PipelineWorkerView>, id: Seq<char>) -> int
    decreases chain.len(),
{
    if chain.len() == 0 || chain[0].worker_id == id {
        0
    } else {
        1 + chain_at(chain.drop_first(), id)
    }
}

/// What another worker is told when the pipeline has changed.
pub open spec fn update_for(h: HubView, id: Seq<char>) -> HeartbeatResponseView {
    let chain = h.pipeline().workers;
    let p = chain_at(chain, id);
    HeartbeatResponseView {
        layer_offset: if p < chain.len() {
            chain[p].layer_offset
        } else {
            0
        },
        num_layers: if p < chain.len() {
            chain[p].num_layers
        } else {
            0
        },
        reassign: false,
        model_name: h.model.name,
        model_url: proxy_url(h.address),
        model_hash: seq![],
        pipeline: Some(h.pipeline()),
    }
}

/// A message for a worker.
pub struct Notice {
    /// The worker.
    pub worker_id: String,
    /// Its connection.
    pub conn: u64,
    /// The message.
    pub message: HeartbeatResponse,
}

/// The workers that notices go to.
pub open spec fn recipients(notices: Seq<Notice>) -> Seq<Seq<char>> {
    notices.map_values(|n: Notice| n.worker_id@)
}

/// Whether the notices are the updates that go out when a worker registers:
/// one to each other connected worker.
pub open spec fn updates_except(h: HubView, id: Seq<char>, notices: Seq<Notice>) -> bool {
    &&& recipients(notices).no_duplicates()
    &&& forall|k: Seq<char>| #[trigger]
        recipients(notices).contains(k) <==> h.streams.dom().contains(k) && k != id
    &&& forall|i: int|
        0 <= i < notices.len() ==> (#[trigger] notices[i]).conn == h.streams[notices[i].worker_id@]
            && notices[i].message@ == update_for(h, notices[i].worker_id@)
}

/// The first entry for a worker is where `chain_at` says.
pub proof fn lemma_chain_at(chain: Seq<PipelineWorkerView>, id: Seq<char>)
    ensures
        0 <= chain_at(chain, id) <= chain.len(),
        chain_at(chain, id) < chain.len() ==> chain[chain_at(chain, id)].worker_id == id,
        forall|j: int| 0 <= j < chain_at(chain, id) ==> (#[trigger] chain[j]).worker_id != id,
    decreases chain.len(),
{
    if chain.len() > 0 && chain[0].worker_id != id {
        let rest = chain.drop_first();
        lemma_chain_at(rest, id);
        assert forall|j: int| 0 <= j < chain_at(chain, id) implies (#[trigger] chain[j]).worker_id
            != id by {
            if j > 0 {
                assert(rest[j - 1] == chain[j]);
            }
        }
    }
}

fn chain_position(chain: &Vec<PipelineWorker>, id: &str) -> (r: usize)
    ensures
        r == chain_at(chain@.map_values(|x: PipelineWorker| x@), id@),
        r <= chain@.len(),
{
    let ghost views = chain@.map_values(|x: PipelineWorker| x@);
    proof {
        lemma_chain_at(views, id@);
    }
    let n: usize = chain.len();
    for i in 0..n
        invariant
            n == chain@.len(),
            views == chain@.map_values(|x: PipelineWorker| x@),
            forall|k: int| 0 <= k < i ==> (#[trigger] views[k]).worker_id != id@,
            0 <= chain_at(views, id@) <= n,
            chain_at(views, id@) < n ==> views[chain_at(views, id@)].worker_id == id@,
            forall|j: int| 0 <= j < chain_at(views, id@) ==> (#[trigger] views[j]).worker_id != id@,
    {
        assert(views[i as int].worker_id == chain@[i as int].worker_id@);
        if same_text(chain[i].worker_id.as_str(), id) {
            return i;
        }
    }
    n
}

/// Changing a worker's layers keeps what always holds.
proof fn lemma_with_layers(workers: Seq<WorkerView>, id: Seq<char>, offset: usize, num: usize)
    requires
        unique_ids(workers),
        rankable(workers),
        on_list(workers, id),
        offset + num <= usize::MAX,
        forall|i: int|
            0 <= i < workers.len() && (#[trigger] workers[i]).id != id ==> workers[i].layer_offset
                + workers[i].num_layers <= usize::MAX,
    ensures
        unique_ids(with_layers(workers, id, offset, num)),
        rankable(with_layers(workers, id, offset, num)),
        layers_fit(with_layers(workers, id, offset, num)),
{
    lemma_worker_at(workers, id);
    let i = worker_at(workers, id);
    let after = with_layers(workers, id, offset, num);
    lemma_update_unique(workers, i, after[i]);
    assert forall|j: int| 0 <= j < after.len() implies (#[trigger] after[j]).layer_offset
        + after[j].num_layers <= usize::MAX by {
        if j < i {
            assert(workers[j].id != workers[i].id);
        } else if j > i {
            assert(workers[i].id != workers[j].id);
        }
    }
    if after.len() >= 2 {
        assert forall|j: int| 0 <= j < after.len() implies has_score(
            (#[trigger] after[j]).has_gpu,
            after[j].vram_gb,
        ) by {
            assert(has_score(workers[j].has_gpu, workers[j].vram_gb));
        }
    }
}

impl Hub {
    /// Whether the memory is as it should be.
    pub closed spec fn wf(self) -> bool {
        &&& self.streams.wf()
        &&& self.missed.wf()
        &&& self.responded.wf()
        &&& self.pending.wf()
        &&& self@.inv()
    }

    /// A hub without workers.
    pub fn new(
        model: ModelConfig,
        model_alias: String,
        model_url: String,
        address: String,
    ) -> (r: Hub)
        ensures
            r.wf(),
            r@ == (HubView {
                model: model@,
                model_alias: model_alias@,
                model_url: model_url@,
                model_hash: seq![],
                address: address@,
                workers: seq![],
                streams: Map::empty(),
                missed: Map::empty(),
                responded: Map::empty(),
                pending: Map::empty(),
            }),
    {
        let r = Hub {
            model,
            model_alias,
            model_url,
            model_hash: String::new(),
            address,
            workers: Vec::new(),
            streams: IdMap::new(),
            missed: IdMap::new(),
            responded: IdMap::new(),
            pending: IdMap::new(),
        };
        assert(r@.workers =~= seq![]);
        assert(r@.model_hash =~= seq![]);
        r
    }

    /// What always holds does hold.
    pub proof fn lemma_inv(self)
        requires
            self.wf(),
        ensures
            self@.inv(),
    {
    }

    /// The pipeline that workers are told of.
    fn pipeline(&self) -> (r: PipelineInfo)
        requires
            self.wf(),
        ensures
            r@ == self@.pipeline(),
    {
        let url = model_proxy_url(self.address.as_str());
        build_pipeline_info(
            self.workers.as_slice(),
            self.model.name.as_str(),
            url.as_str(),
            self.model.num_layers,
        )
    }

    /// Puts a worker on the list.
    fn upsert(&mut self, info: WorkerInfo)
        ensures
            worker_views(final(self).workers@) == upserted(
                worker_views(old(self).workers@),
                info@,
            ),
            final(self).model == old(self).model,
            final(self).model_alias == old(self).model_alias,
            final(self).model_url == old(self).model_url,
            final(self).model_hash == old(self).model_hash,
            final(self).address == old(self).address,
            final(self).streams == old(self).streams,
            final(self).missed == old(self).missed,
            final(self).responded == old(self).responded,
            final(self).pending == old(self).pending,
    {
        let i = position(&self.workers, info.id.as_str());
        let ghost before = worker_views(self.workers@);
        if i < self.workers.len() {
            self.workers.set(i, info);
        } else {
            self.workers.push(info);
        }
        assert(worker_views(self.workers@) =~= upserted(before, info@));
    }

    /// Whether the workers can still be ranked once this one is among them.
    pub fn can_register(&self, info: &WorkerInfo) -> (r: bool)
        requires
            self.wf(),
        ensures
            r == rankable(upserted(self@.workers, info@)),
    {
        let mut trial = self.listed();
        let i = position(&trial, info.id.as_str());
        if i < trial.len() {
            trial.set(i, info.clone());
        } else {
            trial.push(info.clone());
        }
        assert(worker_views(trial@) =~= upserted(self@.workers, info@));
        can_rank(trial.as_slice())
    }

    /// A worker registers over a connection: it is put on the list and told
    /// its layers, and every other connected worker is told of the change.
    pub fn register(&mut self, conn: u64, info: WorkerInfo) -> (r: (
        HeartbeatResponse,
        Vec<Notice>,
    ))
        requires
            old(self).wf(),
            rankable(upserted(old(self)@.workers, info@)),
        ensures
            final(self).wf(),
            final(self)@ == registered(old(self)@, conn, info@),
            r.0@ == registration_answer(old(self)@, conn, info@),
            updates_except(final(self)@, info@.id, r.1@),
    {
        let ghost h = self@;
        let ghost who = info@;
        let id = info.id.clone();
        self.streams.insert(id.as_str(), conn);
        self.missed.insert(id.as_str(), 0);
        self.upsert(info);
        let ghost list = worker_views(self.workers@);
        proof {
            lemma_upserted(h.workers, who);
        }
        let total: usize = self.model.num_layers;
        let dealt = calculate_layer_assignment(self.workers.as_slice(), total);
        let (offset, num) = find_layers(&dealt, id.as_str(), Ghost(list), Ghost(total as int));
        let i = position(&self.workers, id.as_str());
        proof {
            lemma_layers_within(list, total as int, id@);
        }
        let mut worker = self.workers[i].clone();
        worker.layer_offset = offset;
        worker.num_layers = num;
        self.workers.set(i, worker);
        proof {
            let after = with_layers(list, who.id, offset, num);
            assert(worker_views(self.workers@) =~= after);
            assert forall|j: int|
                0 <= j < list.len() && (#[trigger] list[j]).id != who.id implies list[j].layer_offset
                + list[j].num_layers <= usize::MAX by {
                if j < h.workers.len() {
                    assert(list[j] == h.workers[j]);
                }
            }
            lemma_with_layers(list, who.id, offset, num);
            assert(self@ =~= registered(h, conn, who));
        }
        let pipeline = self.pipeline();
        let answer = HeartbeatResponse {
            layer_offset: offset,
            num_layers: num,
            reassign: false,
            model_name: self.model.name.clone(),
            model_url: model_proxy_url(self.address.as_str()),
            model_hash: self.model_hash.clone(),
            pipeline: Some(pipeline),
        };
        let notices = self.updates(id.as_str());
        (answer, notices)
    }

    /// What each connected worker but one is told when the pipeline has
    /// changed.
    fn updates(&self, except: &str) -> (r: Vec<Notice>)
        requires
            self.wf(),
        ensures
            updates_except(self@, except@, r@),
    {
        let pipeline = self.pipeline();
        let ids = self.streams.ids();
        let ghost all = texts(ids@);
        let mut out: Vec<Notice> = Vec::new();
        for i in 0..ids.len()
            invariant
                self.wf(),
                all == texts(ids@),
                all.no_duplicates(),
                forall|k: Seq<char>| #[trigger]
                    all.contains(k) <==> self.streams@.dom().contains(k),
                pipeline@ == self@.pipeline(),
                recipients(out@).no_duplicates(),
                forall|k: Seq<char>| #[trigger]
                    recipients(out@).contains(k) <==> all.take(i as int).contains(k) && k
                        != except@,
                forall|j: int|
                    0 <= j < out@.len() ==> (#[trigger] out@[j]).conn
                        == self@.streams[out@[j].worker_id@] && out@[j].message@ == update_for(
                        self@,
                        out@[j].worker_id@,
                    ),
        {
            let id = ids[i].clone();
            let ghost before = recipients(out@);
            proof {
                assert(all[i as int] == id@);
                lemma_take_next(all, i as int);
            }
            if !same_text(id.as_str(), except) {
                let p = chain_position(&pipeline.workers, id.as_str());
                let (layer_offset, num_layers) = if p < pipeline.workers.len() {
                    (pipeline.workers[p].layer_offset, pipeline.workers[p].num_layers)
                } else {
                    (0, 0)
                };
                let conn = match self.streams.get(id.as_str()) {
                    Some(conn) => conn,
                    None => 0,
                };
                let message = HeartbeatResponse {
                    layer_offset,
                    num_layers,
                    reassign: false,
                    model_name: pipeline.model_name.clone(),
                    model_url: pipeline.model_url.clone(),
                    model_hash: String::new(),
                    pipeline: Some(pipeline.clone()),
                };
                assert(message@.model_hash =~= update_for(self@, id@).model_hash);
                assert(message@ =~= update_for(self@, id@));
                out.push(Notice { worker_id: id, conn, message });
                proof {
                    assert(recipients(out@) =~= before.push(id@));
                    lemma_push_contains(before, id@);
                }
            }
        }
        assert(all.take(all.len() as int) =~= all);
        out
    }
}

// ---------------------------------------------------------------------------
// A worker gives a sign of life
// ---------------------------------------------------------------------------

/// The memory after a sign of life.
pub open spec fn heard_from(h: HubView, hb: HeartbeatView) -> HubView {
    HubView {
        workers: with_heartbeat(h.workers, hb),
        missed: h.missed.insert(hb.worker_id, 0),
        responded: h.responded.insert(hb.worker_id, true),
        ..h
    }
}

/// The answer to a sign of life, from the memory after it. A worker that is
/// on the list is told its layers, and whether these are not the ones it
/// reported; any other is told what it reported.
pub open spec fn heartbeat_answer(h: HubView, hb: HeartbeatView) -> HeartbeatResponseView {
    let chain = h.pipeline().workers;
    let p = chain_at(chain, hb.worker_id);
    let known = p < chain.len();
    HeartbeatResponseView {
        layer_offset: if known {
            chain[p].layer_offset
        } else {
            hb.layer_offset
        },
        num_layers: if known {
            chain[p].num_layers
        } else {
            hb.num_layers
        },
        reassign: known && (chain[p].layer_offset != hb.layer_offset || chain[p].num_layers
            != hb.num_layers),
        model_name: h.model.name,
        model_url: proxy_url(h.address),
        model_hash: h.model_hash,
        pipeline: if h.workers.len() > 0 {
            Some(h.pipeline())
        } else {
            None
        },
    }
}

/// Whether a worker is the last one of the pipeline, so that its sign of life
/// ends the round.
pub open spec fn ends_round(h: HubView, id: Seq<char>) -> bool {
    let chain = h.pipeline().workers;
    exists|i: int| 0 <= i < chain.len() && (#[trigger] chain[i]).worker_id == id && chain[i].is_last
}

/// Whether the list stays as it should be after a sign of life.
proof fn lemma_with_heartbeat(workers: Seq<WorkerView>, hb: HeartbeatView)
    requires
        unique_ids(workers),
        layers_fit(workers),
    ensures
        unique_ids(with_heartbeat(workers, hb)),
        layers_fit(with_heartbeat(workers, hb)),
{
    lemma_worker_at(workers, hb.worker_id);
    if on_list(workers, hb.worker_id) {
        let i = worker_at(workers, hb.worker_id);
        let after = with_heartbeat(workers, hb);
        lemma_update_unique(workers, i, after[i]);
        assert forall|j: int| 0 <= j < after.len() implies (#[trigger] after[j]).layer_offset
            + after[j].num_layers <= usize::MAX by {
            assert(workers[j].layer_offset + workers[j].num_layers <= usize::MAX);
        }
    }
}

impl Hub {
    /// A copy of the list of workers.
    fn listed(&self) -> (r: Vec<WorkerInfo>)
        ensures
            worker_views(r@) == worker_views(self.workers@),
    {
        let mut out: Vec<WorkerInfo> = Vec::new();
        for k in 0..self.workers.len()
            invariant
                out@.len() == k,
                forall|j: int| 0 <= j < k ==> (#[trigger] out@[j])@ == self.workers@[j]@,
        {
            out.push(self.workers[k].clone());
        }
        assert(worker_views(out@) =~= worker_views(self.workers@));
        out
    }

    /// Whether the workers can still be ranked after this sign of life.
    pub fn can_hear(&self, hb: &WorkerHeartbeat) -> (r: bool)
        requires
            self.wf(),
        ensures
            r == rankable(with_heartbeat(self@.workers, hb@)),
    {
        let mut trial = self.listed();
        note_heartbeat(&mut trial, hb);
        can_rank(trial.as_slice())
    }

    /// A worker gives a sign of life: it counts as heard in this round, its
    /// figures are kept, and it is told where it stands. The second result
    /// says whether this ends the round.
    pub fn heartbeat(&mut self, hb: &WorkerHeartbeat) -> (r: (HeartbeatResponse, bool))
        requires
            old(self).wf(),
            rankable(with_heartbeat(old(self)@.workers, hb@)),
        ensures
            final(self).wf(),
            final(self)@ == heard_from(old(self)@, hb@),
            r.0@ == heartbeat_answer(final(self)@, hb@),
            r.1 == ends_round(final(self)@, hb@.worker_id),
    {
        let ghost h = self@;
        let id = hb.worker_id.as_str();
        self.responded.insert(id, true);
        self.missed.insert(id, 0);
        note_heartbeat(&mut self.workers, hb);
        proof {
            lemma_with_heartbeat(h.workers, hb@);
            assert(self@ =~= heard_from(h, hb@));
        }
        let pipeline = self.pipeline();
        let p = chain_position(&pipeline.workers, id);
        let n: usize = pipeline.workers.len();
        let ghost chain = self@.pipeline().workers;
        assert(pipeline.workers@.map_values(|x: PipelineWorker| x@) == chain);
        proof {
            lemma_chain_at(chain, id@);
            lemma_ranked_in_order(self@.workers);
        }
        let (layer_offset, num_layers, reassign) = if p < n {
            let w = &pipeline.workers[p];
            assert(w@ == chain[p as int]);
            (
                w.layer_offset,
                w.num_layers,
                w.layer_offset != hb.layer_offset || w.num_layers != hb.num_layers,
            )
        } else {
            (hb.layer_offset, hb.num_layers, false)
        };
        let last = n > 0 && same_text(pipeline.workers[n - 1].worker_id.as_str(), id);
        proof {
            if n > 0 {
                assert(pipeline.workers@[n - 1]@ == chain[n - 1]);
                assert(chain[n - 1].is_last);
            }
            if ends_round(self@, id@) {
                let i = choose|i: int|
                    0 <= i < chain.len() && (#[trigger] chain[i]).worker_id == id@
                        && chain[i].is_last;
                assert(i == n - 1);
            }
        }
        let some = n > 0;
        let answer = HeartbeatResponse {
            layer_offset,
            num_layers,
            reassign,
            model_name: self.model.name.clone(),
            model_url: model_proxy_url(self.address.as_str()),
            model_hash: self.model_hash.clone(),
            pipeline: if some {
                Some(pipeline)
            } else {
                None
            },
        };
        (answer, last)
    }
}

/// Keeps the figures of a sign of life.
fn note_heartbeat(workers: &mut Vec<WorkerInfo>, hb: &WorkerHeartbeat)
    ensures
        worker_views(final(workers)@) == with_heartbeat(worker_views(old(workers)@), hb@),
{
    let i = position(workers, hb.worker_id.as_str());
    let ghost before = worker_views(workers@);
    if i < workers.len() {
        let mut w = workers[i].clone();
        w.load = hb.load;
        w.has_gpu = hb.has_gpu;
        w.vram_gb = hb.vram_gb;
        w.active = hb.active;
        workers.set(i, w);
    }
    assert(worker_views(workers@) =~= with_heartbeat(before, hb@));
}

// ---------------------------------------------------------------------------
// A worker leaves
// ---------------------------------------------------------------------------

/// The memory after a worker's connection closed.
pub open spec fn left(h: HubView, id: Seq<char>) -> HubView {
    HubView {
        workers: without(h.workers, id),
        streams: h.streams.remove(id),
        missed: h.missed.remove(id),
        responded: h.responded.remove(id),
        ..h
    }
}

impl Hub {
    /// A worker's connection closed: nothing of it is kept.
    pub fn disconnect(&mut self, id: &str)
        requires
            old(self).wf(),
        ensures
            final(self).wf(),
            final(self)@ == left(old(self)@, id@),
    {
        let ghost h = self@;
        let i = position(&self.workers, id);
        if i < self.workers.len() {
            self.workers.remove(i);
        }
        self.streams.remove(id);
        self.missed.remove(id);
        self.responded.remove(id);
        proof {
            assert(worker_views(self.workers@) =~= without(h.workers, id@));
            lemma_without(h.workers, id@);
            lemma_fewer_rankable(h.workers, without(h.workers, id@));
            assert(self@ =~= left(h, id@));
        }
    }
}

// ---------------------------------------------------------------------------
// Rounds of heartbeats
// ---------------------------------------------------------------------------

/// The workers that have missed too many heartbeats once this round is
/// counted.
pub open spec fn overdue(h: HubView) -> Set<Seq<char>> {
    Set::new(
        |k: Seq<char>|
            h.responded.dom().contains(k) && !h.responded[k] && h.misses(k) + 1
                >= MISSES_TO_REMOVE,
    )
}

/// How many heartbeats a worker has missed in a row once this round is
/// counted.
pub open spec fn counted(h: HubView, id: Seq<char>) -> u32 {
    if h.responded.dom().contains(id) {
        if h.responded[id] {
            0
        } else {
            (h.misses(id) + 1) as u32
        }
    } else {
        h.missed[id]
    }
}

/// The memory after a round was counted and the next one begun: who was heard
/// from starts again at zero, who was not has missed one more, who has missed
/// too many is removed, and everyone left on the list is asked again.
pub open spec fn round_closed(h: HubView) -> HubView {
    let gone = overdue(h);
    HubView {
        workers: without_all(h.workers, gone),
        streams: h.streams.remove_keys(gone),
        missed: Map::new(
            |k: Seq<char>|
                (h.missed.dom().contains(k) || h.responded.dom().contains(k)) && !gone.contains(k),
            |k: Seq<char>| counted(h, k),
        ),
        responded: Map::new(
            |k: Seq<char>| on_list(h.workers, k) && !gone.contains(k),
            |k: Seq<char>| false,
        ),
        ..h
    }
}

/// A worker that was removed, and the peer that has to be removed from the
/// tunnel with it, if any.
pub struct Removed {
    /// The worker.
    pub worker_id: String,
    /// Its peer in the tunnel.
    pub peer: Option<String>,
}

/// The workers that were removed.
pub open spec fn removed_ids(removed: Seq<Removed>) -> Seq<Seq<char>> {
    removed.map_values(|x: Removed| x.worker_id@)
}

/// The peer that has to be removed from the tunnel with a worker: the one it
/// has, if it has one and the tunnel can be managed.
pub open spec fn peer_of(h: HubView, id: Seq<char>, password: Seq<char>) -> Option<Seq<char>> {
    let i = worker_at(h.workers, id);
    if i < h.workers.len() && h.workers[i].wg_peer_id.len() > 0 && password.len() > 0 {
        Some(h.workers[i].wg_peer_id)
    } else {
        None
    }
}

/// Whether the list names the removed workers, each once, with their peers.
pub open spec fn removals(h: HubView, password: Seq<char>, removed: Seq<Removed>) -> bool {
    &&& removed_ids(removed).no_duplicates()
    &&& forall|k: Seq<char>| #[trigger]
        removed_ids(removed).contains(k) <==> overdue(h).contains(k)
    &&& forall|i: int|
        0 <= i < removed.len() ==> opt_text((#[trigger] removed[i]).peer) == peer_of(
            h,
            removed[i].worker_id@,
            password,
        )
}

/// Counting a round keeps what always holds.
pub proof fn lemma_round_closed(h: HubView)
    requires
        h.inv(),
    ensures
        round_closed(h).inv(),
{
    let gone = overdue(h);
    let after = round_closed(h);
    lemma_without_all(h.workers, gone);
    lemma_fewer_rankable(h.workers, after.workers);
    assert forall|k: Seq<char>| #[trigger] after.missed.dom().contains(k) implies after.missed[k]
        < MISSES_TO_REMOVE by {
        if h.missed.dom().contains(k) {
            assert(h.missed[k] < MISSES_TO_REMOVE);
        }
    }
}

/// Adding one item to a list without duplicates.
proof fn lemma_push_contains(s: Seq<Seq<char>>, x: Seq<char>)
    ensures
        forall|k: Seq<char>| #[trigger] s.push(x).contains(k) <==> s.contains(k) || k == x,
        s.no_duplicates() && !s.contains(x) ==> s.push(x).no_duplicates(),
{
    let t = s.push(x);
    assert forall|k: Seq<char>| #[trigger] t.contains(k) <==> s.contains(k) || k == x by {
        if s.contains(k) {
            let j = choose|j: int| 0 <= j < s.len() && s[j] == k;
            assert(t[j] == k);
        }
        assert(t[s.len() as int] == x);
    }
}

/// The next item of a list without duplicates is new.
proof fn lemma_take_next(s: Seq<Seq<char>>, i: int)
    requires
        s.no_duplicates(),
        0 <= i < s.len(),
    ensures
        s.take(i + 1) == s.take(i).push(s[i]),
        !s.take(i).contains(s[i]),
        s.contains(s[i]),
        forall|k: Seq<char>| #[trigger]
            s.take(i + 1).contains(k) <==> s.take(i).contains(k) || k == s[i],
{
    assert(s.take(i + 1) =~= s.take(i).push(s[i]));
    lemma_push_contains(s.take(i), s[i]);
    if s.take(i).contains(s[i]) {
        let j = choose|j: int| 0 <= j < i && s.take(i)[j] == s[i];
        assert(s[j] == s[i]);
    }
}

impl Hub {
    /// Ends a round of heartbeats and begins the next: counts who was not
    /// heard from, removes who has missed too many, and asks all others again.
    pub fn close_round(&mut self, wg_password: &str) -> (r: Vec<Removed>)
        requires
            old(self).wf(),
        ensures
            final(self).wf(),
            final(self)@ == round_closed(old(self)@),
            removals(old(self)@, wg_password@, r@),
    {
        let ghost h = self@;
        let mut removed: Vec<Removed> = Vec::new();
        let ids = self.responded.ids();
        let ghost all = texts(ids@);
        for i in 0..ids.len()
            invariant
                self.streams.wf(),
                self.missed.wf(),
                self.responded.wf(),
                self.pending.wf(),
                h.inv(),
                self@ == (HubView { missed: self@.missed, ..h }),
                all == texts(ids@),
                all.no_duplicates(),
                forall|k: Seq<char>| #[trigger]
                    all.contains(k) <==> h.responded.dom().contains(k),
                forall|k: Seq<char>| #[trigger]
                    self@.missed.dom().contains(k) <==> h.missed.dom().contains(k) || all.take(
                        i as int,
                    ).contains(k),
                forall|k: Seq<char>| #[trigger]
                    self@.missed.dom().contains(k) ==> self@.missed[k] == (if all.take(
                        i as int,
                    ).contains(k) {
                        counted(h, k)
                    } else {
                        h.missed[k]
                    }),
                removed_ids(removed@).no_duplicates(),
                forall|k: Seq<char>| #[trigger]
                    removed_ids(removed@).contains(k) <==> all.take(i as int).contains(k)
                        && overdue(h).contains(k),
                forall|j: int|
                    0 <= j < removed@.len() ==> opt_text((#[trigger] removed@[j]).peer) == peer_of(
                        h,
                        removed@[j].worker_id@,
                        wg_password@,
                    ),
        {
            let id = ids[i].clone();
            proof {
                assert(all[i as int] == id@);
                lemma_take_next(all, i as int);
            }
            let heard = match self.responded.get(id.as_str()) {
                Some(b) => b,
                None => false,
            };
            if heard {
                self.missed.insert(id.as_str(), 0);
                assert(self@ =~= (HubView { missed: self@.missed, ..h }));
            } else {
                let count: u32 = match self.missed.get(id.as_str()) {
                    Some(n) => n,
                    None => 0,
                };
                assert(count == h.misses(id@));
                assert(count < MISSES_TO_REMOVE) by {
                    if h.missed.dom().contains(id@) {
                        assert(h.missed[id@] < MISSES_TO_REMOVE);
                    }
                }
                self.missed.insert(id.as_str(), count + 1);
                assert(self@ =~= (HubView { missed: self@.missed, ..h }));
                if count + 1 >= MISSES_TO_REMOVE {
                    let peer = self.peer(id.as_str(), wg_password);
                    let ghost before = removed_ids(removed@);
                    removed.push(Removed { worker_id: id, peer });
                    proof {
                        assert(removed_ids(removed@) =~= before.push(id@));
                        lemma_push_contains(before, id@);
                    }
                }
            }
        }
        assert(all.take(all.len() as int) =~= all);
        self.forget(&removed);
        proof {
            let gone = overdue(h);
            assert(removed_ids(removed@).to_set() =~= gone);
            lemma_round_closed(h);
            assert(self@.missed =~= round_closed(h).missed);
            assert(self@ =~= round_closed(h));
        }
        removed
    }

    /// The peer that has to be removed from the tunnel with a worker.
    fn peer(&self, id: &str, wg_password: &str) -> (r: Option<String>)
        ensures
            opt_text(r) == peer_of(self@, id@, wg_password@),
    {
        let i = position(&self.workers, id);
        if i < self.workers.len() && !self.workers[i].wg_peer_id.as_str().is_empty()
            && !wg_password.is_empty() {
            Some(self.workers[i].wg_peer_id.clone())
        } else {
            None
        }
    }

    /// Forgets workers, and asks all others for a heartbeat.
    fn forget(&mut self, removed: &Vec<Removed>)
        requires
            old(self).streams.wf(),
            old(self).missed.wf(),
            old(self).responded.wf(),
            old(self).pending.wf(),
            unique_ids(old(self)@.workers),
        ensures
            final(self).streams.wf(),
            final(self).missed.wf(),
            final(self).responded.wf(),
            final(self).pending.wf(),
            ({
                let gone = removed_ids(removed@).to_set();
                final(self)@ == (HubView {
                    workers: without_all(old(self)@.workers, gone),
                    streams: old(self)@.streams.remove_keys(gone),
                    missed: old(self)@.missed.remove_keys(gone),
                    responded: Map::new(
                        |k: Seq<char>| on_list(old(self)@.workers, k) && !gone.contains(k),
                        |k: Seq<char>| false,
                    ),
                    ..old(self)@
                })
            }),
    {
        let ghost h = self@;
        let ghost list = removed_ids(removed@);
        let ghost gone = list.to_set();
        for i in 0..removed.len()
            invariant
                self.streams.wf(),
                self.missed.wf(),
                self.responded.wf(),
                self.pending.wf(),
                list == removed_ids(removed@),
                self@ == (HubView {
                    streams: h.streams.remove_keys(list.take(i as int).to_set()),
                    missed: h.missed.remove_keys(list.take(i as int).to_set()),
                    ..h
                }),
        {
            let ghost shown = list.take(i as int);
            let id = removed[i].worker_id.as_str();
            self.streams.remove(id);
            self.missed.remove(id);
            proof {
                assert(list.take(i + 1) =~= shown.push(id@));
                lemma_push_contains(shown, id@);
                assert(list.take(i + 1).to_set() =~= shown.to_set().insert(id@));
                assert(self@.streams =~= h.streams.remove_keys(list.take(i + 1).to_set()));
                assert(self@.missed =~= h.missed.remove_keys(list.take(i + 1).to_set()));
                assert(self@ =~= (HubView {
                    streams: self@.streams,
                    missed: self@.missed,
                    ..h
                }));
            }
        }
        assert(list.take(list.len() as int) =~= list);
        let mut kept: Vec<WorkerInfo> = Vec::new();
        let mut responded: IdMap<bool> = IdMap::new();
        let ghost ws = h.workers;
        assert(ws.take(0) =~= seq![]);
        assert(worker_views(kept@) =~= without_all(ws.take(0), gone));
        for i in 0..self.workers.len()
            invariant
                list == removed_ids(removed@),
                gone == list.to_set(),
                ws == worker_views(self.workers@),
                unique_ids(ws),
                worker_views(kept@) == without_all(ws.take(i as int), gone),
                responded.wf(),
                forall|k: Seq<char>| #[trigger]
                    responded@.dom().contains(k) <==> !gone.contains(k) && exists|j: int|
                        0 <= j < i && (#[trigger] ws[j]).id == k,
                forall|k: Seq<char>| #[trigger] responded@.dom().contains(k) ==> !responded@[k],
        {
            let w = &self.workers[i];
            assert(ws[i as int] == w@);
            assert(ws.take(i + 1).drop_last() =~= ws.take(i as int));
            let ghost before = worker_views(kept@);
            let ghost asked = responded@;
            let out = names(removed, w.id.as_str());
            assert(out == gone.contains(w@.id));
            if !out {
                responded.insert(w.id.as_str(), false);
                kept.push(w.clone());
                assert(worker_views(kept@) =~= before.push(w@));
            }
            assert forall|k: Seq<char>| #[trigger] responded@.dom().contains(k) <==> !gone.contains(
                k,
            ) && exists|j: int| 0 <= j < i + 1 && (#[trigger] ws[j]).id == k by {
                if responded@.dom().contains(k) {
                    if asked.dom().contains(k) {
                        let j = choose|j: int| 0 <= j < i && (#[trigger] ws[j]).id == k;
                        assert(ws[j].id == k);
                    } else {
                        assert(ws[i as int].id == k);
                    }
                }
                if !gone.contains(k) && exists|j: int|
                    0 <= j < i + 1 && (#[trigger] ws[j]).id == k {
                    let j = choose|j: int| 0 <= j < i + 1 && (#[trigger] ws[j]).id == k;
                    if j < i {
                        assert(asked.dom().contains(k));
                    }
                }
            }
        }
        assert(ws.take(ws.len() as int) =~= ws);
        self.workers = kept;
        self.responded = responded;
        proof {
            let wanted = Map::new(
                |k: Seq<char>| on_list(ws, k) && !gone.contains(k),
                |k: Seq<char>| false,
            );
            assert forall|k: Seq<char>| #[trigger] responded@.dom().contains(k)
                <==> wanted.dom().contains(k) by {
                lemma_worker_at(ws, k);
                if on_list(ws, k) {
                    assert(ws[worker_at(ws, k)].id == k);
                }
                if exists|j: int| 0 <= j < ws.len() && (#[trigger] ws[j]).id == k {
                    let j = choose|j: int| 0 <= j < ws.len() && (#[trigger] ws[j]).id == k;
                    lemma_on_list(ws, j);
                }
            }
            assert(responded@ =~= wanted);
            assert(self@ =~= (HubView {
                workers: without_all(h.workers, gone),
                streams: h.streams.remove_keys(gone),
                missed: h.missed.remove_keys(gone),
                responded: wanted,
                ..h
            }));
        }
    }
}

/// Whether a worker is among the removed ones.
fn names(removed: &Vec<Removed>, id: &str) -> (r: bool)
    ensures
        r == removed_ids(removed@).to_set().contains(id@),
{
    let ghost list = removed_ids(removed@);
    for i in 0..removed.len()
        invariant
            list == removed_ids(removed@),
            forall|j: int| 0 <= j < i ==> (#[trigger] list[j]) != id@,
    {
        assert(list[i as int] == removed@[i as int].worker_id@);
        if same_text(removed[i].worker_id.as_str(), id) {
            assert(list.contains(id@));
            return true;
        }
    }
    false
}

// ---------------------------------------------------------------------------
// Beginning a round
// ---------------------------------------------------------------------------

/// What a notice says.
pub open spec fn notice_view(n: Notice) -> (Seq<char>, u64, HeartbeatResponseView) {
    (n.worker_id@, n.conn, n.message@)
}

/// A worker with the layers that fall to it among others.
pub open spec fn dealt_to(workers: Seq<WorkerView>, total: int, w: WorkerView) -> WorkerView {
    let layers = layers_for(workers, total, w.id);
    WorkerView { layer_offset: layers.0, num_layers: layers.1, ..w }
}

/// The memory after the layers were dealt out anew among all workers.
pub open spec fn dealt_anew(h: HubView) -> HubView {
    HubView {
        workers: h.workers.map_values(
            |w: WorkerView| dealt_to(h.workers, h.model.num_layers as int, w),
        ),
        ..h
    }
}

/// What the worker at a place of the pipeline is told when others have left:
/// to load the layers that now fall to it.
pub open spec fn reassignment_at(h: HubView, i: int) -> HeartbeatResponseView {
    let total = h.model.num_layers as int;
    let n = h.workers.len() as int;
    HeartbeatResponseView {
        layer_offset: first_layer(i, total, n) as usize,
        num_layers: share(i, total, n) as usize,
        reassign: true,
        model_name: h.model.name,
        model_url: proxy_url(h.address),
        model_hash: h.model_hash,
        pipeline: Some(h.pipeline()),
    }
}

/// The notices to the first workers of the pipeline, as far as they are
/// connected, in the order of the pipeline.
pub open spec fn reassignments(h: HubView, n: int) -> Seq<
    (Seq<char>, u64, HeartbeatResponseView),
>
    decreases n,
{
    if n <= 0 {
        seq![]
    } else {
        let front = reassignments(h, n - 1);
        let id = h.pipeline().workers[n - 1].worker_id;
        if h.streams.dom().contains(id) {
            front.push((id, h.streams[id], reassignment_at(h, n - 1)))
        } else {
            front
        }
    }
}

/// Dealing out anew keeps what always holds.
pub proof fn lemma_dealt_anew(h: HubView)
    requires
        h.inv(),
    ensures
        dealt_anew(h).inv(),
{
    let t = h.model.num_layers as int;
    let after = dealt_anew(h).workers;
    assert forall|i: int, j: int| 0 <= i < j < after.len() implies (#[trigger] after[i]).id != (
    #[trigger] after[j]).id by {
        assert(h.workers[i].id != h.workers[j].id);
    }
    assert forall|i: int| 0 <= i < after.len() implies (#[trigger] after[i]).layer_offset
        + after[i].num_layers <= usize::MAX by {
        lemma_layers_within(h.workers, t, h.workers[i].id);
    }
    if after.len() >= 2 {
        assert forall|i: int| 0 <= i < after.len() implies has_score(
            (#[trigger] after[i]).has_gpu,
            after[i].vram_gb,
        ) by {
            assert(has_score(h.workers[i].has_gpu, h.workers[i].vram_gb));
        }
    }
}

/// Once the layers were dealt out anew, the worker at a place of the pipeline
/// has the layers of that place.
pub proof fn lemma_dealt_places(h: HubView, i: int)
    requires
        h.inv(),
        0 <= i < h.workers.len(),
    ensures
        ({
            let t = h.model.num_layers as int;
            let n = h.workers.len() as int;
            let w = dealt_anew(h).pipeline().workers[i];
            &&& w.worker_id == h.pipeline().workers[i].worker_id
            &&& w.layer_offset == first_layer(i, t, n)
            &&& w.num_layers == share(i, t, n)
        }),
{
    let t = h.model.num_layers as int;
    let n = h.workers.len() as int;
    let deal = |w: WorkerView| dealt_to(h.workers, t, w);
    let ranking = ranked(h.workers);
    lemma_ranked_in_order(h.workers);
    lemma_ranked_map(h.workers, deal);
    lemma_ranked_unique(h.workers);
    lemma_on_list(ranking, i);
    lemma_layers_partitioned(t, n);
    lemma_layers_bounded(i, t, n);
    lemma_layers_bounded(i + 1, t, n);
    assert(first_layer(i, t, n) + share(i, t, n) == first_layer(i + 1, t, n));
    assert(share(i, t, n) >= 0);
    assert(ranked(dealt_anew(h).workers)[i] == deal(ranking[i]));
}

/// The worker with which the pipeline begins.
pub enum FirstWorker {
    /// There is no worker.
    Missing,
    /// It has no connection.
    NotConnected(String),
    /// It is reached over a connection.
    Connected(String, u64),
}

/// What a [`FirstWorker`] holds.
pub enum FirstWorkerView {
    Missing,
    NotConnected(Seq<char>),
    Connected(Seq<char>, u64),
}

impl View for FirstWorker {
    type V = FirstWorkerView;

    open spec fn view(&self) -> FirstWorkerView {
        match self {
            FirstWorker::Missing => FirstWorkerView::Missing,
            FirstWorker::NotConnected(id) => FirstWorkerView::NotConnected(id@),
            FirstWorker::Connected(id, conn) => FirstWorkerView::Connected(id@, *conn),
        }
    }
}

/// The worker with which the pipeline begins: the one with the lowest score.
pub open spec fn first_worker_of(h: HubView) -> FirstWorkerView {
    let chain = h.pipeline().workers;
    if chain.len() == 0 {
        FirstWorkerView::Missing
    } else if h.streams.dom().contains(chain[0].worker_id) {
        FirstWorkerView::Connected(chain[0].worker_id, h.streams[chain[0].worker_id])
    } else {
        FirstWorkerView::NotConnected(chain[0].worker_id)
    }
}

/// How a round of heartbeats begins.
pub enum RoundStart {
    /// Not at all: there is no worker.
    NoWorkers,
    /// Not at all: nobody is connected.
    NoStreams,
    /// Not at all: the first worker of the pipeline is not connected.
    NotConnected(String),
    /// With a message to the first worker of the pipeline.
    Forward {
        /// The worker.
        worker_id: String,
        /// Its connection.
        conn: u64,
        /// The pipeline along which the round goes.
        pipeline: PipelineInfo,
    },
}

/// What a [`RoundStart`] holds.
pub enum RoundStartView {
    NoWorkers,
    NoStreams,
    NotConnected(Seq<char>),
    Forward { worker_id: Seq<char>, conn: u64, pipeline: PipelineView },
}

impl View for RoundStart {
    type V = RoundStartView;

    open spec fn view(&self) -> RoundStartView {
        match self {
            RoundStart::NoWorkers => RoundStartView::NoWorkers,
            RoundStart::NoStreams => RoundStartView::NoStreams,
            RoundStart::NotConnected(id) => RoundStartView::NotConnected(id@),
            RoundStart::Forward { worker_id, conn, pipeline } => RoundStartView::Forward {
                worker_id: worker_id@,
                conn: *conn,
                pipeline: pipeline@,
            },
        }
    }
}

/// How a round of heartbeats begins.
pub open spec fn round_start_of(h: HubView) -> RoundStartView {
    if h.workers.len() == 0 {
        RoundStartView::NoWorkers
    } else if h.streams.dom() == Set::<Seq<char>>::empty() {
        RoundStartView::NoStreams
    } else {
        match first_worker_of(h) {
            FirstWorkerView::Connected(id, conn) => RoundStartView::Forward {
                worker_id: id,
                conn,
                pipeline: h.pipeline(),
            },
            FirstWorkerView::NotConnected(id) => RoundStartView::NotConnected(id),
            FirstWorkerView::Missing => RoundStartView::NoWorkers,
        }
    }
}

impl Hub {
    /// Deals the layers out anew.
    fn deal_anew(&mut self)
        requires
            old(self).wf(),
        ensures
            final(self).wf(),
            final(self)@ == dealt_anew(old(self)@),
    {
        let ghost h = self@;
        let ghost list = h.workers;
        let total: usize = self.model.num_layers;
        let ghost t = total as int;
        proof {
            lemma_dealt_anew(h);
        }
        if self.workers.len() == 0 {
            assert(self@ =~= dealt_anew(h));
            return;
        }
        let dealt = calculate_layer_assignment(self.workers.as_slice(), total);
        let n: usize = self.workers.len();
        for i in 0..n
            invariant
                n == list.len(),
                n == self.workers@.len(),
                n > 0,
                t == h.model.num_layers,
                list == h.workers,
                dealt@.map_values(|a: (String, usize, usize)| assignment_view(a)) == assignments(
                    list,
                    t,
                ),
                self.streams.wf(),
                self.missed.wf(),
                self.responded.wf(),
                self.pending.wf(),
                self@ == (HubView { workers: self@.workers, ..h }),
                forall|j: int|
                    0 <= j < n ==> #[trigger] self@.workers[j] == (if j < i {
                        dealt_to(list, t, list[j])
                    } else {
                        list[j]
                    }),
        {
            let mut worker = self.workers[i].clone();
            assert(self@.workers[i as int] == worker@);
            let (offset, num) = find_layers(&dealt, worker.id.as_str(), Ghost(list), Ghost(t));
            worker.layer_offset = offset;
            worker.num_layers = num;
            let ghost before = self@.workers;
            self.workers.set(i, worker);
            assert(self@.workers =~= before.update(i as int, worker@));
            assert(self@ =~= (HubView { workers: self@.workers, ..h }));
        }
        proof {
            assert(self@.workers =~= dealt_anew(h).workers);
            assert(self@ =~= dealt_anew(h));
        }
    }

    /// Where others were removed, deals the layers out anew among those that
    /// remain, and says what the connected ones are told, in the order of the
    /// pipeline. Where nobody was removed nothing is done.
    pub fn reassignment_notices(&mut self, removed: &Vec<Removed>) -> (r: Vec<Notice>)
        requires
            old(self).wf(),
        ensures
            final(self).wf(),
            final(self)@ == (if removed@.len() > 0 {
                dealt_anew(old(self)@)
            } else {
                old(self)@
            }),
            r@.map_values(|n: Notice| notice_view(n)) == (if removed@.len() > 0 {
                reassignments(final(self)@, final(self)@.workers.len() as int)
            } else {
                seq![]
            }),
    {
        let mut out: Vec<Notice> = Vec::new();
        if removed.len() == 0 {
            assert(out@.map_values(|n: Notice| notice_view(n)) =~= seq![]);
            return out;
        }
        let ghost h = self@;
        self.deal_anew();
        let ghost after = self@;
        let pipeline = self.pipeline();
        let ghost chain = after.pipeline().workers;
        assert(pipeline.workers@.len() == chain.len());
        assert(out@.map_values(|n: Notice| notice_view(n)) =~= reassignments(after, 0));
        for i in 0..pipeline.workers.len()
            invariant
                self.wf(),
                self@ == after,
                h.inv(),
                after == dealt_anew(h),
                pipeline@ == after.pipeline(),
                chain == after.pipeline().workers,
                pipeline.workers@.len() == h.workers.len(),
                out@.map_values(|n: Notice| notice_view(n)) == reassignments(after, i as int),
        {
            let ghost before = out@.map_values(|n: Notice| notice_view(n));
            let w = &pipeline.workers[i];
            proof {
                assert(w@ == pipeline@.workers[i as int]);
                lemma_dealt_places(h, i as int);
            }
            if let Some(conn) = self.streams.get(w.worker_id.as_str()) {
                let message = HeartbeatResponse {
                    layer_offset: w.layer_offset,
                    num_layers: w.num_layers,
                    reassign: true,
                    model_name: self.model.name.clone(),
                    model_url: model_proxy_url(self.address.as_str()),
                    model_hash: self.model_hash.clone(),
                    pipeline: Some(pipeline.clone()),
                };
                let notice = Notice { worker_id: w.worker_id.clone(), conn, message };
                assert(notice_view(notice) == (
                    chain[i as int].worker_id,
                    conn,
                    reassignment_at(after, i as int),
                ));
                out.push(notice);
                assert(out@.map_values(|n: Notice| notice_view(n)) =~= before.push(
                    notice_view(notice),
                ));
            }
        }
        out
    }

    /// The worker with which the pipeline begins, and how to reach it.
    pub fn first_worker(&self) -> (r: FirstWorker)
        requires
            self.wf(),
        ensures
            r@ == first_worker_of(self@),
    {
        let pipeline = self.pipeline();
        let ghost chain = self@.pipeline().workers;
        if pipeline.workers.len() == 0 {
            return FirstWorker::Missing;
        }
        let id = pipeline.workers[0].worker_id.clone();
        assert(pipeline@.workers[0].worker_id == id@);
        match self.streams.get(id.as_str()) {
            Some(conn) => FirstWorker::Connected(id, conn),
            None => FirstWorker::NotConnected(id),
        }
    }

    /// How the next round of heartbeats begins.
    pub fn round_start(&self) -> (r: RoundStart)
        requires
            self.wf(),
        ensures
            r@ == round_start_of(self@),
    {
        if self.workers.len() == 0 {
            return RoundStart::NoWorkers;
        }
        if self.streams.is_empty() {
            return RoundStart::NoStreams;
        }
        match self.first_worker() {
            FirstWorker::Missing => RoundStart::NoWorkers,
            FirstWorker::NotConnected(id) => RoundStart::NotConnected(id),
            FirstWorker::Connected(worker_id, conn) => RoundStart::Forward {
                worker_id,
                conn,
                pipeline: self.pipeline(),
            },
        }
    }
}

// ---------------------------------------------------------------------------
// Prompts that wait for an answer
// ---------------------------------------------------------------------------

impl Hub {
    /// Someone waits for the answer to a prompt.
    pub fn await_answer(&mut self, request_id: &str, waiter: u64)
        requires
            old(self).wf(),
        ensures
            final(self).wf(),
            final(self)@ == (HubView {
                pending: old(self)@.pending.insert(request_id@, waiter),
                ..old(self)@
            }),
    {
        let ghost h = self@;
        self.pending.insert(request_id, waiter);
        assert(self@ =~= (HubView { pending: h.pending.insert(request_id@, waiter), ..h }));
    }

    /// Who waits for the answer to a prompt; nobody does afterwards.
    pub fn take_waiter(&mut self, request_id: &str) -> (r: Option<u64>)
        requires
            old(self).wf(),
        ensures
            final(self).wf(),
            final(self)@ == (HubView {
                pending: old(self)@.pending.remove(request_id@),
                ..old(self)@
            }),
            r == (if old(self)@.pending.dom().contains(request_id@) {
                Some(old(self)@.pending[request_id@])
            } else {
                None
            }),
    {
        let ghost h = self@;
        let waiter = self.pending.remove(request_id);
        assert(self@ =~= (HubView { pending: h.pending.remove(request_id@), ..h }));
        waiter
    }

    /// The connection of a worker, if it has one.
    pub fn connection(&self, id: &str) -> (r: Option<u64>)
        requires
            self.wf(),
        ensures
            r == (if self@.streams.dom().contains(id@) {
                Some(self@.streams[id@])
            } else {
                None
            }),
    {
        self.streams.get(id)
    }
}

// ---------------------------------------------------------------------------
// Messages from workers
// ---------------------------------------------------------------------------

/// What has to be done about a worker's message.
pub enum Reaction {
    /// The worker is registered: answer it, and tell the others. From now on
    /// the connection is this worker's.
    Registered {
        /// The worker.
        worker_id: String,
        /// The answer.
        answer: HeartbeatResponse,
        /// What the others are told.
        notices: Vec<Notice>,
    },
    /// The worker was heard from: answer it.
    Heard {
        /// The answer.
        answer: HeartbeatResponse,
        /// Whether this ends the round.
        round_over: bool,
    },
    /// An answer to a prompt: hand it to the one that waits for it.
    Deliver {
        /// Who waits.
        waiter: u64,
        /// The answer.
        response: InferenceResponse,
    },
    /// An answer that nobody waits for: nothing to do.
    NobodyWaits,
    /// A message for another worker: pass it on.
    Forward {
        /// The other worker's connection.
        conn: u64,
        /// The message.
        message: InferenceForward,
    },
    /// A message for a worker that is not connected: nothing to do.
    NoTarget,
    /// A message that workers do not send: nothing to do.
    Unexpected,
}

/// Whether the workers can still be ranked after a message.
pub open spec fn acceptable(h: HubView, message: HubMessage) -> bool {
    match message {
        HubMessage::Register(info) => rankable(upserted(h.workers, info@)),
        HubMessage::Heartbeat(hb) => rankable(with_heartbeat(h.workers, hb@)),
        _ => true,
    }
}

/// Whether a message over a connection turns one memory into another, and
/// calls for a reaction.
pub open spec fn handled(
    h: HubView,
    conn: u64,
    message: HubMessage,
    after: HubView,
    reaction: Reaction,
) -> bool {
    match message {
        HubMessage::Register(info) => {
            &&& after == registered(h, conn, info@)
            &&& reaction matches Reaction::Registered { worker_id, answer, notices }
            &&& worker_id@ == info@.id
            &&& answer@ == registration_answer(h, conn, info@)
            &&& updates_except(after, info@.id, notices@)
        },
        HubMessage::Heartbeat(hb) => {
            &&& after == heard_from(h, hb@)
            &&& reaction matches Reaction::Heard { answer, round_over }
            &&& answer@ == heartbeat_answer(after, hb@)
            &&& round_over == ends_round(after, hb@.worker_id)
        },
        HubMessage::InferenceResponse(resp) => {
            &&& after == (HubView { pending: h.pending.remove(resp@.id), ..h })
            &&& if h.pending.dom().contains(resp@.id) {
                &&& reaction matches Reaction::Deliver { waiter, response }
                &&& waiter == h.pending[resp@.id]
                &&& response@ == resp@
            } else {
                reaction is NobodyWaits
            }
        },
        HubMessage::InferenceForward(fwd) => {
            &&& after == h
            &&& if h.streams.dom().contains(fwd@.to_worker) {
                &&& reaction matches Reaction::Forward { conn: target, message: passed }
                &&& target == h.streams[fwd@.to_worker]
                &&& passed@ == fwd@
            } else {
                reaction is NoTarget
            }
        },
        _ => after == h && reaction is Unexpected,
    }
}

impl Hub {
    /// Whether the workers can still be ranked after a message.
    pub fn can_handle(&self, message: &HubMessage) -> (r: bool)
        requires
            self.wf(),
        ensures
            r == acceptable(self@, *message),
    {
        match message {
            HubMessage::Register(info) => self.can_register(info),
            HubMessage::Heartbeat(hb) => self.can_hear(hb),
            _ => true,
        }
    }

    /// Takes a worker's message in, and says what has to be done about it.
    pub fn handle_message(&mut self, conn: u64, message: HubMessage) -> (r: Reaction)
        requires
            old(self).wf(),
            acceptable(old(self)@, message),
        ensures
            final(self).wf(),
            handled(old(self)@, conn, message, final(self)@, r),
    {
        match message {
            HubMessage::Register(info) => {
                let worker_id = info.id.clone();
                let (answer, notices) = self.register(conn, info);
                Reaction::Registered { worker_id, answer, notices }
            },
            HubMessage::Heartbeat(hb) => {
                let (answer, round_over) = self.heartbeat(&hb);
                Reaction::Heard { answer, round_over }
            },
            HubMessage::InferenceResponse(response) => match self.take_waiter(
                response.id.as_str(),
            ) {
                Some(waiter) => Reaction::Deliver { waiter, response },
                None => Reaction::NobodyWaits,
            },
            HubMessage::InferenceForward(message) => match self.connection(
                message.to_worker.as_str(),
            ) {
                Some(conn) => Reaction::Forward { conn, message },
                None => Reaction::NoTarget,
            },
            _ => Reaction::Unexpected,
        }
    }

    /// A connection closed. Whose it was is forgotten, if it was anybody's.
    pub fn connection_closed(&mut self, worker_id: &Option<String>)
        requires
            old(self).wf(),
        ensures
            final(self).wf(),
            final(self)@ == (match opt_text(*worker_id) {
                Some(id) => left(old(self)@, id),
                None => old(self)@,
            }),
    {
        if let Some(id) = worker_id {
            self.disconnect(id.as_str());
        }
    }
}

// ---------------------------------------------------------------------------
// The model
// ---------------------------------------------------------------------------

/// The memory after the model was changed.
pub open spec fn model_changed(
    h: HubView,
    name: Seq<char>,
    num_layers: usize,
    url: Seq<char>,
) -> HubView {
    HubView { model: ModelView { name, num_layers, ..h.model }, model_url: url, ..h }
}

impl Hub {
    /// Serves another model. Workers keep their layers until they register
    /// again.
    pub fn set_model(&mut self, name: String, num_layers: usize, url: String)
        requires
            old(self).wf(),
        ensures
            final(self).wf(),
            final(self)@ == model_changed(old(self)@, name@, num_layers, url@),
    {
        let ghost h = self@;
        self.model.name = name;
        self.model.num_layers = num_layers;
        self.model_url = url;
        assert(self@ =~= model_changed(h, name@, num_layers, url@));
    }

    /// Keeps the fingerprint of the model.
    pub fn set_model_hash(&mut self, hash: String)
        requires
            old(self).wf(),
        ensures
            final(self).wf(),
            final(self)@ == (HubView { model_hash: hash@, ..old(self)@ }),
    {
        let ghost h = self@;
        self.model_hash = hash;
        assert(self@ =~= (HubView { model_hash: hash@, ..h }));
    }

    /// The model that is served.
    pub fn model(&self) -> (r: &ModelConfig)
        ensures
            r@ == self@.model,
    {
        &self.model
    }

    /// The name under which clients are told of the model.
    pub fn model_alias(&self) -> (r: &str)
        ensures
            r@ == self@.model_alias,
    {
        self.model_alias.as_str()
    }

    /// Where the hub itself gets the model.
    pub fn model_url(&self) -> (r: &str)
        ensures
            r@ == self@.model_url,
    {
        self.model_url.as_str()
    }

    /// The registered workers.
    pub fn workers(&self) -> (r: &Vec<WorkerInfo>)
        ensures
            worker_views(r@) == self@.workers,
    {
        &self.workers
    }

    /// The pipeline with the address from which the hub gets the model.
    pub fn pipeline_status(&self) -> (r: PipelineInfo)
        requires
            self.wf(),
        ensures
            r@ == pipeline_of(
                self@.workers,
                self@.model.name,
                self@.model_url,
                self@.model.num_layers,
            ),
    {
        build_pipeline_info(
            self.workers.as_slice(),
            self.model.name.as_str(),
            self.model_url.as_str(),
            self.model.num_layers,
        )
    }
}

/// The layers that a list of assignments gives to a worker.
fn find_layers(
    dealt: &Vec<(String, usize, usize)>,
    id: &str,
    Ghost(workers): Ghost<Seq<WorkerView>>,
    Ghost(total): Ghost<int>,
) -> (r: (usize, usize))
    requires
        dealt@.map_values(|a: (String, usize, usize)| assignment_view(a)) == assignments(
            workers,
            total,
        ),
    ensures
        r == layers_for(workers, total, id@),
{
    let ghost list = assignments(workers, total);
    let ghost ranking = ranked(workers);
    proof {
        lemma_ranked_in_order(workers);
        lemma_worker_at(ranking, id@);
    }
    let n: usize = dealt.len();
    assert(n == list.len());
    for i in 0..n
        invariant
            n == dealt@.len(),
            n == list.len(),
            list == assignments(workers, total),
            list == dealt@.map_values(|a: (String, usize, usize)| assignment_view(a)),
            ranking == ranked(workers),
            ranking.len() == workers.len(),
            n == workers.len(),
            forall|k: int| 0 <= k < i ==> (#[trigger] ranking[k]).id != id@,
            0 <= worker_at(ranking, id@) <= ranking.len(),
            worker_at(ranking, id@) < n ==> ranking[worker_at(ranking, id@)].id == id@,
            forall|j: int|
                0 <= j < worker_at(ranking, id@) ==> (#[trigger] ranking[j]).id != id@,
    {
        assert(list[i as int] == assignment_view(dealt@[i as int]));
        if same_text(dealt[i].0.as_str(), id) {
            assert(ranking[i as int].id == id@);
            return (dealt[i].1, dealt[i].2);
        }
    }
    (0, 0)
}

/// A worker on the list gets layers that end where layers can end.
proof fn lemma_layers_within(workers: Seq<WorkerView>, total: int, id: Seq<char>)
    requires
        workers.len() > 0,
        0 <= total <= usize::MAX,
    ensures
        layers_for(workers, total, id).0 + layers_for(workers, total, id).1 <= total,
{
    let n = workers.len() as int;
    let p = worker_at(ranked(workers), id);
    lemma_worker_at(ranked(workers), id);
    lemma_layers_partitioned(total, n);
    if p < n {
        lemma_layers_bounded(p, total, n);
        lemma_layers_bounded(p + 1, total, n);
        assert(first_layer(p, total, n) + share(p, total, n) == first_layer(p + 1, total, n));
        assert(share(p, total, n) >= 0);
    }
}

} // verus!
