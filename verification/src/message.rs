//! What hub and workers tell each other.

use vstd::prelude::*;
use vstd::slice::slice_to_vec;

use crate::text::texts;

verus! {

/// The version of the protocol between hub and workers.
pub const PROTOCOL_VERSION: &'static str = "1.0";

/// The characters of a string that may be missing.
pub open spec fn opt_text(s: Option<String>) -> Option<Seq<char>> {
    match s {
        Some(x) => Some(x@),
        None => None,
    }
}

/// The items of a list that may be missing.
pub open spec fn opt_seq(s: Option<Vec<u32>>) -> Option<Seq<u32>> {
    match s {
        Some(x) => Some(x@),
        None => None,
    }
}

/// A copy of a string that may be missing.
pub fn clone_opt_text(s: &Option<String>) -> (r: Option<String>)
    ensures
        opt_text(r) == opt_text(*s),
{
    match s {
        Some(x) => Some(x.clone()),
        None => None,
    }
}

/// A copy of a list of strings.
pub fn clone_texts(v: &Vec<String>) -> (r: Vec<String>)
    ensures
        texts(r@) == texts(v@),
{
    let mut out: Vec<String> = Vec::new();
    for i in 0..v.len()
        invariant
            out@.len() == i,
            forall|j: int| 0 <= j < i ==> out@[j]@ == #[trigger] v@[j]@,
    {
        out.push(v[i].clone());
    }
    assert(texts(out@) =~= texts(v@));
    out
}

fn clone_workers(v: &Vec<PipelineWorker>) -> (r: Vec<PipelineWorker>)
    ensures
        r@.map_values(|x: PipelineWorker| x@) == v@.map_values(|x: PipelineWorker| x@),
{
    let mut out: Vec<PipelineWorker> = Vec::new();
    for i in 0..v.len()
        invariant
            out@.len() == i,
            forall|j: int| 0 <= j < i ==> out@[j]@ == #[trigger] v@[j]@,
    {
        out.push(v[i].clone());
    }
    assert(out@.map_values(|x: PipelineWorker| x@) =~= v@.map_values(|x: PipelineWorker| x@));
    out
}

/// A worker as the hub knows it. VRAM and load are single-precision numbers,
/// kept as their bit patterns.
#[derive(Debug)]
pub struct WorkerInfo {
    /// The name under which the worker is known.
    pub id: String,
    /// A name for people.
    pub name: String,
    /// The first layer that it runs.
    pub layer_offset: usize,
    /// How many layers it runs.
    pub num_layers: usize,
    /// Its VRAM in gigabytes.
    pub vram_gb: u32,
    /// Whether it has a GPU.
    pub has_gpu: bool,
    /// Its load.
    pub load: u32,
    /// Whether it is working.
    pub active: bool,
    /// Its address in the tunnel.
    pub wg_ip: String,
    /// Its peer in the tunnel.
    pub wg_peer_id: String,
    /// The models that it holds.
    pub models: Vec<String>,
    /// The port at which it takes calls.
    pub rpc_port: u16,
}

/// What [`WorkerInfo`] holds.
#[verifier::ext_equal]
pub struct WorkerView {
    pub id: Seq<char>,
    pub name: Seq<char>,
    pub layer_offset: usize,
    pub num_layers: usize,
    pub vram_gb: u32,
    pub has_gpu: bool,
    pub load: u32,
    pub active: bool,
    pub wg_ip: Seq<char>,
    pub wg_peer_id: Seq<char>,
    pub models: Seq<Seq<char>>,
    pub rpc_port: u16,
}

impl View for WorkerInfo {
    type V = WorkerView;

    open spec fn view(&self) -> WorkerView {
        WorkerView {
            id: self.id@,
            name: self.name@,
            layer_offset: self.layer_offset,
            num_layers: self.num_layers,
            vram_gb: self.vram_gb,
            has_gpu: self.has_gpu,
            load: self.load,
            active: self.active,
            wg_ip: self.wg_ip@,
            wg_peer_id: self.wg_peer_id@,
            models: texts(self.models@),
            rpc_port: self.rpc_port,
        }
    }
}

impl Clone for WorkerInfo {
    fn clone(&self) -> (r: Self)
        ensures
            r@ == self@,
    {
        WorkerInfo {
            id: self.id.clone(),
            name: self.name.clone(),
            layer_offset: self.layer_offset,
            num_layers: self.num_layers,
            vram_gb: self.vram_gb,
            has_gpu: self.has_gpu,
            load: self.load,
            active: self.active,
            wg_ip: self.wg_ip.clone(),
            wg_peer_id: self.wg_peer_id.clone(),
            models: clone_texts(&self.models),
            rpc_port: self.rpc_port,
        }
    }
}

/// A prompt for the first worker. The temperature is a single-precision number,
/// kept as its bit pattern.
#[derive(Debug)]
pub struct InferenceRequest {
    pub id: String,
    pub tokens: Vec<i64>,
    pub is_first: bool,
    pub is_last: bool,
    pub max_new_tokens: usize,
    pub temperature: u32,
    pub prompt: Option<String>,
}

/// What [`InferenceRequest`] holds.
#[verifier::ext_equal]
pub struct InferenceRequestView {
    pub id: Seq<char>,
    pub tokens: Seq<i64>,
    pub is_first: bool,
    pub is_last: bool,
    pub max_new_tokens: usize,
    pub temperature: u32,
    pub prompt: Option<Seq<char>>,
}

impl View for InferenceRequest {
    type V = InferenceRequestView;

    open spec fn view(&self) -> InferenceRequestView {
        InferenceRequestView {
            id: self.id@,
            tokens: self.tokens@,
            is_first: self.is_first,
            is_last: self.is_last,
            max_new_tokens: self.max_new_tokens,
            temperature: self.temperature,
            prompt: opt_text(self.prompt),
        }
    }
}

impl Clone for InferenceRequest {
    fn clone(&self) -> (r: Self)
        ensures
            r@ == self@,
    {
        InferenceRequest {
            id: self.id.clone(),
            tokens: slice_to_vec(self.tokens.as_slice()),
            is_first: self.is_first,
            is_last: self.is_last,
            max_new_tokens: self.max_new_tokens,
            temperature: self.temperature,
            prompt: clone_opt_text(&self.prompt),
        }
    }
}

/// What a worker made of a prompt. Hidden states are single-precision numbers,
/// kept as their bit patterns.
#[derive(Debug)]
pub struct InferenceResponse {
    pub id: String,
    pub token: Option<i64>,
    pub hidden_states: Option<Vec<u32>>,
    pub is_done: bool,
    pub text: Option<String>,
    pub prompt_tokens: usize,
    pub completion_tokens: usize,
}

/// What [`InferenceResponse`] holds.
#[verifier::ext_equal]
pub struct InferenceResponseView {
    pub id: Seq<char>,
    pub token: Option<i64>,
    pub hidden_states: Option<Seq<u32>>,
    pub is_done: bool,
    pub text: Option<Seq<char>>,
    pub prompt_tokens: usize,
    pub completion_tokens: usize,
}

impl View for InferenceResponse {
    type V = InferenceResponseView;

    open spec fn view(&self) -> InferenceResponseView {
        InferenceResponseView {
            id: self.id@,
            token: self.token,
            hidden_states: opt_seq(self.hidden_states),
            is_done: self.is_done,
            text: opt_text(self.text),
            prompt_tokens: self.prompt_tokens,
            completion_tokens: self.completion_tokens,
        }
    }
}

impl Clone for InferenceResponse {
    fn clone(&self) -> (r: Self)
        ensures
            r@ == self@,
    {
        InferenceResponse {
            id: self.id.clone(),
            token: self.token,
            hidden_states: match &self.hidden_states {
                Some(x) => Some(slice_to_vec(x.as_slice())),
                None => None,
            },
            is_done: self.is_done,
            text: clone_opt_text(&self.text),
            prompt_tokens: self.prompt_tokens,
            completion_tokens: self.completion_tokens,
        }
    }
}

/// A message from one worker to another, through the hub.
#[derive(Debug)]
pub struct InferenceForward {
    pub from_worker: String,
    pub to_worker: String,
    pub data: String,
}

/// What [`InferenceForward`] holds.
#[verifier::ext_equal]
pub struct InferenceForwardView {
    pub from_worker: Seq<char>,
    pub to_worker: Seq<char>,
    pub data: Seq<char>,
}

impl View for InferenceForward {
    type V = InferenceForwardView;

    open spec fn view(&self) -> InferenceForwardView {
        InferenceForwardView {
            from_worker: self.from_worker@,
            to_worker: self.to_worker@,
            data: self.data@,
        }
    }
}

impl Clone for InferenceForward {
    fn clone(&self) -> (r: Self)
        ensures
            r@ == self@,
    {
        InferenceForward {
            from_worker: self.from_worker.clone(),
            to_worker: self.to_worker.clone(),
            data: self.data.clone(),
        }
    }
}

/// Where a neighbour in the pipeline is reached.
#[derive(Debug)]
pub struct HopInfo {
    pub worker_id: String,
    pub host: String,
    pub port: u16,
}

/// What [`HopInfo`] holds.
#[verifier::ext_equal]
pub struct HopView {
    pub worker_id: Seq<char>,
    pub host: Seq<char>,
    pub port: u16,
}

impl View for HopInfo {
    type V = HopView;

    open spec fn view(&self) -> HopView {
        HopView {
            worker_id: self.worker_id@,
            host: self.host@,
            port: self.port,
        }
    }
}

impl Clone for HopInfo {
    fn clone(&self) -> (r: Self)
        ensures
            r@ == self@,
    {
        HopInfo {
            worker_id: self.worker_id.clone(),
            host: self.host.clone(),
            port: self.port,
        }
    }
}

/// A worker's place in the pipeline, as the hub hands it out.
#[derive(Debug)]
pub struct HubInitiate {
    pub worker_id: String,
    pub layer_offset: usize,
    pub num_layers: usize,
    pub next_hop: Option<HopInfo>,
}

/// What [`HubInitiate`] holds.
#[verifier::ext_equal]
pub struct HubInitiateView {
    pub worker_id: Seq<char>,
    pub layer_offset: usize,
    pub num_layers: usize,
    pub next_hop: Option<HopView>,
}

impl View for HubInitiate {
    type V = HubInitiateView;

    open spec fn view(&self) -> HubInitiateView {
        HubInitiateView {
            worker_id: self.worker_id@,
            layer_offset: self.layer_offset,
            num_layers: self.num_layers,
            next_hop: match self.next_hop {
                Some(x) => Some(x@),
                None => None,
            },
        }
    }
}

impl Clone for HubInitiate {
    fn clone(&self) -> (r: Self)
        ensures
            r@ == self@,
    {
        HubInitiate {
            worker_id: self.worker_id.clone(),
            layer_offset: self.layer_offset,
            num_layers: self.num_layers,
            next_hop: match &self.next_hop {
                Some(x) => Some(x.clone()),
                None => None,
            },
        }
    }
}

/// One worker of a pipeline.
#[derive(Debug)]
pub struct PipelineWorker {
    pub worker_id: String,
    pub layer_offset: usize,
    pub num_layers: usize,
    pub last_hop: Option<HopInfo>,
    pub next_hop: Option<HopInfo>,
    pub is_first: bool,
    pub is_last: bool,
}

/// What [`PipelineWorker`] holds.
#[verifier::ext_equal]
pub struct PipelineWorkerView {
    pub worker_id: Seq<char>,
    pub layer_offset: usize,
    pub num_layers: usize,
    pub last_hop: Option<HopView>,
    pub next_hop: Option<HopView>,
    pub is_first: bool,
    pub is_last: bool,
}

impl View for PipelineWorker {
    type V = PipelineWorkerView;

    open spec fn view(&self) -> PipelineWorkerView {
        PipelineWorkerView {
            worker_id: self.worker_id@,
            layer_offset: self.layer_offset,
            num_layers: self.num_layers,
            last_hop: match self.last_hop {
                Some(x) => Some(x@),
                None => None,
            },
            next_hop: match self.next_hop {
                Some(x) => Some(x@),
                None => None,
            },
            is_first: self.is_first,
            is_last: self.is_last,
        }
    }
}

impl Clone for PipelineWorker {
    fn clone(&self) -> (r: Self)
        ensures
            r@ == self@,
    {
        PipelineWorker {
            worker_id: self.worker_id.clone(),
            layer_offset: self.layer_offset,
            num_layers: self.num_layers,
            last_hop: match &self.last_hop {
                Some(x) => Some(x.clone()),
                None => None,
            },
            next_hop: match &self.next_hop {
                Some(x) => Some(x.clone()),
                None => None,
            },
            is_first: self.is_first,
            is_last: self.is_last,
        }
    }
}

/// The workers in the order in which the layers run.
#[derive(Debug)]
pub struct PipelineInfo {
    pub pipeline_id: String,
    pub workers: Vec<PipelineWorker>,
    pub model_name: String,
    pub model_url: String,
    pub num_layers: usize,
}

/// What [`PipelineInfo`] holds.
#[verifier::ext_equal]
pub struct PipelineView {
    pub pipeline_id: Seq<char>,
    pub workers: Seq<PipelineWorkerView>,
    pub model_name: Seq<char>,
    pub model_url: Seq<char>,
    pub num_layers: usize,
}

impl View for PipelineInfo {
    type V = PipelineView;

    open spec fn view(&self) -> PipelineView {
        PipelineView {
            pipeline_id: self.pipeline_id@,
            workers: self.workers@.map_values(|x: PipelineWorker| x@),
            model_name: self.model_name@,
            model_url: self.model_url@,
            num_layers: self.num_layers,
        }
    }
}

impl Clone for PipelineInfo {
    fn clone(&self) -> (r: Self)
        ensures
            r@ == self@,
    {
        PipelineInfo {
            pipeline_id: self.pipeline_id.clone(),
            workers: clone_workers(&self.workers),
            model_name: self.model_name.clone(),
            model_url: self.model_url.clone(),
            num_layers: self.num_layers,
        }
    }
}

/// A worker's sign of life. Load and VRAM are single-precision numbers, kept as
/// their bit patterns.
#[derive(Debug)]
pub struct WorkerHeartbeat {
    pub worker_id: String,
    pub load: u32,
    pub layer_offset: usize,
    pub num_layers: usize,
    pub has_gpu: bool,
    pub vram_gb: u32,
    pub active: bool,
    pub last_hop_connected: bool,
    pub next_hop_connected: bool,
}

/// What [`WorkerHeartbeat`] holds.
#[verifier::ext_equal]
pub struct HeartbeatView {
    pub worker_id: Seq<char>,
    pub load: u32,
    pub layer_offset: usize,
    pub num_layers: usize,
    pub has_gpu: bool,
    pub vram_gb: u32,
    pub active: bool,
    pub last_hop_connected: bool,
    pub next_hop_connected: bool,
}

impl View for WorkerHeartbeat {
    type V = HeartbeatView;

    open spec fn view(&self) -> HeartbeatView {
        HeartbeatView {
            worker_id: self.worker_id@,
            load: self.load,
            layer_offset: self.layer_offset,
            num_layers: self.num_layers,
            has_gpu: self.has_gpu,
            vram_gb: self.vram_gb,
            active: self.active,
            last_hop_connected: self.last_hop_connected,
            next_hop_connected: self.next_hop_connected,
        }
    }
}

impl Clone for WorkerHeartbeat {
    fn clone(&self) -> (r: Self)
        ensures
            r@ == self@,
    {
        WorkerHeartbeat {
            worker_id: self.worker_id.clone(),
            load: self.load,
            layer_offset: self.layer_offset,
            num_layers: self.num_layers,
            has_gpu: self.has_gpu,
            vram_gb: self.vram_gb,
            active: self.active,
            last_hop_connected: self.last_hop_connected,
            next_hop_connected: self.next_hop_connected,
        }
    }
}

/// The hub's answer to a sign of life or a registration.
#[derive(Debug)]
pub struct HeartbeatResponse {
    pub layer_offset: usize,
    pub num_layers: usize,
    pub reassign: bool,
    pub model_name: String,
    pub model_url: String,
    pub model_hash: String,
    pub pipeline: Option<PipelineInfo>,
}

/// What [`HeartbeatResponse`] holds.
#[verifier::ext_equal]
pub struct HeartbeatResponseView {
    pub layer_offset: usize,
    pub num_layers: usize,
    pub reassign: bool,
    pub model_name: Seq<char>,
    pub model_url: Seq<char>,
    pub model_hash: Seq<char>,
    pub pipeline: Option<PipelineView>,
}

impl View for HeartbeatResponse {
    type V = HeartbeatResponseView;

    open spec fn view(&self) -> HeartbeatResponseView {
        HeartbeatResponseView {
            layer_offset: self.layer_offset,
            num_layers: self.num_layers,
            reassign: self.reassign,
            model_name: self.model_name@,
            model_url: self.model_url@,
            model_hash: self.model_hash@,
            pipeline: match self.pipeline {
                Some(x) => Some(x@),
                None => None,
            },
        }
    }
}

impl Clone for HeartbeatResponse {
    fn clone(&self) -> (r: Self)
        ensures
            r@ == self@,
    {
        HeartbeatResponse {
            layer_offset: self.layer_offset,
            num_layers: self.num_layers,
            reassign: self.reassign,
            model_name: self.model_name.clone(),
            model_url: self.model_url.clone(),
            model_hash: self.model_hash.clone(),
            pipeline: match &self.pipeline {
                Some(x) => Some(x.clone()),
                None => None,
            },
        }
    }
}

/// The model that the hub serves.
#[derive(Debug)]
pub struct ModelConfig {
    pub name: String,
    pub num_layers: usize,
    pub hidden_size: usize,
    pub num_heads: usize,
    pub vocab_size: usize,
}

/// What [`ModelConfig`] holds.
#[verifier::ext_equal]
pub struct ModelView {
    pub name: Seq<char>,
    pub num_layers: usize,
    pub hidden_size: usize,
    pub num_heads: usize,
    pub vocab_size: usize,
}

impl View for ModelConfig {
    type V = ModelView;

    open spec fn view(&self) -> ModelView {
        ModelView {
            name: self.name@,
            num_layers: self.num_layers,
            hidden_size: self.hidden_size,
            num_heads: self.num_heads,
            vocab_size: self.vocab_size,
        }
    }
}

impl Clone for ModelConfig {
    fn clone(&self) -> (r: Self)
        ensures
            r@ == self@,
    {
        ModelConfig {
            name: self.name.clone(),
            num_layers: self.num_layers,
            hidden_size: self.hidden_size,
            num_heads: self.num_heads,
            vocab_size: self.vocab_size,
        }
    }
}

/// One message on the wire.
#[derive(Debug)]
pub enum HubMessage {
    /// A worker reports for work.
    Register(WorkerInfo),
    /// A prompt to work on.
    InferenceRequest(InferenceRequest),
    /// What came of a prompt.
    InferenceResponse(InferenceResponse),
    /// A message for another worker.
    InferenceForward(InferenceForward),
    /// A sign of life.
    Heartbeat(WorkerHeartbeat),
    /// The answer to a sign of life.
    HeartbeatResponse(HeartbeatResponse),
    /// The pipeline as it stands.
    PipelineInfo(PipelineInfo),
    /// The start of a round of heartbeats.
    HeartbeatForward {
        /// The pipeline along which the round goes.
        pipeline: PipelineInfo,
    },
    /// Something went wrong.
    Error {
        /// What kind of thing.
        code: String,
        /// In words.
        message: String,
    },
}

impl Default for WorkerInfo {
    fn default() -> (r: Self)
        ensures
            r@ == (WorkerView {
                id: seq![],
                name: seq![],
                layer_offset: 0,
                num_layers: 0,
                vram_gb: 0,
                has_gpu: false,
                load: 0,
                active: false,
                wg_ip: seq![],
                wg_peer_id: seq![],
                models: seq![],
                rpc_port: 0,
            }),
    {
        WorkerInfo {
            id: String::new(),
            name: String::new(),
            layer_offset: 0,
            num_layers: 0,
            vram_gb: 0,
            has_gpu: false,
            load: 0,
            active: false,
            wg_ip: String::new(),
            wg_peer_id: String::new(),
            models: Vec::new(),
            rpc_port: 0,
        }
    }
}

impl Default for ModelConfig {
    fn default() -> (r: Self)
        ensures
            r@ == (ModelView {
                name: "unknown"@,
                num_layers: 32,
                hidden_size: 4096,
                num_heads: 32,
                vocab_size: 32000,
            }),
    {
        ModelConfig {
            name: "unknown".to_string(),
            num_layers: 32,
            hidden_size: 4096,
            num_heads: 32,
            vocab_size: 32000,
        }
    }
}

} // verus!
