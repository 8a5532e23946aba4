//! What a worker does about the hub's messages.

use vstd::prelude::*;

use crate::message::{HeartbeatView, HubMessage, WorkerHeartbeat, WorkerInfo, WorkerView};

verus! {

/// The load that a worker reports: one half as a single-precision number.
pub const REPORTED_LOAD: u32 = 0x3f000000;

/// A worker's sign of life.
pub open spec fn sign_of_life(info: WorkerView) -> HeartbeatView {
    HeartbeatView {
        worker_id: info.id,
        load: REPORTED_LOAD,
        layer_offset: info.layer_offset,
        num_layers: info.num_layers,
        has_gpu: info.has_gpu,
        vram_gb: info.vram_gb,
        active: true,
        last_hop_connected: false,
        next_hop_connected: false,
    }
}

/// The answer to a message of the hub: a sign of life where the hub asks for
/// one, nothing otherwise.
pub fn worker_answer(info: &WorkerInfo, message: &HubMessage) -> (r: Option<WorkerHeartbeat>)
    ensures
        r is Some <==> *message is Heartbeat,
        r matches Some(hb) ==> hb@ == sign_of_life(info@),
{
    match message {
        HubMessage::Heartbeat(_) => Some(
            WorkerHeartbeat {
                worker_id: info.id.clone(),
                load: REPORTED_LOAD,
                layer_offset: info.layer_offset,
                num_layers: info.num_layers,
                has_gpu: info.has_gpu,
                vram_gb: info.vram_gb,
                active: true,
                last_hop_connected: false,
                next_hop_connected: false,
            },
        ),
        _ => None,
    }
}

/// A sign of life is the worker's own, with its own layers and VRAM.
pub proof fn lemma_sign_of_life(info: WorkerView)
    ensures
        sign_of_life(info).worker_id == info.id,
        sign_of_life(info).layer_offset == info.layer_offset,
        sign_of_life(info).num_layers == info.num_layers,
        sign_of_life(info).has_gpu == info.has_gpu,
        sign_of_life(info).vram_gb == info.vram_gb,
        sign_of_life(info).active,
        sign_of_life(info).load == 0x3f00_0000,
        !sign_of_life(info).last_hop_connected,
        !sign_of_life(info).next_hop_connected,
{
}

} // verus!
