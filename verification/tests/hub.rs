use akai_net::api::{begin_chat, read_chat_request, ChatStart};
use akai_net::hub::{model_proxy_url, FirstWorker, Hub, Reaction, RoundStart};
use akai_net::message::{
    HeartbeatResponse, HubMessage, InferenceForward, InferenceResponse, ModelConfig,
    WorkerHeartbeat, WorkerInfo,
};
use akai_net::settings::{worker_settings, WorkerEnv};
use akai_net::worker::worker_answer;

fn hub() -> Hub {
    let model = ModelConfig { name: "m".to_string(), num_layers: 32, ..Default::default() };
    Hub::new(
        model,
        "alias".to_string(),
        "http://source".to_string(),
        "10.8.0.1:8080".to_string(),
    )
}

fn worker(id: &str, vram_gb: f32) -> WorkerInfo {
    WorkerInfo {
        id: id.to_string(),
        has_gpu: vram_gb > 0.0,
        vram_gb: vram_gb.to_bits(),
        ..Default::default()
    }
}

fn beat(id: &str, vram_gb: f32, layer_offset: usize, num_layers: usize) -> WorkerHeartbeat {
    WorkerHeartbeat {
        worker_id: id.to_string(),
        load: 0.25f32.to_bits(),
        layer_offset,
        num_layers,
        has_gpu: vram_gb > 0.0,
        vram_gb: vram_gb.to_bits(),
        active: true,
        last_hop_connected: true,
        next_hop_connected: false,
    }
}

fn response(id: &str) -> InferenceResponse {
    InferenceResponse {
        id: id.to_string(),
        token: None,
        hidden_states: None,
        is_done: true,
        text: Some("hi".to_string()),
        prompt_tokens: 1,
        completion_tokens: 2,
    }
}

fn chain(answer: &HeartbeatResponse) -> Vec<(String, usize, usize)> {
    let p = answer.pipeline.as_ref().unwrap();
    p.workers.iter().map(|w| (w.worker_id.clone(), w.layer_offset, w.num_layers)).collect()
}

fn ids(hub: &Hub) -> Vec<String> {
    hub.workers().iter().map(|w| w.id.clone()).collect()
}

#[test]
fn where_the_model_is() {
    assert_eq!(model_proxy_url("10.8.0.1:8080"), "http://10.8.0.1:8080/model/download");
}

#[test]
fn registering_deals_out_layers() {
    let mut h = hub();
    let (answer, notices) = h.register(1, worker("a", 8.0));
    assert_eq!((answer.layer_offset, answer.num_layers, answer.reassign), (0, 32, false));
    assert_eq!(answer.model_name, "m");
    assert_eq!(answer.model_url, "http://10.8.0.1:8080/model/download");
    assert_eq!(answer.model_hash, "");
    assert!(notices.is_empty());

    h.set_model_hash("f00".to_string());
    let (answer, notices) = h.register(2, worker("b", 0.0));
    assert_eq!((answer.layer_offset, answer.num_layers), (0, 16));
    assert_eq!(answer.model_hash, "f00");
    assert_eq!(chain(&answer), vec![("b".to_string(), 0, 16), ("a".to_string(), 0, 32)]);
    assert_eq!(notices.len(), 1);
    assert_eq!((notices[0].worker_id.as_str(), notices[0].conn), ("a", 1));
    let message = &notices[0].message;
    assert_eq!((message.layer_offset, message.num_layers, message.reassign), (0, 32, false));
    assert_eq!(message.model_hash, "");
    assert_eq!(message.model_url, "http://10.8.0.1:8080/model/download");
    assert_eq!(chain(message), chain(&answer));
}

#[test]
fn registering_again_replaces() {
    let mut h = hub();
    h.register(1, worker("a", 8.0));
    h.register(2, worker("b", 16.0));
    let (answer, notices) = h.register(3, worker("a", 24.0));
    assert_eq!(ids(&h), vec!["a", "b"]);
    assert_eq!(h.connection("a"), Some(3));
    assert_eq!((answer.layer_offset, answer.num_layers), (16, 16));
    assert_eq!(notices.len(), 1);
    assert_eq!(notices[0].worker_id, "b");
}

#[test]
fn a_worker_that_comes_and_goes_leaves_nothing() {
    let mut h = hub();
    h.register(1, worker("a", 8.0));
    h.register(2, worker("b", 16.0));
    h.connection_closed(&Some("b".to_string()));
    assert_eq!(ids(&h), vec!["a"]);
    assert_eq!(h.connection("b"), None);
    assert_eq!(h.connection("a"), Some(1));
    h.connection_closed(&None);
    assert_eq!(ids(&h), vec!["a"]);
    h.disconnect("nobody");
    assert_eq!(ids(&h), vec!["a"]);
}

#[test]
fn signs_of_life_are_answered() {
    let mut h = hub();
    h.register(1, worker("a", 8.0));
    h.register(2, worker("b", 0.0));
    let (answer, over) = h.heartbeat(&beat("a", 8.0, 5, 6));
    assert!(over);
    assert_eq!((answer.layer_offset, answer.num_layers, answer.reassign), (0, 32, true));
    let (answer, over) = h.heartbeat(&beat("a", 8.0, answer.layer_offset, answer.num_layers));
    assert!(over);
    assert_eq!((answer.layer_offset, answer.num_layers, answer.reassign), (0, 32, false));
    let (_, over) = h.heartbeat(&beat("b", 0.0, 0, 16));
    assert!(!over);
    let (answer, over) = h.heartbeat(&beat("b", 64.0, 0, 16));
    assert!(over);
    assert_eq!(chain(&answer)[1].0, "b");
    assert_eq!(f32::from_bits(h.workers()[1].load), 0.25);
    assert!(h.workers()[1].active);
}

#[test]
fn hearing_twice_is_hearing_once() {
    let mut h = hub();
    h.register(1, worker("a", 8.0));
    let (one, _) = h.heartbeat(&beat("a", 24.0, 0, 32));
    let (two, _) = h.heartbeat(&beat("a", 24.0, 0, 32));
    assert_eq!(format!("{:?}", one), format!("{:?}", two));
    assert_eq!(f32::from_bits(h.workers()[0].vram_gb), 24.0);
}

#[test]
fn a_stranger_is_told_what_it_said() {
    let mut h = hub();
    let (answer, over) = h.heartbeat(&beat("x", 8.0, 5, 6));
    assert!(!over);
    assert!(answer.pipeline.is_none());
    assert_eq!((answer.layer_offset, answer.num_layers, answer.reassign), (5, 6, false));
    h.register(1, worker("a", 8.0));
    let (answer, _) = h.heartbeat(&beat("x", 8.0, 5, 6));
    assert_eq!((answer.layer_offset, answer.num_layers, answer.reassign), (5, 6, false));
    assert_eq!(answer.pipeline.unwrap().workers.len(), 1);
}

#[test]
fn four_missed_heartbeats_remove_a_worker() {
    let mut h = hub();
    let mut a = worker("a", 8.0);
    a.wg_peer_id = "peer-a".to_string();
    h.register(1, a);
    h.register(2, worker("b", 16.0));
    let nobody = h.close_round("pw");
    assert!(nobody.is_empty());
    assert!(h.reassignment_notices(&nobody).is_empty());
    for _ in 0..3 {
        h.heartbeat(&beat("b", 16.0, 0, 16));
        assert!(h.close_round("pw").is_empty());
        assert_eq!(ids(&h), vec!["a", "b"]);
    }
    h.heartbeat(&beat("b", 16.0, 0, 16));
    let removed = h.close_round("pw");
    assert_eq!(removed.len(), 1);
    assert_eq!(removed[0].worker_id, "a");
    assert_eq!(removed[0].peer.as_deref(), Some("peer-a"));
    assert_eq!(ids(&h), vec!["b"]);
    assert_eq!(h.connection("a"), None);
    let notices = h.reassignment_notices(&removed);
    assert_eq!(notices.len(), 1);
    assert_eq!((notices[0].worker_id.as_str(), notices[0].conn), ("b", 2));
    assert!(notices[0].message.reassign);
    assert_eq!((notices[0].message.layer_offset, notices[0].message.num_layers), (0, 32));
    assert_eq!(chain(&notices[0].message), vec![("b".to_string(), 0, 32)]);
    let (answer, _) = h.heartbeat(&beat("b", 16.0, 0, 32));
    assert_eq!((answer.layer_offset, answer.num_layers, answer.reassign), (0, 32, false));
    let (answer, _) = h.heartbeat(&beat("b", 16.0, 16, 16));
    assert_eq!((answer.layer_offset, answer.num_layers, answer.reassign), (0, 32, true));
}

#[test]
fn layers_are_dealt_out_anew_among_those_that_remain() {
    let mut h = hub();
    for (conn, id, vram) in [(1, "a", 8.0), (2, "b", 24.0), (3, "c", 0.0), (4, "d", 16.0)] {
        h.register(conn, worker(id, vram));
    }
    h.close_round("");
    let mut removed = Vec::new();
    while removed.is_empty() {
        for (id, vram) in [("b", 24.0), ("c", 0.0), ("d", 16.0)] {
            h.heartbeat(&beat(id, vram, 0, 0));
        }
        removed = h.close_round("");
    }
    assert_eq!(removed[0].worker_id, "a");
    let told: Vec<(String, u64, usize, usize)> = h
        .reassignment_notices(&removed)
        .into_iter()
        .map(|n| (n.worker_id, n.conn, n.message.layer_offset, n.message.num_layers))
        .collect();
    assert_eq!(
        told,
        vec![
            ("c".to_string(), 3, 0, 11),
            ("d".to_string(), 4, 11, 11),
            ("b".to_string(), 2, 22, 10),
        ]
    );
    let kept: Vec<(&str, usize, usize)> =
        h.workers().iter().map(|w| (w.id.as_str(), w.layer_offset, w.num_layers)).collect();
    assert_eq!(kept, vec![("b", 22, 10), ("c", 0, 11), ("d", 11, 11)]);
    assert!(h.reassignment_notices(&vec![]).is_empty());
    assert_eq!(h.workers()[0].layer_offset, 22);
}

#[test]
fn a_heartbeat_starts_the_count_again() {
    let mut h = hub();
    h.register(1, worker("a", 8.0));
    h.close_round("");
    for _ in 0..3 {
        h.close_round("");
    }
    h.heartbeat(&beat("a", 8.0, 0, 32));
    for _ in 0..4 {
        assert!(h.close_round("").is_empty());
        assert_eq!(ids(&h), vec!["a"]);
    }
    let removed = h.close_round("");
    assert_eq!(removed.len(), 1);
    assert!(removed[0].peer.is_none());
    assert!(ids(&h).is_empty());
    assert!(matches!(h.round_start(), RoundStart::NoWorkers));
}

#[test]
fn a_peer_is_only_removed_where_that_can_be_done() {
    let mut h = hub();
    let mut a = worker("a", 8.0);
    a.wg_peer_id = "peer-a".to_string();
    h.register(1, a);
    for _ in 0..4 {
        h.close_round("");
    }
    let removed = h.close_round("");
    assert_eq!(removed[0].worker_id, "a");
    assert!(removed[0].peer.is_none());
}

#[test]
fn how_a_round_begins() {
    let mut h = hub();
    assert!(matches!(h.round_start(), RoundStart::NoWorkers));
    assert!(matches!(h.first_worker(), FirstWorker::Missing));
    h.register(1, worker("a", 8.0));
    h.register(2, worker("b", 0.0));
    match h.round_start() {
        RoundStart::Forward { worker_id, conn, pipeline } => {
            assert_eq!((worker_id.as_str(), conn), ("b", 2));
            assert_eq!(pipeline.model_url, "http://10.8.0.1:8080/model/download");
            assert_eq!(pipeline.workers.len(), 2);
        }
        _ => panic!("no round"),
    }
    assert!(matches!(h.first_worker(), FirstWorker::Connected(id, 2) if id == "b"));
}

#[test]
fn messages_are_sorted_out() {
    let mut h = hub();
    match h.handle_message(1, HubMessage::Register(worker("a", 8.0))) {
        Reaction::Registered { worker_id, answer, notices } => {
            assert_eq!(worker_id, "a");
            assert_eq!(answer.num_layers, 32);
            assert!(notices.is_empty());
        }
        _ => panic!("not registered"),
    }
    match h.handle_message(1, HubMessage::Heartbeat(beat("a", 8.0, 0, 32))) {
        Reaction::Heard { answer, round_over } => {
            assert!(round_over);
            assert!(!answer.reassign);
        }
        _ => panic!("not heard"),
    }
    let forward = |to: &str| {
        HubMessage::InferenceForward(InferenceForward {
            from_worker: "x".to_string(),
            to_worker: to.to_string(),
            data: "d".to_string(),
        })
    };
    match h.handle_message(9, forward("a")) {
        Reaction::Forward { conn, message } => {
            assert_eq!(conn, 1);
            assert_eq!((message.from_worker.as_str(), message.data.as_str()), ("x", "d"));
        }
        _ => panic!("not forwarded"),
    }
    assert!(matches!(h.handle_message(9, forward("b")), Reaction::NoTarget));
    let stray = HubMessage::InferenceResponse(response("inf-1"));
    assert!(matches!(h.handle_message(1, stray), Reaction::NobodyWaits));
    let odd = HubMessage::Error { code: "c".to_string(), message: "m".to_string() };
    assert!(h.can_handle(&odd));
    assert!(matches!(h.handle_message(1, odd), Reaction::Unexpected));
}

#[test]
fn answers_are_delivered_once() {
    let mut h = hub();
    h.await_answer("inf-1", 5);
    match h.handle_message(1, HubMessage::InferenceResponse(response("inf-1"))) {
        Reaction::Deliver { waiter, response } => {
            assert_eq!(waiter, 5);
            assert_eq!(response.text.as_deref(), Some("hi"));
        }
        _ => panic!("not delivered"),
    }
    let again = HubMessage::InferenceResponse(response("inf-1"));
    assert!(matches!(h.handle_message(1, again), Reaction::NobodyWaits));
    assert_eq!(h.take_waiter("inf-1"), None);
}

#[test]
fn an_answer_arrives_where_it_is_awaited() {
    let mut h = hub();
    h.register(4, worker("a", 8.0));
    let request = read_chat_request(r#"{"messages":[{"content":"hello"}]}"#);
    match begin_chat(&mut h, &request, 77, 5) {
        ChatStart::Send { conn, request, .. } => {
            assert_eq!(conn, 4);
            assert_eq!(request.id, "inf-77");
        }
        ChatStart::End(_) => panic!("no prompt"),
    }
    let reaction = h.handle_message(4, HubMessage::InferenceResponse(response("inf-77")));
    assert!(matches!(reaction, Reaction::Deliver { waiter: 5, .. }));
}

#[test]
fn what_is_no_number_cannot_be_ranked() {
    let mut h = hub();
    let odd = WorkerInfo {
        id: "n".to_string(),
        has_gpu: true,
        vram_gb: f32::NAN.to_bits(),
        ..Default::default()
    };
    assert!(h.can_register(&odd));
    h.register(1, worker("a", 8.0));
    assert!(!h.can_register(&odd));
    assert!(!h.can_handle(&HubMessage::Register(odd)));
    assert!(h.can_handle(&HubMessage::Register(worker("b", 1.0))));
    h.register(2, worker("b", 1.0));
    assert!(!h.can_hear(&beat_nan("a")));
    assert!(h.can_hear(&beat_nan("stranger")));
    assert!(!h.can_handle(&HubMessage::Heartbeat(beat_nan("a"))));
}

fn beat_nan(id: &str) -> WorkerHeartbeat {
    let mut hb = beat(id, 1.0, 0, 0);
    hb.vram_gb = f32::NAN.to_bits();
    hb
}

#[test]
fn the_pipeline_for_monitoring_names_the_source() {
    let mut h = hub();
    h.register(1, worker("a", 8.0));
    let status = h.pipeline_status();
    assert_eq!(status.model_url, "http://source");
    assert_eq!(status.num_layers, 32);
    h.set_model("n".to_string(), 40, "http://other".to_string());
    assert_eq!(h.model().name, "n");
    assert_eq!(h.model().num_layers, 40);
    assert_eq!(h.model().hidden_size, 4096);
    assert_eq!(h.model_url(), "http://other");
    assert_eq!(h.pipeline_status().num_layers, 40);
    assert_eq!(h.workers()[0].num_layers, 32);
}

#[test]
fn a_worker_answers_heartbeats_only() {
    let info = worker_settings(WorkerEnv {
        hub_addr: None,
        worker_id: Some("w".to_string()),
        has_gpu: Some("true".to_string()),
        vram_gb: 8.0f32.to_bits(),
        layer_offset: Some("3".to_string()),
        num_layers: Some("4".to_string()),
    })
    .info;
    let hb = worker_answer(&info, &HubMessage::Heartbeat(beat("hub", 0.0, 0, 0))).unwrap();
    assert_eq!(hb.worker_id, "w");
    assert_eq!(f32::from_bits(hb.load), 0.5);
    assert!(hb.active && hb.has_gpu);
    assert_eq!((hb.layer_offset, hb.num_layers), (3, 4));
    assert!(worker_answer(&info, &HubMessage::InferenceResponse(response("x"))).is_none());
}
