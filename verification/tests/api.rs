use akai_net::api::{
    begin_chat, cert_path, completions, end_chat, end_chat_with,
    fetch_failed_reply, health, model_fetched, model_source, models, not_found, note_worker,
    prompt, read_chat_request, tunnel_certs, worker_register, ChatEnd, ChatStart, FetchError,
};
use akai_net::auth::{
    change_model, enroll_failed_reply, enrolled_reply, login_reply, model_access,
    read_model_request, read_user_request, register_reply, stop, user_access, vpn_step, Access, VpnNext,
};
use akai_net::duo::{DuoAuthResult, DuoError};
use akai_net::hub::Hub;
use akai_net::json::{is_json, read_double, read_text, read_whole, Json};
use akai_net::message::{InferenceResponse, ModelConfig, WorkerInfo};
use akai_net::reply::{error_reply, invalid_body_reply, server_error, Reply};

fn hub() -> Hub {
    let model = ModelConfig { name: "m".to_string(), num_layers: 32, ..Default::default() };
    Hub::new(
        model,
        "alias".to_string(),
        "http://source".to_string(),
        "10.8.0.1:8080".to_string(),
    )
}

fn worker(id: &str, vram_gb: f32) -> WorkerInfo {
    WorkerInfo {
        id: id.to_string(),
        has_gpu: vram_gb > 0.0,
        vram_gb: vram_gb.to_bits(),
        ..Default::default()
    }
}

fn value(json: &Json) -> serde_json::Value {
    match json {
        Json::Bool(b) => serde_json::Value::from(*b),
        Json::Number(n) => serde_json::Value::from(*n),
        Json::Single(bits) => serde_json::Value::from(f32::from_bits(*bits)),
        Json::Text(s) => serde_json::Value::from(s.as_str()),
        Json::List(items) => serde_json::Value::Array(items.iter().map(value).collect()),
        Json::Object(members) => serde_json::Value::Object(
            members.iter().map(|m| (m.0.clone(), value(&m.1))).collect(),
        ),
    }
}

fn check(reply: &Reply, status: u16, body: &str) {
    assert_eq!(reply.status, status);
    let wanted: serde_json::Value = serde_json::from_str(body).unwrap();
    assert_eq!(value(&reply.body), wanted);
}

fn admins() -> Vec<String> {
    vec!["alice".to_string(), "bob".to_string()]
}

fn yes() -> Option<Result<DuoAuthResult, DuoError>> {
    Some(Ok(DuoAuthResult { allowed: true, status: "allow".to_string() }))
}

fn no() -> Option<Result<DuoAuthResult, DuoError>> {
    Some(Ok(DuoAuthResult { allowed: false, status: "deny".to_string() }))
}

fn broken() -> Option<Result<DuoAuthResult, DuoError>> {
    Some(Err(DuoError::Unreachable))
}

const ALICE: &str = r#"{"username":"Alice","worker_name":"w"}"#;

#[test]
fn reading_json() {
    let body = br#" {"a":{"b":[1,"x",2.5,true]},"n":null,"big":18446744073709551615,"neg":-1} "#;
    assert!(is_json(body));
    assert!(!is_json(b"{"));
    assert!(!is_json(b""));
    assert_eq!(read_text(body, "/a/b/1").as_deref(), Some("x"));
    assert_eq!(read_text(body, "/a/b/0"), None);
    assert_eq!(read_text(body, "/z"), None);
    assert_eq!(read_whole(body, "/a/b/0"), Some(1));
    assert_eq!(read_whole(body, "/big"), Some(u64::MAX));
    assert_eq!(read_whole(body, "/neg"), None);
    assert_eq!(read_whole(body, "/a/b/2"), None);
    assert_eq!(read_double(body, "/a/b/2"), Some(2.5f64.to_bits()));
    assert_eq!(read_double(body, "/a/b/0"), Some(1.0f64.to_bits()));
    assert_eq!(read_double(body, "/neg"), Some((-1.0f64).to_bits()));
    assert_eq!(read_double(body, "/n"), None);
}

#[test]
fn fixed_replies() {
    check(&invalid_body_reply(), 400, r#"{"error":"invalid request body"}"#);
    check(&error_reply(418, "x"), 418, r#"{"error":"x"}"#);
    check(&server_error(503, "x"), 503, r#"{"error":{"message":"x","type":"server_error"}}"#);
    check(&not_found(), 404, "{}");
    check(
        &completions(),
        200,
        r#"{"choices":[{"text":"Pipeline hub ready. Awaiting worker connections."}]}"#,
    );
}

#[test]
fn the_report_on_health() {
    let mut h = hub();
    check(
        &health(&h),
        200,
        r#"{"status":"ok","model":"m","model_url":"http://source","num_layers":32,"workers":[]}"#,
    );
    h.register(1, worker("a", 8.0));
    h.register(2, worker("b", 0.0));
    check(
        &health(&h),
        200,
        r#"{"status":"ok","model":"m","model_url":"http://source","num_layers":32,"workers":[
            {"id":"a","layers":"0-32","gpu":true,"vram_gb":8.0,"load":0.0},
            {"id":"b","layers":"0-16","gpu":false,"vram_gb":0.0,"load":0.0}]}"#,
    );
}

#[test]
fn the_list_of_models() {
    check(
        &models(&hub()),
        200,
        r#"{"object":"list","data":[{"id":"alias","object":"model","created":1234567890,"owned_by":"akai-net"}]}"#,
    );
}

#[test]
fn a_worker_says_that_it_exists() {
    check(
        &worker_register(r#"{"id":"w","gpu":true}"#),
        200,
        r#"{"status":"registered","worker_id":"w","message":"Worker registered successfully"}"#,
    );
    check(
        &worker_register("[]"),
        200,
        r#"{"status":"registered","worker_id":"","message":"Worker registered successfully"}"#,
    );
    check(&worker_register("x"), 400, r#"{"error":"invalid request body"}"#);
    check(&note_worker(false, "w"), 400, r#"{"error":"invalid request body"}"#);
}

#[test]
fn only_administrators_register() {
    let request = read_user_request(ALICE);
    let open = user_access(&admins(), false, &request);
    assert!(matches!(open, Access::Open));
    check(
        &register_reply(&request, open, &None),
        200,
        r#"{"status":"provisioned","username":"Alice","worker_id":"Alice:w","rpc_port":50052}"#,
    );
    let stranger = read_user_request(r#"{"username":"eve"}"#);
    let access = user_access(&admins(), true, &stranger);
    check(&register_reply(&stranger, access, &None), 403, r#"{"error":"user not authorized"}"#);
    let nobody = read_user_request("{}");
    let access = user_access(&admins(), true, &nobody);
    check(&register_reply(&nobody, access, &None), 403, r#"{"error":"user not authorized"}"#);
    let garbage = read_user_request("garbage");
    let access = user_access(&admins(), false, &garbage);
    check(&register_reply(&garbage, access, &None), 400, r#"{"error":"invalid request body"}"#);
}

#[test]
fn duo_is_asked_where_it_is_set_up() {
    let request = read_user_request(ALICE);
    let ask = || user_access(&admins(), true, &request);
    assert!(matches!(ask(), Access::AskDuo(name) if name == "Alice"));
    assert_eq!(register_reply(&request, ask(), &yes()).status, 200);
    check(&register_reply(&request, ask(), &no()), 403, r#"{"error":"Duo denied: deny"}"#);
    check(
        &register_reply(&request, ask(), &broken()),
        500,
        r#"{"error":"Duo error: Duo API request failed"}"#,
    );
    assert!(stop(ask(), &yes()).is_none());
    assert!(stop(ask(), &no()).is_some());
}

#[test]
fn logging_in() {
    let request = read_user_request(ALICE);
    let access = || user_access(&admins(), false, &request);
    check(
        &login_reply(&request, access(), &None, u64::MAX),
        200,
        r#"{"status":"approved","username":"Alice","token":"token-18446744073709551615"}"#,
    );
    let ask = user_access(&admins(), true, &request);
    check(&login_reply(&request, ask, &no(), 1), 403, r#"{"error":"Duo denied: deny"}"#);
}

#[test]
fn entering_the_tunnel() {
    let request = read_user_request(ALICE);
    let ask = || user_access(&admins(), true, &request);
    match vpn_step(&request, ask(), &yes(), "pw") {
        VpnNext::Enroll(name) => assert_eq!(name, "akai-agent-w"),
        VpnNext::End(_) => panic!("not enrolled"),
    }
    let end = |next: VpnNext| match next {
        VpnNext::End(reply) => reply,
        VpnNext::Enroll(_) => panic!("enrolled"),
    };
    check(&end(vpn_step(&request, ask(), &no(), "pw")), 403, r#"{"error":"Duo denied"}"#);
    check(&end(vpn_step(&request, ask(), &broken(), "pw")), 403, r#"{"error":"Duo denied"}"#);
    check(
        &end(vpn_step(&request, ask(), &yes(), "")),
        503,
        r#"{"error":"WireGuard VPN not configured on hub"}"#,
    );
    assert!(matches!(vpn_step(&request, Access::Open, &None, "pw"), VpnNext::Enroll(_)));
    let eve = read_user_request(r#"{"username":"eve"}"#);
    let access = user_access(&admins(), false, &eve);
    check(&end(vpn_step(&eve, access, &None, "pw")), 403, r#"{"error":"user not authorized"}"#);
    check(
        &enrolled_reply("7", "conf", "10.8.0.1:50051"),
        200,
        r#"{"status":"enrolled","client_id":"7","wireguard_config":"conf","hub_vpn_addr":"10.8.0.1:50051"}"#,
    );
    check(&enroll_failed_reply("x"), 500, r#"{"error":"WG client creation failed: x"}"#);
}

#[test]
fn changing_the_model() {
    let mut h = hub();
    let body = r#"{"username":"ALICE","name":"big","layers":80,"url":"http://u"}"#;
    let request = read_model_request(body);
    assert_eq!(request.username, "alice");
    let access = model_access(&admins(), true, &request);
    assert!(matches!(&access, Access::AskDuo(name) if name == "alice"));
    check(&change_model(&mut h, &request, access, &no()), 403, r#"{"error":"Duo denied: deny"}"#);
    assert_eq!(h.model().name, "m");
    let access = model_access(&admins(), true, &request);
    check(
        &change_model(&mut h, &request, access, &yes()),
        200,
        r#"{"status":"ok","model":"big","layers":80}"#,
    );
    assert_eq!(h.model().name, "big");
    assert_eq!(h.model().num_layers, 80);
    assert_eq!(h.model_url(), "http://u");
    let request = read_model_request(r#"{"username":"bob","layers":-1}"#);
    let access = model_access(&admins(), false, &request);
    check(
        &change_model(&mut h, &request, access, &None),
        200,
        r#"{"status":"ok","model":"unknown","layers":32}"#,
    );
    assert_eq!(h.model_url(), "");
    let request = read_model_request("{}");
    let access = model_access(&admins(), false, &request);
    check(&change_model(&mut h, &request, access, &None), 403, r#"{"error":"user not authorized"}"#);
}

#[test]
fn certificates() {
    assert_eq!(cert_path("/etc/certs", "ca.crt"), "/etc/certs/ca.crt");
    check(&tunnel_certs(b"", b"c", b"k"), 500, r#"{"error":"tunnel certs not available"}"#);
    check(
        &tunnel_certs("\u{20ac}".as_bytes(), b"c\xff", b""),
        200,
        "{\"ca_cert\":\"\u{20ac}\",\"worker_cert\":\"c\u{fffd}\",\"worker_key\":\"\",\"tunnel_host\":\"tunnel.akinus21.com\",\"tunnel_port\":443}",
    );
}

#[test]
fn handing_out_the_model() {
    let mut h = hub();
    assert!(matches!(model_source(&h), Ok(url) if url == "http://source"));
    let header = model_fetched(&mut h, b"abc");
    assert_eq!(
        header,
        "HTTP/1.1 200 OK\r\nContent-Type: application/octet-stream\r\nContent-Length: 3\r\nX-Model-Hash: ba7816bf8f01cfea414140de5dae2223b00361a396177a9cb410ff61f20015ad\r\n\r\n"
    );
    let (answer, _) = h.register(1, worker("a", 8.0));
    assert_eq!(
        answer.model_hash,
        "ba7816bf8f01cfea414140de5dae2223b00361a396177a9cb410ff61f20015ad"
    );
    h.set_model("m".to_string(), 1, String::new());
    match model_source(&h) {
        Err(reply) => check(&reply, 404, r#"{"error":"no model configured"}"#),
        Ok(_) => panic!("a model"),
    }
    let failed = |e: FetchError| fetch_failed_reply(&e);
    check(&failed(FetchError::NoReply("x".to_string())), 502, r#"{"error":"model fetch failed: x"}"#);
    check(
        &failed(FetchError::Status("404 Not Found".to_string())),
        502,
        r#"{"error":"upstream status: 404 Not Found"}"#,
    );
    check(&failed(FetchError::Broken("x".to_string())), 502, r#"{"error":"model download failed: x"}"#);
}

#[test]
fn conversations_are_read() {
    let r = read_chat_request(
        r#"{"model":"m","messages":[{"content":"a"},{"content":1},{},{"content":"b"}],"max_tokens":5,"temperature":0.25}"#,
    );
    assert!(r.valid);
    assert_eq!(r.model, "m");
    assert_eq!(r.contents.len(), 4);
    assert_eq!(prompt(&r.contents), "a\nb");
    assert_eq!(r.max_tokens, 5);
    assert_eq!(f64::from_bits(r.temperature), 0.25);
    let r = read_chat_request("{}");
    assert_eq!(r.model, "unknown");
    assert!(r.contents.is_empty());
    assert_eq!(prompt(&r.contents), "");
    assert_eq!(r.max_tokens, 128);
    assert_eq!(f64::from_bits(r.temperature), 0.7);
    assert!(!read_chat_request("x").valid);
}

fn end_of(start: ChatStart) -> Reply {
    match start {
        ChatStart::End(reply) => reply,
        ChatStart::Send { .. } => panic!("a prompt"),
    }
}

#[test]
fn conversations_begin() {
    let mut h = hub();
    let request = read_chat_request(r#"{"messages":[{"content":"a"}],"max_tokens":9}"#);
    check(
        &end_of(begin_chat(&mut h, &request, 1, 2)),
        503,
        r#"{"error":{"message":"No workers available","type":"server_error"}}"#,
    );
    let garbage = read_chat_request("x");
    check(&end_of(begin_chat(&mut h, &garbage, 1, 2)), 400, r#"{"error":"invalid request body"}"#);
    h.register(3, worker("a", 8.0));
    h.register(4, worker("b", 0.0));
    match begin_chat(&mut h, &request, 42, 6) {
        ChatStart::Send { worker_id, conn, request } => {
            assert_eq!((worker_id.as_str(), conn), ("b", 4));
            assert_eq!(request.id, "inf-42");
            assert!(request.tokens.is_empty());
            assert!(request.is_first && request.is_last);
            assert_eq!(request.max_new_tokens, 9);
            assert_eq!(f32::from_bits(request.temperature), 0.7);
            assert_eq!(request.prompt.as_deref(), Some("a"));
        }
        ChatStart::End(_) => panic!("no prompt"),
    }
    assert_eq!(h.take_waiter("inf-42"), Some(6));
}

#[test]
fn conversations_end() {
    let mut h = hub();
    let answered = ChatEnd::Answered(InferenceResponse {
        id: "inf-1".to_string(),
        token: None,
        hidden_states: None,
        is_done: true,
        text: Some("hi".to_string()),
        prompt_tokens: 3,
        completion_tokens: 4,
    });
    check(
        &end_chat_with(&mut h, "inf-1", "m", &answered, 5, 1700000000),
        200,
        r#"{"id":"chatcmpl-5","object":"chat.completion","created":1700000000,"model":"m",
            "choices":[{"index":0,"message":{"role":"assistant","content":"hi"},"finish_reason":"stop"}],
            "usage":{"prompt_tokens":3,"completion_tokens":4,"total_tokens":7}}"#,
    );
    let reply = end_chat(&mut h, "inf-1", "m", &answered, 1);
    assert!(value(&reply.body)["id"].as_str().unwrap().starts_with("chatcmpl-"));
    h.await_answer("inf-1", 2);
    check(
        &end_chat(&mut h, "inf-1", "m", &ChatEnd::Dropped, 1),
        502,
        r#"{"error":{"message":"Worker disconnected","type":"server_error"}}"#,
    );
    check(
        &end_chat(&mut h, "inf-1", "m", &ChatEnd::TimedOut, 1),
        504,
        r#"{"error":{"message":"Request timed out","type":"server_error"}}"#,
    );
    assert_eq!(h.take_waiter("inf-1"), None);
    check(
        &end_chat(&mut h, "inf-1", "m", &ChatEnd::Unsent, 1),
        500,
        r#"{"error":{"message":"Failed to send request to worker","type":"server_error"}}"#,
    );
    check(
        &end_chat(&mut h, "inf-1", "m", &ChatEnd::Unencoded("x".to_string()), 1),
        500,
        r#"{"error":{"message":"Internal error: x","type":"server_error"}}"#,
    );
}

#[test]
fn an_answer_without_text_is_empty() {
    let mut h = hub();
    let answered = ChatEnd::Answered(InferenceResponse {
        id: "i".to_string(),
        token: None,
        hidden_states: None,
        is_done: true,
        text: None,
        prompt_tokens: 0,
        completion_tokens: 0,
    });
    let reply = end_chat_with(&mut h, "i", "m", &answered, 0, 0);
    assert_eq!(value(&reply.body)["choices"][0]["message"]["content"].as_str(), Some(""));
}
