use akai_net::duo::{DuoAuthResult, DuoError};
use akai_net::http::{read_request, Request};
use akai_net::hub::{Hub, Reaction};
use akai_net::json::Json;
use akai_net::message::{HubMessage, ModelConfig, WorkerInfo};
use akai_net::reply::Reply;
use akai_net::server::{
    begin_request, begin_request_with, settle_wish, settle_wish_with, Action, ServerSettings, Wish,
};
use akai_net::session::Session;

fn hub() -> Hub {
    let model = ModelConfig { name: "m".to_string(), num_layers: 32, ..Default::default() };
    Hub::new(
        model,
        "alias".to_string(),
        "http://source".to_string(),
        "10.8.0.1:8080".to_string(),
    )
}

fn worker(id: &str) -> WorkerInfo {
    WorkerInfo { id: id.to_string(), ..Default::default() }
}

fn settings(duo: bool) -> ServerSettings {
    ServerSettings {
        admins: vec!["alice".to_string()],
        duo,
        certs_dir: "/certs".to_string(),
        wg_password: "pw".to_string(),
    }
}

fn post(path: &str, body: &str) -> Request {
    read_request(format!("POST {} HTTP/1.1\r\n\r\n{}", path, body).as_bytes())
}

fn get(path: &str) -> Request {
    read_request(format!("GET {} HTTP/1.1\r\n\r\n", path).as_bytes())
}

fn sent(action: Action) -> Reply {
    match action {
        Action::Send(reply) => reply,
        _ => panic!("no reply"),
    }
}

fn text(reply: &Reply, key: &str) -> String {
    match &reply.body {
        Json::Object(members) => match members.iter().find(|m| m.0 == key) {
            Some((_, Json::Text(s))) => s.clone(),
            _ => panic!("no text"),
        },
        _ => panic!("no object"),
    }
}

fn allowed(allowed: bool) -> Result<DuoAuthResult, DuoError> {
    Ok(DuoAuthResult { allowed, status: "s".to_string() })
}

#[test]
fn plain_requests_are_answered_at_once() {
    let mut h = hub();
    let s = settings(true);
    let mut status = |r: Request| sent(begin_request(&mut h, &s, &r, 1)).status;
    assert_eq!(status(get("/health")), 200);
    assert_eq!(status(get("/v1/models")), 200);
    assert_eq!(status(post("/workers/register", "{}")), 200);
    assert_eq!(status(post("/workers/register", "{")), 400);
    assert_eq!(status(post("/v1/completions", "")), 200);
    assert_eq!(status(get("/nothing")), 404);
    assert_eq!(status(post("/v1/chat/completions", "{}")), 503);
    assert_eq!(status(post("/v1/chat/completions", "")), 400);
}

#[test]
fn outside_work_comes_first() {
    let mut h = hub();
    let s = settings(false);
    match begin_request(&mut h, &s, &get("/tunnel/certs"), 1) {
        Action::ReadCerts { ca, cert, key } => {
            assert_eq!(ca, "/certs/ca.crt");
            assert_eq!(cert, "/certs/worker.crt");
            assert_eq!(key, "/certs/worker.key");
        }
        _ => panic!("no certificates"),
    }
    match begin_request(&mut h, &s, &get("/model/download"), 1) {
        Action::FetchModel { url } => assert_eq!(url, "http://source"),
        _ => panic!("no model"),
    }
    match begin_request(&mut h, &s, &get("/pipeline/status"), 1) {
        Action::SendPipeline(p) => assert_eq!(p.model_url, "http://source"),
        _ => panic!("no pipeline"),
    }
    h.set_model("m".to_string(), 1, String::new());
    assert_eq!(sent(begin_request(&mut h, &s, &get("/model/download"), 1)).status, 404);
}

#[test]
fn wishes_without_duo() {
    let mut h = hub();
    let s = settings(false);
    let alice = r#"{"username":"ALICE","worker_name":"w","name":"n","layers":5,"url":"u"}"#;
    let reply = sent(begin_request(&mut h, &s, &post("/auth/register", alice), 1));
    assert_eq!((reply.status, text(&reply, "worker_id").as_str()), (200, "ALICE:w"));
    let reply = sent(begin_request_with(&mut h, &s, &post("/auth/login", alice), 9, 1));
    assert_eq!(text(&reply, "token"), "token-9");
    let one = sent(begin_request(&mut h, &s, &post("/auth/login", alice), 1));
    let two = sent(begin_request(&mut h, &s, &post("/auth/login", alice), 1));
    assert_ne!(text(&one, "token"), text(&two, "token"));
    match begin_request(&mut h, &s, &post("/auth/vpn", alice), 1) {
        Action::Enroll { name } => assert_eq!(name, "akai-agent-w"),
        _ => panic!("not enrolled"),
    }
    let reply = sent(begin_request(&mut h, &s, &post("/admin/model", alice), 1));
    assert_eq!(reply.status, 200);
    assert_eq!(h.model().name, "n");
}

#[test]
fn strangers_get_nothing() {
    for duo in [false, true] {
        let mut h = hub();
        let s = settings(duo);
        let eve = r#"{"username":"eve","name":"n"}"#;
        for path in ["/auth/register", "/auth/login", "/auth/vpn", "/admin/model"] {
            let reply = sent(begin_request(&mut h, &s, &post(path, eve), 1));
            assert_eq!(reply.status, 403);
            assert_eq!(text(&reply, "error"), "user not authorized");
            let reply = sent(begin_request(&mut h, &s, &post(path, "{"), 1));
            assert_eq!(reply.status, 400);
        }
        assert_eq!(h.model().name, "m");
    }
}

fn put_to_duo(h: &mut Hub, s: &ServerSettings, path: &str) -> (String, Wish) {
    let alice = r#"{"username":"Alice","worker_name":"w","name":"n"}"#;
    match begin_request(h, s, &post(path, alice), 1) {
        Action::AskDuo { username, wish } => (username, wish),
        _ => panic!("Duo was not asked"),
    }
}

#[test]
fn duo_decides() {
    let mut h = hub();
    let s = settings(true);
    for path in ["/auth/register", "/auth/login", "/admin/model"] {
        let (name, wish) = put_to_duo(&mut h, &s, path);
        assert_eq!(name.to_lowercase(), "alice");
        let reply = sent(settle_wish(&mut h, &s, name, wish, allowed(false)));
        assert_eq!((reply.status, text(&reply, "error").as_str()), (403, "Duo denied: s"));
        assert_eq!(h.model().name, "m");
        let (name, wish) = put_to_duo(&mut h, &s, path);
        let reply = sent(settle_wish(&mut h, &s, name, wish, Err(DuoError::NoResponse)));
        assert_eq!(reply.status, 500);
        assert_eq!(
            text(&reply, "error"),
            "Duo error: Duo response missing 'response' field"
        );
        assert_eq!(h.model().name, "m");
    }
    let (name, wish) = put_to_duo(&mut h, &s, "/auth/login");
    assert_eq!(name, "Alice");
    let reply = sent(settle_wish_with(&mut h, &s, name, wish, allowed(true), 3));
    assert_eq!((reply.status, text(&reply, "token").as_str()), (200, "token-3"));
    let (name, wish) = put_to_duo(&mut h, &s, "/admin/model");
    assert_eq!(name, "alice");
    assert_eq!(sent(settle_wish(&mut h, &s, name, wish, allowed(true))).status, 200);
    assert_eq!(h.model().name, "n");
    let (name, wish) = put_to_duo(&mut h, &s, "/auth/vpn");
    let reply = sent(settle_wish(&mut h, &s, name, wish, allowed(false)));
    assert_eq!((reply.status, text(&reply, "error").as_str()), (403, "Duo denied"));
    let (name, wish) = put_to_duo(&mut h, &s, "/auth/vpn");
    assert!(matches!(
        settle_wish(&mut h, &s, name, wish, allowed(true)),
        Action::Enroll { .. }
    ));
}

#[test]
fn prompts_go_to_the_first_worker() {
    let mut h = hub();
    let s = settings(true);
    h.register(4, worker("a"));
    let chat = r#"{"model":"x","messages":[{"content":"hello"}]}"#;
    match begin_request(&mut h, &s, &post("/v1/chat/completions", chat), 6) {
        Action::Prompt { worker_id, conn, request, model } => {
            assert_eq!((worker_id.as_str(), conn, model.as_str()), ("a", 4, "x"));
            assert_eq!(request.prompt.as_deref(), Some("hello"));
            assert!(request.id.starts_with("inf-"));
            assert_eq!(h.take_waiter(&request.id), Some(6));
        }
        _ => panic!("no prompt"),
    }
}

#[test]
fn a_connection_belongs_to_who_registered() {
    let mut h = hub();
    let mut c = Session::new(7);
    c.receive(b"one\ntw");
    assert_eq!(c.next_line(), Some(b"one".to_vec()));
    assert_eq!(c.next_line(), None);
    c.receive(b"o\n");
    assert_eq!(c.next_line(), Some(b"two".to_vec()));
    assert_eq!(c.read(b"\nthree\nfo"), vec![b"three".to_vec()]);
    assert_eq!(c.read(b"ur\nfive\n"), vec![b"four".to_vec(), b"five".to_vec()]);
    assert!(c.read(b"").is_empty());
    assert_eq!(c.worker_id(), None);
    assert!(matches!(
        c.handle(&mut h, HubMessage::Register(worker("a"))),
        Reaction::Registered { .. }
    ));
    assert_eq!(c.worker_id().as_deref(), Some("a"));
    assert_eq!(h.connection("a"), Some(7));
    let other = HubMessage::Error { code: String::new(), message: String::new() };
    assert!(matches!(c.handle(&mut h, other), Reaction::Unexpected));
    assert_eq!(c.worker_id().as_deref(), Some("a"));
    c.close(&mut h);
    assert!(h.workers().is_empty());
    Session::new(8).close(&mut h);
}

fn parse(line: &[u8]) -> Option<HubMessage> {
    let id = std::str::from_utf8(line).ok()?.strip_prefix("+")?;
    Some(HubMessage::Register(worker(id)))
}

fn end_of(reads: &[&[u8]]) -> (Vec<(String, usize, usize)>, Option<String>, Vec<String>) {
    let mut h = hub();
    let mut c = Session::new(1);
    let mut answers = Vec::new();
    for data in reads {
        for line in c.read(data) {
            if let Some(message) = parse(&line) {
                if let Reaction::Registered { answer, .. } = c.handle(&mut h, message) {
                    answers.push(format!("{:?}", answer));
                }
            }
        }
    }
    let workers =
        h.workers().iter().map(|w| (w.id.clone(), w.layer_offset, w.num_layers)).collect();
    (workers, c.worker_id(), answers)
}

#[test]
fn cuts_of_the_stream_make_no_difference() {
    let stream: &[u8] = b"+a\n\nnoise\n+b\n\xff\n+c\n+unfinished";
    let whole = end_of(&[stream]);
    assert_eq!(whole.0.len(), 3);
    assert_eq!(whole.1.as_deref(), Some("c"));
    assert_eq!(whole.2.len(), 3);
    for cut in 0..stream.len() {
        assert_eq!(end_of(&[&stream[..cut], &stream[cut..]]), whole);
        for second in cut..stream.len() {
            assert_eq!(
                end_of(&[&stream[..cut], &stream[cut..second], &stream[second..]]),
                whole
            );
        }
    }
    let bytes: Vec<&[u8]> = stream.chunks(1).collect();
    assert_eq!(end_of(&bytes), whole);
}

#[test]
fn the_list_of_models_shows_the_alias() {
    let mut h = hub();
    let reply = sent(begin_request(&mut h, &settings(false), &get("/v1/models"), 1));
    let id = match &reply.body {
        Json::Object(members) => match &members.iter().find(|m| m.0 == "data").unwrap().1 {
            Json::List(items) => match &items[0] {
                Json::Object(entry) => match &entry.iter().find(|m| m.0 == "id").unwrap().1 {
                    Json::Text(id) => id.clone(),
                    _ => panic!("no text"),
                },
                _ => panic!("no entry"),
            },
            _ => panic!("no list"),
        },
        _ => panic!("no object"),
    };
    assert_eq!(id, "alias");
    assert_eq!(h.model_alias(), "alias");
}
