use akai_net::json::Json;
use akai_net::wireguard::{
    add_step, begin_adding, begin_removing, cookie_header, find_client, find_name, is_success,
    place_client, remove_step, AddNext, Adding, Method, RemoveNext, Removing, WgError, WgReply,
};

fn some(s: &str) -> Option<String> {
    Some(s.to_string())
}

fn reply(status: u16, words: &str) -> WgReply {
    WgReply {
        status,
        status_text: words.to_string(),
        cookies: vec![],
        body: vec![],
        text: String::new(),
    }
}

fn member(body: &Option<Json>) -> (String, String) {
    match body {
        Some(Json::Object(members)) => match &members[0] {
            (key, Json::Text(text)) => (key.clone(), text.clone()),
            _ => panic!("no text"),
        },
        _ => panic!("no object"),
    }
}

#[test]
fn statuses_of_success() {
    assert!(!is_success(199) && is_success(200) && is_success(204) && is_success(299));
    assert!(!is_success(300) && !is_success(401));
}

#[test]
fn cookies_are_sent_back() {
    let values = vec![some("connect.sid=abc; Path=/; HttpOnly"), None, some(" b=2 "), some("")];
    assert_eq!(cookie_header(&values), "connect.sid=abc; b=2; ");
    assert_eq!(cookie_header(&vec![]), "");
}

#[test]
fn adding_a_client() {
    let (state, request) = begin_adding("wg:51821", "pw");
    assert!(matches!(state, Adding::Login));
    assert!(request.method == Method::Post);
    assert_eq!(request.url, "http://wg:51821/api/session");
    assert!(request.cookie.is_none());
    assert_eq!(member(&request.body), ("password".to_string(), "pw".to_string()));

    let mut login = reply(200, "200 OK");
    login.cookies = vec![some("sid=1; Path=/")];
    let (state, request) = match add_step(state, "wg:51821", "akai-agent-x", &login) {
        AddNext::Send(state, request) => (state, request),
        _ => panic!("no request"),
    };
    assert!(request.method == Method::Post);
    assert_eq!(request.url, "http://wg:51821/api/wireguard/client");
    assert_eq!(request.cookie.as_deref(), Some("sid=1"));
    assert_eq!(member(&request.body), ("name".to_string(), "akai-agent-x".to_string()));

    let (state, request) = match add_step(state, "wg:51821", "akai-agent-x", &reply(201, "")) {
        AddNext::Send(state, request) => (state, request),
        _ => panic!("no request"),
    };
    assert!(request.method == Method::Get);
    assert_eq!(request.url, "http://wg:51821/api/wireguard/client");
    assert_eq!(request.cookie.as_deref(), Some("sid=1"));
    assert!(request.body.is_none());

    let mut list = reply(200, "");
    list.body = br#"[{"name":"other","id":"1"},{"name":"akai-agent-x","id":"7"}]"#.to_vec();
    let (state, request) = match add_step(state, "wg:51821", "akai-agent-x", &list) {
        AddNext::Send(state, request) => (state, request),
        _ => panic!("no request"),
    };
    assert!(request.method == Method::Get);
    assert_eq!(request.url, "http://wg:51821/api/wireguard/client/7/configuration");
    assert_eq!(request.cookie.as_deref(), Some("sid=1"));

    let mut config = reply(200, "");
    config.text = "[Interface]".to_string();
    match add_step(state, "wg:51821", "akai-agent-x", &config) {
        AddNext::Done { id, config } => {
            assert_eq!((id.as_str(), config.as_str()), ("7", "[Interface]"));
        }
        _ => panic!("not done"),
    }
}

#[test]
fn a_refusal_ends_the_adding() {
    let refused = reply(401, "401 Unauthorized");
    let failure = |state: Adding| match add_step(state, "h", "n", &refused) {
        AddNext::Failed(e) => e.text(),
        _ => panic!("not failed"),
    };
    let cookie = || "c".to_string();
    assert_eq!(failure(Adding::Login), "wg-easy auth failed: 401 Unauthorized");
    assert_eq!(
        failure(Adding::Create { cookie: cookie() }),
        "wg-easy create client failed: 401 Unauthorized"
    );
    assert_eq!(
        failure(Adding::List { cookie: cookie() }),
        "wg-easy list clients failed: 401 Unauthorized"
    );
    assert_eq!(
        failure(Adding::Config { cookie: cookie(), id: "1".to_string() }),
        "wg-easy get config failed: 401 Unauthorized"
    );
}

fn found(body: &str) -> Result<String, String> {
    find_client(body.as_bytes(), "n").map_err(|e| e.text())
}

#[test]
fn the_new_client_is_found() {
    assert_eq!(found(r#"[1,{"name":"n","id":"a"},{"name":"n","id":"b"}]"#), Ok("a".to_string()));
    assert_eq!(found("x"), Err("error decoding response body".to_string()));
    assert_eq!(found("{}"), Err("invalid clients response".to_string()));
    assert_eq!(found(r#"[{"name":"m","id":"a"}]"#), Err("created client not found in list".to_string()));
    assert_eq!(found("[]"), Err("created client not found in list".to_string()));
    assert_eq!(found(r#"[{"name":"n","id":3}]"#), Err("missing client id".to_string()));
    let mut many = String::from("[");
    for i in 0..12 {
        many.push_str(&format!("{{\"name\":\"m{}\",\"id\":\"{}\"}},", i, i));
    }
    many.push_str(r#"{"name":"n","id":"z"}]"#);
    assert_eq!(found(&many), Ok("z".to_string()));
}

#[test]
fn names_on_a_list() {
    let names = vec![None, some("a"), some("b"), some("a")];
    assert_eq!(find_name(&names, "a"), 1);
    assert_eq!(find_name(&names, "c"), 4);
    assert!(matches!(place_client(true, &Some(names), "b"), Ok(2)));
    assert!(matches!(place_client(true, &None, "b"), Err(WgError::NotAList)));
    assert!(matches!(place_client(false, &None, "b"), Err(WgError::Decode)));
    assert!(matches!(place_client(true, &Some(vec![]), "b"), Err(WgError::NotFound)));
}

#[test]
fn taking_a_client_out() {
    let (state, request) = begin_removing("wg", "pw");
    assert!(state == Removing::Login);
    assert_eq!(request.url, "http://wg/api/session");
    assert_eq!(member(&request.body), ("password".to_string(), "pw".to_string()));
    let mut login = reply(204, "");
    login.cookies = vec![some("s=1")];
    match remove_step(state, "wg", "peer", &login) {
        RemoveNext::Send(state, request) => {
            assert!(state == Removing::Delete);
            assert!(request.method == Method::Delete);
            assert_eq!(request.url, "http://wg/api/wireguard/client/peer");
            assert_eq!(request.cookie.as_deref(), Some("s=1"));
        }
        _ => panic!("no request"),
    }
    assert!(matches!(remove_step(Removing::Delete, "wg", "peer", &reply(204, "")), RemoveNext::Done));
    match remove_step(Removing::Delete, "wg", "peer", &reply(404, "404 Not Found")) {
        RemoveNext::Failed(e) => assert_eq!(e.text(), "wg-easy delete client failed: 404 Not Found"),
        _ => panic!("not failed"),
    }
    match remove_step(Removing::Login, "wg", "peer", &reply(500, "x")) {
        RemoveNext::Failed(e) => assert_eq!(e.text(), "wg-easy auth failed: x"),
        _ => panic!("not failed"),
    }
}
