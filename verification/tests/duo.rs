use akai_net::duo::{
    auth_push_request, auth_push_result, authorization_header, canonical_request, duo_sign, judge,
    load_duo_config, percent_encode, push_request, read_duo_reply, DuoConfig, DuoError, DuoReply,
    Member,
};
use akai_net::hash::sha256_hex;

fn some(s: &str) -> Option<String> {
    Some(s.to_string())
}

fn config() -> DuoConfig {
    DuoConfig {
        ikey: "IKEY".to_string(),
        skey: "seckey".to_string(),
        host: "API-x.Example.com".to_string(),
    }
}

#[test]
fn a_configuration_needs_all_three() {
    let c = load_duo_config(some("i"), some("s"), some("h")).unwrap();
    assert_eq!((c.ikey.as_str(), c.skey.as_str(), c.host.as_str()), ("i", "s", "h"));
    assert!(load_duo_config(None, some("s"), some("h")).is_none());
    assert!(load_duo_config(some("i"), None, some("h")).is_none());
    assert!(load_duo_config(some("i"), some("s"), None).is_none());
    assert!(load_duo_config(some(""), some("s"), some("h")).is_none());
    assert!(load_duo_config(some("i"), some(""), some("h")).is_none());
    assert!(load_duo_config(some("i"), some("s"), some("")).is_none());
}

#[test]
fn encoded_names() {
    assert_eq!(percent_encode("aZ09-_.~"), "aZ09-_.~");
    assert_eq!(percent_encode("j@b"), "j%40b");
    assert_eq!(percent_encode(" /?\n"), "%20%2F%3F%0A");
    assert_eq!(percent_encode(""), "");
    assert_eq!(percent_encode("\u{fc}"), "%FC");
    assert_eq!(percent_encode("\u{20ac}"), "%AC");
}

#[test]
fn what_is_signed() {
    assert_eq!(canonical_request("a", "b", "c", "d", "e"), "a\nb\nc\nd\ne");
}

#[test]
fn signatures() {
    assert_eq!(
        duo_sign("k", "Jefe", "a", "b", "c", "d", "e"),
        "Basic azplOWQyNWNiNzQyOWY0YmNiN2U2ZWYxZmUyYjZlYzc4ZDZhZTgxNDRk"
    );
    assert_eq!(
        duo_sign("ky", "Jefe", "a", "b", "c", "d", "e"),
        "Basic a3k6ZTlkMjVjYjc0MjlmNGJjYjdlNmVmMWZlMmI2ZWM3OGQ2YWU4MTQ0ZA=="
    );
    assert_eq!(
        duo_sign("key", "Jefe", "a", "b", "c", "d", "e"),
        "Basic a2V5OmU5ZDI1Y2I3NDI5ZjRiY2I3ZTZlZjFmZTJiNmVjNzhkNmFlODE0NGQ="
    );
}

#[test]
fn headers() {
    assert_eq!(authorization_header("ik", &[0x00, 0xff, 0x10]), "Basic aWs6MDBmZjEw");
    assert_eq!(authorization_header("\u{fc}", &[]), "Basic w7w6");
}

#[test]
fn a_request_for_a_push() {
    let r = push_request(&config(), "j@b", "Tue, 21 Aug 2012 17:29:18 -0000");
    assert_eq!(r.url, "https://API-x.Example.com/auth/v2/auth");
    assert_eq!(r.date, "Tue, 21 Aug 2012 17:29:18 -0000");
    assert_eq!(
        r.authorization,
        "Basic SUtFWTpjMGRiNjYwMDBjYTFiYjRmYzBlNmE1Y2VjZmRmNjVhNmY5MmVhODhh"
    );
    let form: Vec<(&str, &str)> = r.form.iter().map(|f| (f.0.as_str(), f.1.as_str())).collect();
    assert_eq!(form, vec![("factor", "push"), ("device", "auto"), ("username", "j@b")]);
}

#[test]
fn a_request_now_is_signed_at_its_own_date() {
    let now = auth_push_request(&config(), "u");
    assert!(now.date.ends_with(" +0000"), "{}", now.date);
    let shape: String = now
        .date
        .chars()
        .map(|c| {
            if c.is_ascii_alphabetic() {
                'a'
            } else if c.is_ascii_digit() {
                '0'
            } else {
                c
            }
        })
        .collect();
    assert_eq!(shape, "aaa, 00 aaa 0000 00:00:00 +0000");
    assert!(now.date.bytes().all(|b| (b' '..=b'~').contains(&b)));
    assert_eq!(now.date.len(), "Tue, 21 Aug 2012 17:29:18 +0000".len());
    let again = push_request(&config(), "u", &now.date);
    assert_eq!(now.authorization, again.authorization);
}

fn status(body: &str) -> Result<(bool, String), String> {
    match auth_push_result(body.as_bytes()).unwrap() {
        Ok(r) => Ok((r.allowed, r.status)),
        Err(e) => Err(e.text()),
    }
}

#[test]
fn replies_are_judged() {
    let ok = r#"{"stat":"OK","response":{"result":"allow","status":"allow"}}"#;
    assert_eq!(status(ok), Ok((true, "allow".to_string())));
    let no = r#"{"stat":"OK","response":{"result":"deny","status":"fraud"}}"#;
    assert_eq!(status(no), Ok((false, "fraud".to_string())));
    let odd = r#"{"stat":"OK","response":{"result":1,"status":null}}"#;
    assert_eq!(status(odd), Ok((false, "unknown".to_string())));
    assert_eq!(status("nonsense"), Err("Failed to parse Duo response".to_string()));
    let fail = r#"{"stat":"FAIL","message":"Invalid key"}"#;
    assert_eq!(status(fail), Err("Duo API error: Invalid key".to_string()));
    assert_eq!(status("{}"), Err("Duo API error: unknown error".to_string()));
    let none = r#"{"stat":"OK"}"#;
    assert_eq!(status(none), Err("Duo response missing 'response' field".to_string()));
    let list = r#"{"stat":"OK","response":["result","status"]}"#;
    assert_eq!(status(list), Err("Duo response missing 'response' field".to_string()));
    assert_eq!(DuoError::Unreachable.text(), "Duo API request failed");
}

#[test]
fn a_decision_needs_both_members() {
    assert!(auth_push_result(br#"{"stat":"OK","response":{"result":"allow"}}"#).is_none());
    assert!(auth_push_result(br#"{"stat":"OK","response":{"status":"x"}}"#).is_none());
    assert!(auth_push_result(br#"{"stat":"FAIL","response":{}}"#).is_some());
}

#[test]
fn judging_what_was_read() {
    let read = read_duo_reply(br#"{"stat":"OK","response":{"result":"allow","status":7}}"#);
    assert!(read.valid);
    assert_eq!(read.stat.as_deref(), Some("OK"));
    assert!(matches!(&read.response, Some((Member::Text(t), Member::NotText)) if t == "allow"));
    let reply = DuoReply {
        valid: true,
        stat: some("OK"),
        message: None,
        response: Some((Member::Text("Allow".to_string()), Member::Text("s".to_string()))),
    };
    let result = judge(&reply).ok().unwrap();
    assert!(!result.allowed);
    assert_eq!(result.status, "s");
}

#[test]
fn fingerprints() {
    assert_eq!(
        sha256_hex(b"abc"),
        "ba7816bf8f01cfea414140de5dae2223b00361a396177a9cb410ff61f20015ad"
    );
    assert_eq!(
        sha256_hex(b""),
        "e3b0c44298fc1c149afbf4c8996fb92427ae41e4649b934ca495991b7852b855"
    );
}
