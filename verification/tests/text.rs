use akai_net::frame::{encode_msg, LineBuffer};
use akai_net::idmap::IdMap;
use akai_net::settings::{
    authorized, hub_settings, parse_admin_users, worker_settings, HubEnv, WorkerEnv,
};
use akai_net::text::{
    chars_of, find, is_white_space, join_all, parse_unsigned, position, split, split_lines,
    starts_with, strip_prefixes, text_of, to_decimal, to_hex, trim,
};

fn chars(s: &str) -> Vec<char> {
    s.chars().collect()
}

fn some(s: &str) -> Option<String> {
    Some(s.to_string())
}

fn lines_of(s: &str) -> Vec<String> {
    split_lines(&chars(s)).iter().map(|l| text_of(l)).collect()
}

#[test]
fn white_space_is_unicode_white_space() {
    for u in 0..=0x10ffffu32 {
        if let Some(c) = char::from_u32(u) {
            assert_eq!(is_white_space(c), c.is_whitespace(), "{:x}", u);
        }
    }
}

#[test]
fn cutting_texts() {
    for s in ["", "a", ",", "a,b", ",a,,b,", "\u{20ac},x"] {
        let wanted: Vec<String> = s.split(',').map(|x| x.to_string()).collect();
        let got: Vec<String> = split(&chars(s), ',').iter().map(|x| text_of(x)).collect();
        assert_eq!(got, wanted);
    }
    for s in ["", "a", "\n", "a\n", "a\r\nb", "a\r\n\r\nb\n", "\r\n", "a\rb", "a\r", "\n\n", "a\n\r"] {
        let wanted: Vec<String> = s.lines().map(|x| x.to_string()).collect();
        assert_eq!(lines_of(s), wanted, "{:?}", s);
    }
    for s in ["", " ", "a", " a ", "\t\u{3000}x y\u{85}\n", "\u{200b} b"] {
        assert_eq!(text_of(&trim(&chars(s))), s.trim());
    }
    for s in ["", "ab", "abab", "ababa", "xab"] {
        assert_eq!(text_of(&strip_prefixes(&chars(s), &['a', 'b'])), s.trim_start_matches("ab"));
    }
}

#[test]
fn searching_texts() {
    assert_eq!(find(&chars("a\r\n\r\nb"), &chars("\r\n\r\n")), Some(1));
    assert_eq!(find(&chars("\r\n\r"), &chars("\r\n\r\n")), None);
    assert_eq!(find(&chars("abcabc"), &chars("ca")), Some(2));
    assert_eq!(find(&chars(""), &chars("")), Some(0));
    assert_eq!(position(&chars("abc"), 'c'), 2);
    assert_eq!(position(&chars("abc"), 'x'), 3);
    assert!(starts_with(&chars("abc"), &chars("ab")));
    assert!(!starts_with(&chars("a"), &chars("ab")));
    assert_eq!(chars_of("\u{20ac}x"), vec!['\u{20ac}', 'x']);
}

#[test]
fn numbers_in_texts() {
    for s in ["0", "7", "+7", "007", "-1", "", "+", "++1", "1 ", "65535", "65536", "a"] {
        assert_eq!(
            parse_unsigned(&chars(s), u16::MAX as u64),
            s.parse::<u16>().ok().map(|n| n as u64),
            "{:?}",
            s
        );
    }
    for s in ["18446744073709551615", "18446744073709551616", "99999999999999999999999999999999999999999999"] {
        assert_eq!(parse_unsigned(&chars(s), u64::MAX), s.parse::<u64>().ok());
    }
    for n in [0, 9, 10, 1234567890, u64::MAX] {
        assert_eq!(to_decimal(n), n.to_string());
    }
    assert_eq!(to_hex(&[0, 15, 16, 171, 255]), "000f10abff");
    let list = vec!["a".to_string(), "".to_string(), "b".to_string()];
    assert_eq!(join_all(&list, "; "), "a; ; b");
    assert_eq!(join_all(&vec![], "; "), "");
}

#[test]
fn administrators() {
    assert_eq!(parse_admin_users(None), vec!["akinus"]);
    assert_eq!(parse_admin_users(some(" Alice, BOB ,,\t, carol")), vec!["alice", "bob", "carol"]);
    assert!(parse_admin_users(some("")).is_empty());
    assert_eq!(parse_admin_users(some("\u{c4}nne, \u{130}")), vec!["\u{e4}nne", "i\u{307}"]);
    let admins = parse_admin_users(some("Alice,\u{c4}nne"));
    assert!(authorized(&admins, "ALICE"));
    assert!(authorized(&admins, "alice"));
    assert!(authorized(&admins, "\u{c4}NNE"));
    assert!(!authorized(&admins, "alice "));
    assert!(!authorized(&admins, ""));
    assert!(!authorized(&parse_admin_users(some(",,")), ""));
}

fn no_hub_env() -> HubEnv {
    HubEnv {
        server_port: None,
        hub_port: None,
        worker_port: None,
        hub_vpn_addr: None,
        hub_http_vpn_addr: None,
        admin_users: None,
        tunnel_certs_dir: None,
        duo_ikey: None,
        duo_skey: None,
        duo_host: None,
        wg_easy_password: None,
        wg_easy_host: None,
        hub_id: None,
        model_name: None,
        model_alias: None,
        model_layers: None,
        hidden_size: None,
        model_url: None,
        model_path: None,
        ctx_size: None,
        queue_url: None,
        worker_key: None,
    }
}

#[test]
fn hub_settings_by_default() {
    let s = hub_settings(no_hub_env());
    assert_eq!((s.hub_port, s.worker_port), (8080, 50051));
    assert_eq!(s.hub_vpn_addr, "10.8.0.1:50051");
    assert_eq!(s.hub_http_vpn_addr, "10.8.0.1:8080");
    assert_eq!(s.admin_users, vec!["akinus"]);
    assert_eq!(s.tunnel_certs_dir, "/etc/akai-tunnel/certs");
    assert!(s.duo.is_none());
    assert_eq!(s.wg_easy_password, "");
    assert_eq!(s.wg_easy_host, "wireguard:51821");
    assert_eq!(s.hub_id, "hub-1");
    assert_eq!(s.model.name, "unknown");
    assert_eq!((s.model.num_layers, s.model.hidden_size), (32, 4096));
    assert_eq!((s.model.num_heads, s.model.vocab_size), (32, 32000));
    assert_eq!(s.model_url, "");
    assert_eq!(s.model_alias, "akai-model");
    assert_eq!(s.model_path, "/models/model.gguf");
    assert_eq!(s.ctx_size, 8192);
    assert_eq!(s.queue_url, "http://ollama-queue:8000");
    assert!(s.worker_key.is_none());
}

#[test]
fn the_servers_port_goes_first() {
    let port = |server: Option<String>, hub: Option<String>| {
        let s = hub_settings(HubEnv { server_port: server, hub_port: hub, ..no_hub_env() });
        (s.hub_port, s.hub_http_vpn_addr)
    };
    assert_eq!(port(some("9001"), some("9002")), (9001, "10.8.0.1:9001".to_string()));
    assert_eq!(port(None, some("9002")), (9002, "10.8.0.1:9002".to_string()));
    assert_eq!(port(some("x"), some("9002")).0, 8080);
}

#[test]
fn hub_settings_given() {
    let s = hub_settings(HubEnv {
        hub_port: some("9000"),
        worker_port: some("70000"),
        hub_http_vpn_addr: some("h:1"),
        model_layers: some("x"),
        hidden_size: some("+12"),
        duo_ikey: some("i"),
        duo_skey: some("s"),
        duo_host: some("h"),
        wg_easy_password: some("p"),
        model_url: some("u"),
        model_alias: some("al"),
        worker_key: some("k"),
        ctx_size: some("4096"),
        ..no_hub_env()
    });
    assert_eq!((s.hub_port, s.worker_port), (9000, 50051));
    assert_eq!(s.hub_http_vpn_addr, "h:1");
    assert_eq!((s.model.num_layers, s.model.hidden_size), (32, 12));
    assert_eq!(s.duo.unwrap().host, "h");
    assert_eq!((s.wg_easy_password.as_str(), s.model_url.as_str()), ("p", "u"));
    assert_eq!((s.model_alias.as_str(), s.ctx_size), ("al", 4096));
    assert_eq!(s.worker_key.as_deref(), Some("k"));
}

#[test]
fn worker_settings_given_and_by_default() {
    let none = WorkerEnv {
        hub_addr: None,
        worker_id: None,
        has_gpu: None,
        vram_gb: 0,
        layer_offset: None,
        num_layers: None,
    };
    let s = worker_settings(none);
    assert_eq!(s.hub_addr, "127.0.0.1:50051");
    assert_eq!(s.info.id, "unknown-worker");
    assert!(!s.info.has_gpu);
    assert_eq!((s.info.layer_offset, s.info.num_layers), (0, 32));
    let s = worker_settings(WorkerEnv {
        hub_addr: some("hub:1"),
        worker_id: some("w"),
        has_gpu: some("true"),
        vram_gb: 8.0f32.to_bits(),
        layer_offset: some("4"),
        num_layers: some("-4"),
    });
    assert_eq!((s.hub_addr.as_str(), s.info.id.as_str()), ("hub:1", "w"));
    assert!(s.info.has_gpu);
    assert_eq!(f32::from_bits(s.info.vram_gb), 8.0);
    assert_eq!((s.info.layer_offset, s.info.num_layers), (4, 32));
}

fn drain(buffer: &mut LineBuffer) -> Vec<String> {
    let mut out = Vec::new();
    while let Some(line) = buffer.next_line() {
        out.push(String::from_utf8(line).unwrap());
    }
    out
}

#[test]
fn messages_come_back_from_the_wire() {
    let mut sent = Vec::new();
    sent.extend(encode_msg(b"one".to_vec()).unwrap());
    sent.extend(encode_msg(b"two".to_vec()).unwrap());
    assert_eq!(encode_msg(b"".to_vec()), None);
    assert_eq!(encode_msg(b"a\nb".to_vec()), None);
    assert_eq!(encode_msg(b"\n".to_vec()), None);
    assert_eq!(encode_msg(b"a".to_vec()), Some(b"a\n".to_vec()));
    assert_eq!(sent, b"one\ntwo\n");
    let mut whole = LineBuffer::new();
    whole.push(&sent);
    assert_eq!(drain(&mut whole), vec!["one", "two"]);
    let mut bitwise = LineBuffer::new();
    let mut got = Vec::new();
    for b in &sent {
        bitwise.push(&[*b]);
        got.extend(drain(&mut bitwise));
    }
    assert_eq!(got, vec!["one", "two"]);
}

#[test]
fn empty_lines_are_skipped() {
    let mut buffer = LineBuffer::new();
    buffer.push(b"\n\na\n\nb");
    assert_eq!(drain(&mut buffer), vec!["a"]);
    buffer.push(b"c\n");
    assert_eq!(drain(&mut buffer), vec!["bc"]);
    assert!(buffer.next_line().is_none());
}

#[test]
fn a_map_from_identifiers() {
    let mut m: IdMap<u64> = IdMap::new();
    assert!(m.is_empty());
    m.insert("a", 1);
    m.insert("b", 2);
    m.insert("a", 3);
    assert_eq!((m.get("a"), m.get("b"), m.get("c")), (Some(3), Some(2), None));
    assert_eq!(m.ids().len(), 2);
    assert_eq!(m.remove("a"), Some(3));
    assert_eq!(m.remove("a"), None);
    assert_eq!(m.ids(), vec!["b"]);
    assert!(!m.is_empty());
}
