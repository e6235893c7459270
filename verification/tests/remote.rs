use meerkat_lib::remote::{remote_lookup_reply, remote_lookup_timeout, trim_end_matches, RemoteMessage};
use meerkat_lib::{EvalError, Manager};

#[test]
fn trims_every_trailing_match() {
    assert_eq!(trim_end_matches("/ip4/1.2.3.4/p2p/12D3/s1", "/s1"), "/ip4/1.2.3.4/p2p/12D3");
    assert_eq!(trim_end_matches("a/s1/s1", "/s1"), "a");
    assert_eq!(trim_end_matches("aaa", "aa"), "a");
    assert_eq!(trim_end_matches("abc", "x"), "abc");
    assert_eq!(trim_end_matches("", "x"), "");
}

#[test]
fn request_for_a_remote_service() {
    let mut m = Manager::new();
    m.remote_services.push(("s1".to_string(), "/ip4/10.0.0.1/tcp/4001/p2p/PEER/s1".to_string()));
    let addrs = vec!["/ip4/127.0.0.1/tcp/5000".to_string()];
    let (addr, msg) = m.remote_lookup_request("s1", "x", 7, &addrs, "ME").unwrap();
    assert_eq!(addr, "/ip4/10.0.0.1/tcp/4001/p2p/PEER");
    assert_eq!(
        msg,
        RemoteMessage::LookupRequest {
            request_id: 7,
            service: "s1".to_string(),
            member: "x".to_string(),
            reply_to: "/ip4/127.0.0.1/tcp/5000/p2p/ME".to_string(),
        }
    );
    let (_, msg) = m.remote_lookup_request("s1", "x", 8, &vec![], "ME").unwrap();
    match msg {
        RemoteMessage::LookupRequest { reply_to, .. } => assert_eq!(reply_to, ""),
        other => panic!("unexpected {:?}", other),
    }
}

#[test]
fn request_for_an_unknown_remote_service() {
    let m = Manager::new();
    match m.remote_lookup_request("s9", "x", 1, &vec![], "ME") {
        Err(EvalError::LookupError(s)) => assert_eq!(s, "Remote service 's9' not found"),
        other => panic!("unexpected {:?}", other),
    }
}

#[test]
fn only_the_matching_reply_answers() {
    let ok = RemoteMessage::LookupResponse { request_id: 3, value: "{\"Number\":{\"val\":1}}".to_string() };
    assert_eq!(remote_lookup_reply(3, &ok).unwrap().unwrap(), "{\"Number\":{\"val\":1}}");
    assert!(remote_lookup_reply(4, &ok).is_none());
    let err = RemoteMessage::LookupError { request_id: 3, error: "no such member".to_string() };
    match remote_lookup_reply(3, &err) {
        Some(Err(EvalError::LookupError(s))) => assert_eq!(s, "no such member"),
        other => panic!("unexpected {:?}", other),
    }
    assert!(remote_lookup_reply(2, &err).is_none());
    let req = RemoteMessage::LookupRequest { request_id: 3, service: "s".to_string(), member: "m".to_string(), reply_to: String::new() };
    assert!(remote_lookup_reply(3, &req).is_none());
}

#[test]
fn gives_up_after_the_timeout() {
    assert!(remote_lookup_timeout("s1", "x", 15).is_none());
    match remote_lookup_timeout("s1", "x", 16) {
        Some(EvalError::NetworkError(s)) => assert_eq!(s, "Timeout waiting for remote lookup of s1.x"),
        other => panic!("unexpected {:?}", other),
    }
}
