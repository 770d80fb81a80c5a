use f_boom::config::{
    default_get, default_http_mode, default_timeout, App, Command, GrpcConfig, HttpConfig,
    Payload, WsConfig, WsPayload,
};
use f_boom::features::{byte_unit, is_rss_line, ByteUnit};
use f_boom::fib::fib;
use f_boom::grpc::{grpc_mode, grpc_reply_sample, grpc_targets, mode_label, GrpcMode, GrpcReply};
use f_boom::http::{
    app_label, http_targets, json_body, pool_protocol, pool_request, pool_worker_count,
    machine_worker_count, parse_method, parse_url, protocol_for, queue_capacity, HttpMethodKind,
    JsonBody, PoolProtocol, Protocol,
};
use f_boom::process::{launch_plan, runner_launch_plan, perf_target};
use f_boom::raw::{keep_alive_get_request, response_ok};
use f_boom::ws::{pong_reply_ok, reply_sample, ws_payload_kind, ws_targets, WsKind, WsReply};

fn strings(v: &[&str]) -> Vec<String> {
    v.iter().map(|s| s.to_string()).collect()
}

fn empty_app() -> App {
    App { command: None, terminal: None, perf: None, http: None, ws: None, grpc: None, cli: None }
}

fn http_cfg(url: &str) -> HttpConfig {
    HttpConfig {
        url: url.to_string(),
        max_concurrent: 4,
        max_duration: 2,
        timeout: default_timeout(),
        mode: default_http_mode(),
        method: default_get(),
        payload: None,
    }
}

#[test]
fn defaults() {
    assert_eq!(default_timeout(), 30);
    assert_eq!(default_http_mode(), vec!["http1".to_string()]);
    assert_eq!(default_get(), "get");
}

#[test]
fn methods() {
    assert_eq!(parse_method(&"get".to_string()), Some(HttpMethodKind::Get));
    assert_eq!(parse_method(&"post".to_string()), Some(HttpMethodKind::Post));
    assert_eq!(parse_method(&"put".to_string()), Some(HttpMethodKind::Put));
    assert_eq!(parse_method(&"delete".to_string()), Some(HttpMethodKind::Delete));
    assert_eq!(parse_method(&"GET".to_string()), None);
    assert_eq!(parse_method(&"patch".to_string()), None);
}

#[test]
fn protocols() {
    assert_eq!(protocol_for(&strings(&["http2"])), Protocol::Http2PriorKnowledge);
    assert_eq!(protocol_for(&strings(&["http1"])), Protocol::Http1Only);
    assert_eq!(protocol_for(&strings(&["http1", "http2"])), Protocol::Http1Only);
    assert_eq!(protocol_for(&strings(&["http2", "http3"])), Protocol::Http1Only);
    assert_eq!(protocol_for(&strings(&[])), Protocol::Http1Only);
}

#[test]
fn pool_protocols() {
    assert_eq!(pool_protocol(&strings(&["http1", "http2", "http3"]), 30), PoolProtocol::Negotiated);
    assert_eq!(pool_protocol(&strings(&["http3", "http1"]), 30), PoolProtocol::Negotiated);
    assert_eq!(pool_protocol(&strings(&["http2"]), 30), PoolProtocol::Http2PriorKnowledge);
    assert_eq!(
        pool_protocol(&strings(&["http3"]), 12),
        PoolProtocol::Http3PriorKnowledge { idle_timeout_secs: 12, send_grease: false }
    );
    assert_eq!(pool_protocol(&strings(&["http1"]), 30), PoolProtocol::Http1Only);
    assert_eq!(pool_protocol(&strings(&["spdy"]), 30), PoolProtocol::Http1Only);
}

#[test]
fn json_bodies() {
    let b = JsonBody::new("{\"a\":1}".to_string());
    assert_eq!(b.bytes.as_ref(), b"{\"a\":1}");
    let from_payload = json_body(Some(Payload { kind: "xml".to_string(), val: "[1]".to_string() }));
    assert_eq!(from_payload.bytes.as_ref(), b"[1]");
    let none = json_body(None);
    assert_eq!(none.bytes.as_ref(), b"{}");
    let unicode = JsonBody::new("\"é\"".to_string());
    assert_eq!(unicode.bytes.as_ref(), "\"é\"".as_bytes());
}

#[test]
fn targets_and_labels() {
    let mut app = empty_app();
    assert!(http_targets(&app).is_none());
    assert_eq!(app_label(&app), "");
    app.http = Some(vec![]);
    assert!(http_targets(&app).is_none());
    app.http = Some(vec![http_cfg("http://a/"), http_cfg("http://b/")]);
    app.command = Some(Command { first: "./server".to_string(), args: None });
    let list = http_targets(&app).unwrap();
    assert_eq!(list.len(), 2);
    assert_eq!(list[1].url, "http://b/");
    assert_eq!(app_label(&app), "./server");
}

#[test]
fn queue_capacities() {
    assert_eq!(queue_capacity(8, 2), Some(16));
    assert_eq!(queue_capacity(0, 4), Some(0));
    assert_eq!(queue_capacity(u32::MAX, 4), (u32::MAX as usize).checked_mul(4));
    assert_eq!(queue_capacity(2, usize::MAX), None);
}

#[test]
fn urls() {
    let cases = [
        ("http://localhost:8080/api/v1", "localhost:8080", "/api/v1"),
        ("https://example.com", "example.com", "/"),
        ("https://example.com:443/x", "example.com", "/x"),
        ("http://h:80/x", "h", "/x"),
        ("http://h:443/", "h:443", "/"),
        ("h:+81/", "h:81", "/"),
        ("h:0081", "h:81", "/"),
        ("h:abc/p", "h", "/p"),
        ("h:70000/", "h", "/"),
        ("ftp://h/a/b", "ftp", "//h/a/b"),
        ("", "", "/"),
    ];
    for (url, host, path) in cases {
        let (h, p) = parse_url(url).unwrap();
        assert_eq!((h.as_str(), p.as_str()), (host, path), "url = {url}");
    }
}

#[test]
fn pool_requests() {
    let json = Some(f_boom::config_reader::Payload { kind: "json".to_string(), val: "{}".to_string() });
    let text = Some(f_boom::config_reader::Payload { kind: "text".to_string(), val: "x".to_string() });
    let get = pool_request(&"get".to_string(), &None).unwrap();
    assert_eq!(get.method, HttpMethodKind::Get);
    assert!(get.json.is_none());
    let del = pool_request(&"delete".to_string(), &json).unwrap();
    assert_eq!(del.method, HttpMethodKind::Delete);
    assert!(del.json.is_none());
    let post = pool_request(&"post".to_string(), &json).unwrap();
    assert_eq!(post.method, HttpMethodKind::Post);
    assert_eq!(post.json.as_deref(), Some("{}"));
    let put = pool_request(&"put".to_string(), &json).unwrap();
    assert_eq!(put.method, HttpMethodKind::Put);
    assert!(pool_request(&"post".to_string(), &text).is_none());
    assert!(pool_request(&"put".to_string(), &None).is_none());
    assert!(pool_request(&"head".to_string(), &json).is_none());
}

#[test]
fn worker_counts() {
    assert_eq!(pool_worker_count(4), Some(24));
    assert_eq!(pool_worker_count(usize::MAX), None);
    let n = machine_worker_count().unwrap();
    assert!(n >= 6 && n % 6 == 0);
}

#[test]
fn raw_request_text() {
    assert_eq!(
        keep_alive_get_request("127.0.0.1:8080", "/1"),
        "GET /1 HTTP/1.1\r\nHost: 127.0.0.1:8080\r\nConnection: keep-alive\r\n\r\n"
    );
}

#[test]
fn raw_responses() {
    assert!(response_ok(b"HTTP/1.1 200 OK\r\nContent-Length: 0\r\n\r\n"));
    assert!(response_ok(b"HTTP/1.1 200 OK\r\nContent-"));
    assert!(!response_ok(b"HTTP/1.1 404 Not Found\r\n\r\n"));
    assert!(!response_ok(b"HTTP/1.1 20"));
    assert!(!response_ok(b""));
    assert!(!response_ok(b"garbage"));
}

#[test]
fn ws_kinds_and_replies() {
    assert_eq!(ws_payload_kind(&"ping".to_string()), Some(WsKind::Ping));
    assert_eq!(ws_payload_kind(&"text".to_string()), Some(WsKind::Text));
    assert_eq!(ws_payload_kind(&"binary".to_string()), None);
    assert_eq!(reply_sample(WsReply::Pong, 12).unwrap().latency_ns(), 12);
    assert_eq!(reply_sample(WsReply::Text, 13).unwrap().latency_ns(), 13);
    assert!(!reply_sample(WsReply::Other, 14).unwrap().is_ok());
    assert!(reply_sample(WsReply::ReadError, 15).is_none());
    assert!(reply_sample(WsReply::Closed, 16).is_none());
    assert!(pong_reply_ok(WsReply::Pong));
    assert!(!pong_reply_ok(WsReply::Text));
}

#[test]
fn ws_target_lists() {
    let mut app = empty_app();
    assert!(ws_targets(&app).is_none());
    app.ws = Some(vec![WsConfig {
        url: "ws://h/".to_string(),
        max_concurrent: 1,
        max_duration: 1,
        payload: WsPayload { kind: "ping".to_string(), val: "hi".to_string() },
    }]);
    assert_eq!(ws_targets(&app).unwrap().len(), 1);
}

#[test]
fn grpc_modes_and_replies() {
    assert_eq!(grpc_mode(&"ping".to_string()), Some(GrpcMode::Ping));
    assert_eq!(grpc_mode(&"2_way_stream".to_string()), Some(GrpcMode::TwoWayStream));
    assert_eq!(grpc_mode(&"stream".to_string()), None);
    assert_eq!(grpc_reply_sample(GrpcReply::Answered, 9).unwrap().latency_ns(), 9);
    assert!(!grpc_reply_sample(GrpcReply::Failed, 9).unwrap().is_ok());
    assert!(grpc_reply_sample(GrpcReply::Closed, 9).is_none());
    assert_eq!(mode_label("2_way_stream"), "2 way stream");
    assert_eq!(mode_label("ping"), "ping");
    let mut app = empty_app();
    app.grpc = Some(vec![GrpcConfig {
        url: "http://h:50051".to_string(),
        max_concurrent: 1,
        max_duration: 1,
        mode: "ping".to_string(),
    }]);
    assert_eq!(grpc_targets(&app).unwrap()[0].mode, "ping");
}

#[test]
fn launch_plans() {
    let mut app = empty_app();
    assert!(launch_plan(&app).is_none());
    app.command = Some(Command { first: "srv".to_string(), args: Some(strings(&["-p", "1"])) });
    let plan = launch_plan(&app).unwrap();
    assert_eq!(plan.exe, "srv");
    assert_eq!(plan.args, strings(&["-p", "1"]));
    assert!(!plan.show_output && !plan.capture_perf);
    app.terminal = Some(true);
    app.perf = Some(false);
    let plan = launch_plan(&app).unwrap();
    assert!(plan.show_output && !plan.capture_perf);
}

#[test]
fn runner_launch() {
    let app = f_boom::config_reader::App {
        http: None,
        ws: None,
        grpc: None,
        perf: Some(true),
        command: Some(f_boom::config_reader::Command { first: "srv".to_string(), args: None }),
        terminal: true,
        cli: None,
    };
    let plan = runner_launch_plan(&app);
    assert_eq!(plan.exe, "srv");
    assert!(plan.args.is_empty());
    assert!(plan.show_output && plan.capture_perf);
}

#[test]
fn perf_targets() {
    assert_eq!(perf_target(0), None);
    assert_eq!(perf_target(1234), Some(1234));
}

#[test]
fn byte_units() {
    assert_eq!(byte_unit(0), ByteUnit::Kb);
    assert_eq!(byte_unit(1024 * 1024 - 1), ByteUnit::Kb);
    assert_eq!(byte_unit(1024 * 1024), ByteUnit::Mb);
    assert_eq!(byte_unit(1024 * 1024 * 1024 - 1), ByteUnit::Mb);
    assert_eq!(byte_unit(1024 * 1024 * 1024), ByteUnit::Gb);
    assert_eq!(byte_unit(u64::MAX), ByteUnit::Gb);
}

#[test]
fn rss_lines() {
    assert!(is_rss_line("VmRSS:\t  123456 kB"));
    assert!(!is_rss_line("VmHWM:\t  123456 kB"));
    assert!(!is_rss_line("VmRS"));
}

#[test]
fn fibonacci() {
    assert_eq!(fib(0), 0);
    assert_eq!(fib(1), 1);
    assert_eq!(fib(10), 55);
    assert_eq!(fib(25), 75025);
}
