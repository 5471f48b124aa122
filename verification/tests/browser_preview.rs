use karmx::csp::{inject_bridge, is_hop_by_hop, rewrite_policy};
use karmx::preview::{
    clip, closed_message, csrf_matches, forwards_request_header, is_html_content_type,
    opened_message, preview_port, response_header_action, summarize, target_url, HeaderAction,
};
use karmx::proto::{
    unwrap_request, ConsoleLog, ConsoleLogLine, DomElement, FileLineRange, ProtoError, Reader,
};

fn varint(mut v: u64, out: &mut Vec<u8>) {
    loop {
        let mut b = (v & 0x7f) as u8;
        v >>= 7;
        if v != 0 {
            b |= 0x80;
        }
        out.push(b);
        if v == 0 {
            return;
        }
    }
}

fn string_field(n: u32, s: &str, out: &mut Vec<u8>) {
    varint(((n as u64) << 3) | 2, out);
    varint(s.len() as u64, out);
    out.extend_from_slice(s.as_bytes());
}

#[test]
fn appends_missing_directives() {
    let out = rewrite_policy("default-src 'self'");
    assert!(out.contains("default-src 'self'"));
    assert!(out.contains("script-src 'self' 'unsafe-inline' 'unsafe-eval'"));
    assert!(out.contains("connect-src 'self'"));
}

#[test]
fn preserves_existing_directive_sources() {
    let out = rewrite_policy("script-src 'self' https://cdn.example.com");
    assert!(out.contains("https://cdn.example.com"));
    assert!(out.contains("'unsafe-eval'"));
}

#[test]
fn does_not_duplicate_already_permissive_tokens() {
    let out = rewrite_policy("script-src 'self' 'unsafe-inline' 'unsafe-eval'");
    assert_eq!(out.matches("'unsafe-eval'").count(), 1);
}

#[test]
fn hop_by_hop_detection_is_case_insensitive() {
    assert!(is_hop_by_hop("Transfer-Encoding"));
    assert!(!is_hop_by_hop("content-type"));
}

#[test]
fn injects_after_head_open_tag() {
    let html = "<html><head><title>t</title></head><body></body></html>";
    let out = inject_bridge(html, "tok123");
    assert!(out.contains("codeium-csrf-token"));
    assert!(out.contains("tok123"));
    let head = out.find("<head").unwrap();
    let script = out.find("cascade-browser-integration.js").unwrap();
    let title = out.find("<title>").unwrap();
    assert!(head < script && script < title);
}

#[test]
fn injects_without_head_tag() {
    let out = inject_bridge("<body>hi</body>", "tok");
    assert!(out.starts_with("<meta"));
    assert!(out.ends_with("<body>hi</body>"));
}

#[test]
fn handles_uppercase_head() {
    let out = inject_bridge("<HTML><HEAD></HEAD></HTML>", "t");
    let script = out.find("cascade-browser-integration.js").unwrap();
    let head_end = out.to_ascii_lowercase().find("</head>").unwrap();
    assert!(script < head_end);
}

#[test]
fn clip_is_char_safe() {
    assert_eq!(clip("hello", 10), "hello");
    assert!(clip("héllo wörld", 3).starts_with("hél"));
}

#[test]
fn clip_marks_what_was_cut() {
    assert_eq!(clip("héllo", 2), "hé…");
    assert_eq!(clip("abc", 3), "abc");
}

#[test]
fn decodes_dom_element_round_trip() {
    let mut flr = Vec::new();
    string_field(1, "/src/App.tsx", &mut flr);
    varint(2 << 3, &mut flr);
    varint(42, &mut flr);

    let mut el = Vec::new();
    string_field(1, "div", &mut el);
    string_field(2, "<div id=\"root\">hi</div>", &mut el);
    string_field(3, "root", &mut el);
    string_field(4, "App", &mut el);
    varint((5 << 3) | 2, &mut el);
    varint(flr.len() as u64, &mut el);
    el.extend_from_slice(&flr);

    let mut body = Vec::new();
    varint((1 << 3) | 2, &mut body);
    varint(el.len() as u64, &mut body);
    body.extend_from_slice(&el);

    let payload = unwrap_request(&body).expect("unwrap");
    let dom = DomElement::decode(payload).expect("decode");
    assert_eq!(dom.tag_name, "div");
    assert_eq!(dom.id, "root");
    assert_eq!(dom.react_component_name, "App");
    assert_eq!(dom.outer_html, "<div id=\"root\">hi</div>");
    let flr = dom.file_line_range.expect("file line range");
    assert_eq!(flr.absolute_uri, "/src/App.tsx");
    assert_eq!(flr.start_line, 42);
}

#[test]
fn decodes_console_log_round_trip() {
    let mut line = Vec::new();
    string_field(1, "10:00:01", &mut line);
    string_field(2, "error", &mut line);
    string_field(3, "boom", &mut line);

    let mut log = Vec::new();
    varint((1 << 3) | 2, &mut log);
    varint(line.len() as u64, &mut log);
    log.extend_from_slice(&line);
    string_field(2, "localhost:3000", &mut log);

    let mut body = Vec::new();
    varint((1 << 3) | 2, &mut body);
    varint(log.len() as u64, &mut body);
    body.extend_from_slice(&log);

    let payload = unwrap_request(&body).expect("unwrap");
    let c = ConsoleLog::decode(payload).expect("decode");
    assert_eq!(c.server_address, "localhost:3000");
    assert_eq!(c.lines.len(), 1);
    assert_eq!(c.lines[0].kind, "error");
    assert_eq!(c.lines[0].output, "boom");
}

#[test]
fn skips_unknown_fields() {
    let mut el = Vec::new();
    string_field(1, "span", &mut el);
    varint(9 << 3, &mut el);
    varint(7, &mut el);
    let dom = DomElement::decode(&el).expect("decode");
    assert_eq!(dom.tag_name, "span");
}

#[test]
fn malformed_buffers_give_each_error() {
    assert_eq!(unwrap_request(&[0x80]).unwrap_err(), ProtoError::TruncatedVarint);
    assert_eq!(unwrap_request(&[]).unwrap_err(), ProtoError::MissingPayload);
    // field 1, length 5, but only one byte follows
    assert_eq!(unwrap_request(&[0x0a, 0x05, 0x41]).unwrap_err(), ProtoError::TruncatedField);
    // wire type 3 (start group) is not supported
    assert_eq!(
        unwrap_request(&[0x0b]).unwrap_err(),
        ProtoError::UnsupportedWireType(3)
    );
    let too_long = [0xffu8; 11];
    assert_eq!(unwrap_request(&too_long).unwrap_err(), ProtoError::VarintTooLong);
    assert_eq!(ProtoError::UnsupportedWireType(6).to_string(), "unsupported wire type 6");
    assert_eq!(ProtoError::MissingPayload.to_string(), "request envelope has no field 1 payload");
}

#[test]
fn reader_walks_fields_in_order() {
    let mut buf = Vec::new();
    varint(1 << 3, &mut buf);
    varint(300, &mut buf);
    string_field(2, "ab", &mut buf);
    let mut r = Reader::new(&buf);
    assert!(!r.is_empty());
    match r.next_field().unwrap() {
        Some((1, karmx::proto::Field::Varint(v))) => assert_eq!(v, 300),
        _ => panic!("expected field 1 varint"),
    }
    match r.next_field().unwrap() {
        Some((2, karmx::proto::Field::Bytes(b))) => assert_eq!(b, b"ab"),
        _ => panic!("expected field 2 bytes"),
    }
    assert!(r.is_empty());
    assert!(r.next_field().unwrap().is_none());
}

#[test]
fn headers_are_filtered_for_the_proxy() {
    assert!(!forwards_request_header("Host"));
    assert!(!forwards_request_header("Connection"));
    assert!(forwards_request_header("Accept"));
    assert_eq!(response_header_action("Content-Length"), HeaderAction::Drop);
    assert_eq!(response_header_action("Content-Security-Policy"), HeaderAction::RewriteCsp);
    assert_eq!(
        response_header_action("content-security-policy-report-only"),
        HeaderAction::Drop
    );
    assert_eq!(response_header_action("X-Frame-Options"), HeaderAction::Keep);
}

#[test]
fn html_is_recognised_and_csrf_checked() {
    assert!(is_html_content_type(b"Text/HTML; charset=utf-8"));
    assert!(!is_html_content_type(b"application/json"));
    assert!(csrf_matches("tok", Some("tok")));
    assert!(!csrf_matches("tok", Some("other")));
    assert!(!csrf_matches("tok", None));
}

#[test]
fn target_urls_and_ports() {
    assert_eq!(target_url("http://localhost:3000//", Some("/a?b=1")), "http://localhost:3000/a?b=1");
    assert_eq!(target_url("http://localhost:3000", None), "http://localhost:3000/");
    assert_eq!(preview_port(None), 0);
    assert_eq!(preview_port(Some(8080)), 8080);
    assert_eq!(preview_port(Some(65536 + 5)), 5);
}

#[test]
fn summary_counts_and_lists_captures() {
    let dom = vec![DomElement {
        tag_name: "div".into(),
        outer_html: "<div/>".into(),
        id: "root".into(),
        react_component_name: "App".into(),
        file_line_range: Some(FileLineRange {
            absolute_uri: "/src/App.tsx".into(),
            start_line: 7,
        }),
    }];
    let logs = vec![ConsoleLog {
        lines: vec![ConsoleLogLine {
            timestamp_str: "10:00".into(),
            kind: "log".into(),
            output: "hi".into(),
        }],
        server_address: "localhost".into(),
    }];
    let s = summarize(&dom, &logs);
    assert_eq!(
        s,
        "DOM elements captured: 1\n  <div> id=\"root\" component=\"App\" at /src/App.tsx:7\n    <div/>\n\nConsole output (1 lines):\n  [10:00] log: hi\n"
    );
}

#[test]
fn open_and_close_replies() {
    let m = opened_message("127.0.0.1:5000", "http://localhost:3000", "S");
    assert!(m.starts_with("preview_id: 127.0.0.1:5000\nproxy: http://127.0.0.1:5000\n"));
    assert!(m.contains("\n\nS\nLoad http://127.0.0.1:5000 in a browser"));
    assert_eq!(closed_message("x", true), Ok("closed preview x".to_string()));
    assert_eq!(closed_message("x", false), Err("no preview with id x".to_string()));
}

#[test]
fn every_policy_ends_up_allowing_the_bridge() {
    for policy in [
        "",
        "default-src 'none'",
        "SCRIPT-SRC 'none'; img-src *",
        "connect-src https://api.example.com;script-src 'self'",
        " ; ; ",
    ] {
        let out = rewrite_policy(policy);
        let parts: Vec<&str> = out.split(';').map(|p| p.trim()).collect();
        let script = parts
            .iter()
            .find(|p| p.split_whitespace().next().map(|t| t.eq_ignore_ascii_case("script-src")) == Some(true))
            .unwrap_or_else(|| panic!("no script-src in {out:?}"));
        for src in ["'self'", "'unsafe-inline'", "'unsafe-eval'"] {
            assert!(script.contains(src), "{policy:?} -> {out:?}");
        }
        let connect = parts
            .iter()
            .find(|p| p.split_whitespace().next().map(|t| t.eq_ignore_ascii_case("connect-src")) == Some(true))
            .unwrap_or_else(|| panic!("no connect-src in {out:?}"));
        assert!(connect.contains("'self'"));
    }
    assert_eq!(
        rewrite_policy("img-src *; script-src a"),
        "img-src *; script-src a 'self' 'unsafe-inline' 'unsafe-eval'; connect-src 'self'"
    );
}

#[test]
fn injection_changes_nothing_but_the_tag() {
    let html = "<!doctype html><html><head lang=\"en\"><title>x</title></head></html>";
    let out = inject_bridge(html, "t");
    let tag = "<meta name=\"codeium-csrf-token\" content=\"t\"><script src=\"/cascade-browser-integration.js\"></script>";
    let at = out.find(tag).unwrap();
    assert_eq!(&out[..at], "<!doctype html><html><head lang=\"en\">");
    assert_eq!(format!("{}{}", &out[..at], &out[at + tag.len()..]), html);
}

#[test]
fn exposes_both_tools() {
    let tools = karmx::preview::get_tools();
    let names: Vec<&str> = tools.iter().map(|t| t.name).collect();
    assert!(names.contains(&karmx::preview::OPEN_TOOL));
    assert!(names.contains(&karmx::preview::CLOSE_TOOL));
    for t in &tools {
        let schema: serde_json::Value = serde_json::from_str(t.input_schema).unwrap();
        assert_eq!(schema["type"], "object");
    }
}

#[test]
fn rewriting_twice_is_rewriting_once() {
    for policy in [
        "",
        "default-src 'none'",
        "script-src 'self' 'unsafe-inline' 'unsafe-eval'",
        "SCRIPT-SRC a ; connect-src b; img-src *",
    ] {
        let once = rewrite_policy(policy);
        assert_eq!(rewrite_policy(&once), once, "{policy:?}");
    }
    assert_eq!(
        rewrite_policy("script-src 'self' 'unsafe-inline' 'unsafe-eval'"),
        "script-src 'self' 'unsafe-inline' 'unsafe-eval'; connect-src 'self'"
    );
}
