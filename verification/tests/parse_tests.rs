use polyserve::common::HttpHeader;
use polyserve::common::HttpMethod;
use polyserve::common::HttpRequestLine;
use polyserve::common::HttpVersion;
use polyserve::common::parse_u8;
use polyserve::common::u64_to_string;
use polyserve::request_config::RequestConfig;
use polyserve::request_config::ServerConfig;
use polyserve::response::Response;
use polyserve::server::Server;
use polyserve::strutil::split_on;
use polyserve::strutil::str_join_comma;
use polyserve::strutil::str_lex_le;
use polyserve::strutil::str_trim;

#[test]
fn method_parses_case_insensitively() {
    assert!(matches!(HttpMethod::from_str("GET"), HttpMethod::Get));
    assert!(matches!(HttpMethod::from_str("get"), HttpMethod::Get));
    match HttpMethod::from_str("POST") {
        HttpMethod::Other(m) => assert_eq!(m, "POST"),
        _ => panic!("POST is not GET"),
    }
    // any other token is normalized to upper case, on parse and on display
    match HttpMethod::from_str("patch") {
        HttpMethod::Other(m) => assert_eq!(m, "PATCH"),
        _ => panic!("patch is not GET"),
    }
    assert_eq!(HttpMethod::from_str("delete").display(), "DELETE");
    assert_eq!(HttpMethod::from_str("GET").display(), "GET");
}

#[test]
fn version_parses_and_falls_back() {
    let v = HttpVersion::from_str("HTTP/2.0");
    assert_eq!((v.0, v.1), (2, 0));
    let v = HttpVersion::from_str("HTTP/1.1");
    assert_eq!((v.0, v.1), (1, 1));
    let v = HttpVersion::from_str("FTP/9.9");
    assert_eq!((v.0, v.1), (1, 1));
    let v = HttpVersion::from_str("HTTP/9");
    assert_eq!((v.0, v.1), (1, 1));
    // numbers that do not fit in one byte fall back too
    let v = HttpVersion::from_str("HTTP/999.0");
    assert_eq!((v.0, v.1), (1, 1));
    assert_eq!(HttpVersion(1, 1).display(), "HTTP/1.1");
}

#[test]
fn request_line_parses_three_fields() {
    let rl = HttpRequestLine::from_str("GET /index.html HTTP/1.1").unwrap();
    assert!(matches!(rl.method, HttpMethod::Get));
    assert_eq!(rl.path, "/index.html");
    assert_eq!((rl.http_version.0, rl.http_version.1), (1, 1));
    assert_eq!(rl.display(), "GET /index.html HTTP/1.1");
    assert!(HttpRequestLine::from_str("GET /x").is_err());
    assert!(HttpRequestLine::from_str("").is_err());
}

#[test]
fn header_parses_and_displays() {
    let h = HttpHeader::from_str("Host:  example.test , other ").unwrap();
    assert_eq!(h.name, "Host");
    assert_eq!(h.values, vec!["example.test".to_string(), "other".to_string()]);
    assert_eq!(h.display(), "Host: example.test,other");
    assert!(HttpHeader::from_str("no colon here").is_err());
}

#[test]
fn request_from_lines_keeps_parsing_headers() {
    let lines = vec![
        "Host: example.test".to_string(),
        "not a header line".to_string(),
        "Accept: text/html, text/plain".to_string(),
    ];
    let req = polyserve::request::Request::from_lines("GET / HTTP/1.1", &lines).unwrap();
    assert!(matches!(req.method(), HttpMethod::Get));
    assert_eq!(req.path(), "/");
    assert_eq!((req.http_version().0, req.http_version().1), (1, 1));
    assert_eq!(req.headers.len(), 2);
    assert_eq!(req.headers[0].name, "Host");
    assert_eq!(req.headers[1].name, "Accept");
    assert_eq!(req.headers[1].values, vec!["text/html".to_string(), "text/plain".to_string()]);
    assert!(polyserve::request::Request::from_lines("GET /", &lines).is_err());
}

#[test]
fn numbers_parse_and_format() {
    assert_eq!(parse_u8("255"), Some(255));
    assert_eq!(parse_u8("0"), Some(0));
    assert_eq!(parse_u8("256"), None);
    assert_eq!(parse_u8("12a"), None);
    assert_eq!(parse_u8(""), None);
    assert_eq!(u64_to_string(0), "0");
    assert_eq!(u64_to_string(1024), "1024");
    assert_eq!(u64_to_string(65535), "65535");
    assert_eq!(u64_to_string(u64::MAX), "18446744073709551615");
}

#[test]
fn string_helpers_behave() {
    assert_eq!(split_on("/a/b", '/'), vec!["".to_string(), "a".to_string(), "b".to_string()]);
    assert_eq!(split_on("", '/'), vec!["".to_string()]);
    assert_eq!(str_trim("  x \t"), "x");
    assert_eq!(str_trim(""), "");
    assert!(str_lex_le("a.html", "a.md"));
    assert!(!str_lex_le("b", "a"));
    assert!(str_lex_le("a", "a"));
    let joined = str_join_comma(&vec!["a".to_string(), "b".to_string()]);
    assert_eq!(joined, "a,b");
}

#[test]
fn default_config_has_documented_values() {
    let c = ServerConfig::default();
    assert!(c.force_trailing_slash);
    assert_eq!(c.allow_extension_elision, vec!["html".to_string(), "md".to_string()]);
    assert!(c.use_index);
    assert!(c.auto_index);
    assert_eq!(c.allow_methods, vec!["GET".to_string()]);
    assert!(c.render_hbs);
}

#[test]
fn cascade_merges_root_first_last_writer_wins() {
    let texts = vec![
        Some("[server]\nauto_index = false\nallow_methods = [\"GET\", \"HEAD\"]\n".to_string()),
        None,
        Some("[server]\nauto_index = true\n".to_string()),
    ];
    let cfg = RequestConfig::generate_from_ancestors(&texts);
    // the deeper override wins for auto_index; the list replaced wholesale
    assert!(cfg.server.auto_index);
    assert_eq!(cfg.server.allow_methods, vec!["GET".to_string(), "HEAD".to_string()]);
    // untouched fields keep the defaults
    assert!(cfg.server.use_index);
    assert!(cfg.server.force_trailing_slash);
}

#[test]
fn unparsable_override_is_skipped() {
    let texts = vec![Some("this is { not toml".to_string())];
    let cfg = RequestConfig::generate_from_ancestors(&texts);
    assert!(cfg.server.auto_index);
    assert_eq!(cfg.server.allow_methods, vec!["GET".to_string()]);
}

#[test]
fn response_head_has_exact_wire_form() {
    let r = Response::new(200);
    assert_eq!(
        r.send_empty(),
        "HTTP/1.1 200 OK\nServer: polyserve (rust)\nContent-Length: 0\nContent-Type: text/plain; charset=UTF-8\n\n"
    );
    let r = Response::new(404);
    let payload = r.send_str("gone");
    assert_eq!(
        payload,
        "HTTP/1.1 404 Not Found\nServer: polyserve (rust)\nContent-Length: 4\n\ngone"
    );
    let r = Response::new(200);
    let head = r.send_file(1234);
    assert_eq!(head, "HTTP/1.1 200 OK\nServer: polyserve (rust)\nContent-Length: 1234\n\n");
}

#[test]
fn server_builder_keeps_settings() {
    let mut s = Server::new();
    assert_eq!(s.inner.interface, "::");
    assert_eq!(s.inner.port, 8080);
    assert_eq!(s.inner.root, ".");
    assert!(!s.inner.ipv4);
    s.set_ipv4(true);
    s.with_interface("127.0.0.1");
    s.with_port(3000);
    s.with_root("./site");
    assert!(s.inner.ipv4);
    assert_eq!(s.inner.interface, "127.0.0.1");
    assert_eq!(s.inner.port, 3000);
    assert_eq!(s.inner.root, "./site");
    let listening = Server { inner: polyserve::server::Listening { ready_state: s.inner } };
    let back = listening.disconnect();
    assert_eq!(back.inner.port, 3000);
    assert_eq!(back.inner.root, "./site");
}
