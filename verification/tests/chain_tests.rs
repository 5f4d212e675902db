use polyserve::middleware::handle_request;
use polyserve::response::BodySource;
use polyserve::resource::Resource;
use polyserve::resource::ResourceContext;
use polyserve::vfs::DirOverride;
use polyserve::vfs::FsEntry;
use polyserve::vfs::FsSnapshot;
use polyserve::vfs::Timestamp;

fn path(parts: &[&str]) -> Vec<String> {
    parts.iter().map(|s| s.to_string()).collect()
}

fn file(parts: &[&str]) -> FsEntry {
    FsEntry {
        path: path(parts),
        is_dir: false,
        len: 16,
        readonly: false,
        modified: Some(Timestamp { secs: 0, nanos: 0 }),
        accessed: None,
        created: None,
    }
}

fn dir(parts: &[&str]) -> FsEntry {
    FsEntry {
        path: path(parts),
        is_dir: true,
        len: 0,
        readonly: false,
        modified: None,
        accessed: None,
        created: None,
    }
}

fn snap(entries: Vec<FsEntry>) -> FsSnapshot {
    FsSnapshot { entries, overrides: Vec::new() }
}

fn header<'a>(ctx: &'a polyserve::middleware::RequestContext, name: &str) -> Option<&'a Vec<String>> {
    for h in ctx.response.headers.iter() {
        if h.name == name {
            return Some(&h.values);
        }
    }
    None
}

#[test]
fn dir_with_index_redirects_to_slash() {
    // Root /site, file /site/a/index.html, use_index on, force_trailing_slash on:
    // requesting /a is a 301 to /a/.
    let s = snap(vec![dir(&["a"]), file(&["a", "index.html"])]);
    let ctx = handle_request("GET", "/a", &s);
    assert_eq!(ctx.response.status_line.status_code, 301);
    assert_eq!(header(&ctx, "Location").unwrap()[0], "/a/");
}

#[test]
fn dir_with_index_served_with_slash() {
    let s = snap(vec![dir(&["a"]), file(&["a", "index.html"])]);
    let ctx = handle_request("GET", "/a/", &s);
    assert_eq!(ctx.response.status_line.status_code, 200);
    assert!(matches!(ctx.response.body, BodySource::FileStream));
    match &ctx.res {
        Some(Resource::File(f)) => {
            assert_eq!(f.abs_path, path(&["a", "index.html"]));
            assert!(f.is_index);
            assert!(f.is_implicit);
        },
        _ => panic!("expected a file resource"),
    }
}

#[test]
fn elision_serves_file_without_redirect() {
    // File /site/b.html, elision list [html, md]: /b resolves to /site/b.html,
    // no redirect.
    let s = snap(vec![file(&["b.html"])]);
    let ctx = handle_request("GET", "/b", &s);
    assert_eq!(ctx.response.status_line.status_code, 200);
    assert!(header(&ctx, "Location").is_none());
    assert!(matches!(ctx.response.body, BodySource::FileStream));
    match &ctx.res {
        Some(Resource::File(f)) => {
            assert_eq!(f.abs_path, path(&["b.html"]));
            assert!(f.is_implicit);
            assert!(!f.is_index);
        },
        _ => panic!("expected a file resource"),
    }
    assert_eq!(header(&ctx, "Content-Location").unwrap()[0], "/b.html");
}

#[test]
fn elision_tiebreak_is_deterministic() {
    // Files c.html and c.md both exist: /c lands on the lexicographically
    // smallest candidate on every run, whatever the configured order.
    let s = snap(vec![file(&["c.html"]), file(&["c.md"])]);
    for _ in 0..3 {
        let ctx = handle_request("GET", "/c", &s);
        assert_eq!(ctx.response.status_line.status_code, 200);
        match &ctx.res {
            Some(Resource::File(f)) => assert_eq!(f.abs_path, path(&["c.html"])),
            _ => panic!("expected a file resource"),
        }
    }
    // The same with the extension order flipped by an override file.
    let mut s2 = snap(vec![file(&["c.html"]), file(&["c.md"])]);
    s2.overrides.push(DirOverride {
        dir: Vec::new(),
        text: "[server]\nallow_extension_elision = [\"md\", \"html\"]\n".to_string(),
    });
    let ctx = handle_request("GET", "/c", &s2);
    match &ctx.res {
        Some(Resource::File(f)) => assert_eq!(f.abs_path, path(&["c.html"])),
        _ => panic!("expected a file resource"),
    }
}

#[test]
fn non_get_against_existing_resource_is_405() {
    let s = snap(vec![file(&["b.html"])]);
    let ctx = handle_request("POST", "/b.html", &s);
    assert_eq!(ctx.response.status_line.status_code, 405);
}

#[test]
fn non_get_against_missing_resource_is_404() {
    let s = snap(vec![file(&["b.html"])]);
    let ctx = handle_request("POST", "/nothing-here", &s);
    assert_eq!(ctx.response.status_line.status_code, 404);
}

#[test]
fn empty_dir_auto_index_lists_nothing() {
    // Directory /site/empty/ with auto_index on and no index file: 200 with
    // a generated listing whose entry list is empty.
    let s = snap(vec![dir(&["empty"])]);
    let ctx = handle_request("GET", "/empty/", &s);
    assert_eq!(ctx.response.status_line.status_code, 200);
    assert!(matches!(ctx.response.body, BodySource::GeneratedIndex));
    match &ctx.res {
        Some(Resource::Index(d)) => {
            assert_eq!(d.abs_path, path(&["empty"]));
            let children: &Vec<ResourceContext> = d.context.children.as_ref().unwrap();
            assert_eq!(children.len(), 0);
        },
        _ => panic!("expected a generated index"),
    }
}

#[test]
fn child_override_disables_auto_index_for_child_only() {
    // A child directory override with auto_index = false: requests under the
    // child get no listing; a sibling without an override keeps the default.
    let mut s = snap(vec![dir(&["child"]), dir(&["child", "sub"]), dir(&["sib"])]);
    s.overrides.push(DirOverride {
        dir: path(&["child"]),
        text: "[server]\nauto_index = false\n".to_string(),
    });
    let under_child = handle_request("GET", "/child/sub/", &s);
    assert_eq!(under_child.response.status_line.status_code, 404);
    let child_itself = handle_request("GET", "/child/", &s);
    assert_eq!(child_itself.response.status_line.status_code, 404);
    let sibling = handle_request("GET", "/sib/", &s);
    assert_eq!(sibling.response.status_line.status_code, 200);
    assert!(matches!(sibling.response.body, BodySource::GeneratedIndex));
}

#[test]
fn lowercase_method_token_matches_configured_method() {
    // A lowercase request token is upper-cased on parse, so an override
    // allowing POST admits a request line that reads "post".
    let mut s = snap(vec![file(&["b.html"])]);
    s.overrides.push(DirOverride {
        dir: Vec::new(),
        text: "[server]\nallow_methods = [\"GET\", \"POST\"]\n".to_string(),
    });
    let method = polyserve::common::HttpMethod::from_str("post").display();
    assert_eq!(method, "POST");
    let ctx = handle_request(&method, "/b.html", &s);
    // admitted by the method check; a non-GET never serves a body,
    // so the answer is not-found rather than method-not-allowed
    assert_eq!(ctx.response.status_line.status_code, 404);
    // without the override the same token is refused
    let s2 = snap(vec![file(&["b.html"])]);
    let ctx2 = handle_request(&method, "/b.html", &s2);
    assert_eq!(ctx2.response.status_line.status_code, 405);
}

#[test]
fn dotdot_never_escapes_the_root() {
    // Escaping paths resolve to nothing; `..` that stays inside is fine.
    let s = snap(vec![file(&["b.html"]), dir(&["a"])]);
    let escape = handle_request("GET", "/../etc/passwd", &s);
    assert_eq!(escape.response.status_line.status_code, 404);
    let deep_escape = handle_request("GET", "/a/../../etc/passwd", &s);
    assert_eq!(deep_escape.response.status_line.status_code, 404);
    let inside = handle_request("GET", "/a/../b.html", &s);
    assert_eq!(inside.response.status_line.status_code, 200);
}

#[test]
fn percent_encoded_path_is_decoded() {
    // Decoding runs before resolution: /a%20b finds "a b.html" by elision.
    let s = snap(vec![file(&["a b.html"])]);
    let ctx = handle_request("GET", "/a%20b", &s);
    assert_eq!(ctx.response.status_line.status_code, 200);
    match &ctx.res {
        Some(Resource::File(f)) => assert_eq!(f.abs_path, path(&["a b.html"])),
        _ => panic!("expected a file resource"),
    }
}

#[test]
fn content_type_guessed_from_extension() {
    let s = snap(vec![file(&["b.html"]), file(&["data.bin-unknown-ext"])]);
    let ctx = handle_request("GET", "/b.html", &s);
    assert_eq!(header(&ctx, "Content-Type").unwrap()[0], "text/html");
    let ctx2 = handle_request("GET", "/data.bin-unknown-ext", &s);
    assert_eq!(header(&ctx2, "Content-Type").unwrap()[0], "text/plain; charset=utf-8");
}

#[test]
fn hbs_file_is_rendered_as_template() {
    let s = snap(vec![file(&["t.hbs"])]);
    let ctx = handle_request("GET", "/t.hbs", &s);
    assert_eq!(ctx.response.status_line.status_code, 200);
    assert!(matches!(ctx.response.body, BodySource::RenderedTemplate));
    assert_eq!(header(&ctx, "Content-Type").unwrap()[0], "text/html; charset=utf-8");
}

#[test]
fn index_candidates_take_lexicographic_minimum() {
    let s = snap(vec![dir(&["d"]), file(&["d", "index.md"]), file(&["d", "index.html"])]);
    let ctx = handle_request("GET", "/d/", &s);
    assert_eq!(ctx.response.status_line.status_code, 200);
    match &ctx.res {
        Some(Resource::File(f)) => {
            assert_eq!(f.abs_path, path(&["d", "index.html"]));
            assert!(f.is_index);
        },
        _ => panic!("expected an index file"),
    }
    assert_eq!(header(&ctx, "Content-Location").unwrap()[0], "/d/index.html");
}

#[test]
fn timestamps_format_as_iso8601_with_unknown_sentinel() {
    let s = snap(vec![file(&["b.html"])]);
    let ctx = handle_request("GET", "/b.html", &s);
    match &ctx.res {
        Some(Resource::File(f)) => {
            let meta = f.context.metadata.as_ref().unwrap();
            assert_eq!(meta.modified, "1970-01-01T00:00:00+00:00");
            assert_eq!(meta.accessed, "(unknown)");
            assert_eq!(meta.created, "(unknown)");
            assert!(meta.is_file);
            assert!(!meta.is_dir);
            assert_eq!(meta.len, 16);
        },
        _ => panic!("expected a file resource"),
    }
}

#[test]
fn explicit_match_wins_over_elision() {
    // "b" exists as a file itself and as b.html: the explicit match wins.
    let s = snap(vec![file(&["b"]), file(&["b.html"])]);
    let ctx = handle_request("GET", "/b", &s);
    match &ctx.res {
        Some(Resource::File(f)) => {
            assert_eq!(f.abs_path, path(&["b"]));
            assert!(!f.is_implicit);
        },
        _ => panic!("expected a file resource"),
    }
}

#[test]
fn root_request_lists_the_root() {
    let s = snap(vec![file(&["b.html"]), dir(&["a"])]);
    let ctx = handle_request("GET", "/", &s);
    assert_eq!(ctx.response.status_line.status_code, 200);
    assert!(matches!(ctx.response.body, BodySource::GeneratedIndex));
    match &ctx.res {
        Some(Resource::Index(d)) => {
            let children = d.context.children.as_ref().unwrap();
            assert_eq!(children.len(), 2);
            assert_eq!(children[0].name, "b.html");
            assert_eq!(children[1].name, "a");
        },
        _ => panic!("expected a generated index"),
    }
}

#[test]
fn exists_file_finds_exact_files_only() {
    let s = snap(vec![file(&["b.html"]), dir(&["a"])]);
    assert_eq!(polyserve::resource::exists_file(&s, "/b.html"), Some(path(&["b.html"])));
    assert_eq!(polyserve::resource::exists_file(&s, "/b"), None);
    assert_eq!(polyserve::resource::exists_file(&s, "/a"), None);
    assert_eq!(polyserve::resource::exists_file(&s, "/../b.html"), None);
}

#[test]
fn resolve_follows_priority_order() {
    let s = snap(vec![dir(&["a"]), file(&["a", "index.html"]), file(&["b.html"])]);
    let cfg = polyserve::request_config::ServerConfig::default();
    match Resource::resolve(&s, "/a", &cfg) {
        Resource::File(f) => {
            assert_eq!(f.abs_path, path(&["a", "index.html"]));
            assert!(f.is_index);
        },
        _ => panic!("expected the directory's index file"),
    }
    match Resource::resolve(&s, "/missing", &cfg) {
        Resource::NotFound => {},
        _ => panic!("expected nothing"),
    }
}

#[test]
fn server_header_always_present() {
    let s = snap(vec![]);
    let ctx = handle_request("GET", "/missing", &s);
    assert_eq!(ctx.response.status_line.status_code, 404);
    assert_eq!(header(&ctx, "Server").unwrap()[0], "polyserve (rust)");
}
