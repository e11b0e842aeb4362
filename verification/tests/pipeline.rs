//! End-to-end checks of the request pipeline on concrete values.

use static_web_server::config::{
    Advanced, Cors, DirListFmt, HeaderRule, RedirectRule, RewriteRule, RuleSet, Snapshot,
    VirtualHost, normalize_status,
};
use static_web_server::fs::{Fs, FsEntry, FsNode};
use static_web_server::handler::{access_record, handle};
use static_web_server::listing::{ListEntry, sort_rows};
use static_web_server::msg::{Encoding, Request, Response};
use static_web_server::rules::apply_redirects;

fn bv(s: &str) -> Vec<u8> {
    s.as_bytes().to_vec()
}

fn segs(parts: &[&str]) -> Vec<Vec<u8>> {
    parts.iter().map(|p| bv(p)).collect()
}

fn file(path: &[&str], bytes: &str, mtime: u64) -> FsEntry {
    FsEntry {
        path: segs(path),
        node: FsNode::File {
            bytes: bv(bytes),
            mtime,
        },
    }
}

fn dir(path: &[&str]) -> FsEntry {
    FsEntry {
        path: segs(path),
        node: FsNode::Dir,
    }
}

fn get(path: &str) -> Request {
    Request {
        method: bv("GET"),
        path: bv(path),
        headers: Vec::new(),
        remote_addr: None,
    }
}

fn get_with(path: &str, headers: &[(&str, &str)]) -> Request {
    Request {
        method: bv("GET"),
        path: bv(path),
        headers: headers.iter().map(|(n, v)| (bv(n), bv(v))).collect(),
        remote_addr: None,
    }
}

fn header(resp: &Response, name: &str) -> Option<Vec<u8>> {
    let want = name.to_ascii_lowercase();
    for (n, v) in &resp.headers {
        if n.to_ascii_lowercase() == want.as_bytes().to_vec() {
            return Some(v.clone());
        }
    }
    None
}

fn basic_cfg(root: &[&str]) -> Snapshot {
    Snapshot::with_defaults(segs(root))
}

fn www_fs() -> Fs {
    Fs {
        entries: vec![
            dir(&["www"]),
            file(&["www", "a.txt"], "hello text", 100),
            dir(&["www", "sub"]),
            file(&["www", "sub", "inner.txt"], "inner", 101),
        ],
    }
}

#[test]
fn traversal_escape_is_not_found() {
    let cfg = basic_cfg(&["www"]);
    let fs = www_fs();
    let resp = handle(&get("/../www/a.txt"), &cfg, &fs);
    assert_eq!(resp.status, 404);
    assert_eq!(resp.body, bv("404 Not Found"));
}

#[test]
fn traversal_inside_root_is_served() {
    let cfg = basic_cfg(&["www"]);
    let fs = www_fs();
    let resp = handle(&get("/sub/../a.txt"), &cfg, &fs);
    assert_eq!(resp.status, 200);
    assert_eq!(resp.body, bv("hello text"));
}

#[test]
fn trailing_slash_redirect() {
    let mut cfg = basic_cfg(&["www"]);
    cfg.redirect_trailing_slash = true;
    let fs = www_fs();
    let resp = handle(&get("/sub"), &cfg, &fs);
    assert_eq!(resp.status, 308);
    assert_eq!(header(&resp, "location"), Some(bv("/sub/")));
    assert!(resp.body.is_empty());
}

#[test]
fn index_file_second_only() {
    let mut cfg = basic_cfg(&["www"]);
    cfg.index_files = segs(&["index.html", "index.htm"]);
    let fs = Fs {
        entries: vec![
            dir(&["www"]),
            file(&["www", "index.htm"], "from htm", 1),
        ],
    };
    let resp = handle(&get("/"), &cfg, &fs);
    assert_eq!(resp.status, 200);
    assert_eq!(resp.body, bv("from htm"));
}

#[test]
fn index_file_first_wins() {
    let mut cfg = basic_cfg(&["www"]);
    cfg.index_files = segs(&["index.html", "index.htm"]);
    let fs = Fs {
        entries: vec![
            dir(&["www"]),
            file(&["www", "index.htm"], "from htm", 1),
            file(&["www", "index.html"], "from html", 1),
        ],
    };
    let resp = handle(&get("/"), &cfg, &fs);
    assert_eq!(resp.status, 200);
    assert_eq!(resp.body, bv("from html"));
}

#[test]
fn redirect_rule_order_decides() {
    let broad = RedirectRule {
        pattern: bv("/a*"),
        destination: bv("/broad"),
        status: 301,
    };
    let narrow = RedirectRule {
        pattern: bv("/ab"),
        destination: bv("/narrow"),
        status: 302,
    };
    let broad_first = vec![
        RedirectRule { pattern: broad.pattern.clone(), destination: broad.destination.clone(), status: 301 },
        RedirectRule { pattern: narrow.pattern.clone(), destination: narrow.destination.clone(), status: 302 },
    ];
    let narrow_first = vec![narrow, broad];
    let r1 = apply_redirects(&broad_first, &bv("/ab")).unwrap();
    assert_eq!(r1.0, 301);
    assert_eq!(r1.1, bv("/broad"));
    let r2 = apply_redirects(&narrow_first, &bv("/ab")).unwrap();
    assert_eq!(r2.0, 302);
    assert_eq!(r2.1, bv("/narrow"));
}

#[test]
fn same_request_same_body() {
    let cfg = basic_cfg(&["www"]);
    let fs = www_fs();
    let req1 = get_with("/a.txt", &[("Accept-Encoding", "gzip")]);
    let req2 = get_with("/a.txt", &[("Accept-Encoding", "gzip")]);
    let r1 = handle(&req1, &cfg, &fs);
    let r2 = handle(&req2, &cfg, &fs);
    assert_eq!(r1.body, r2.body);
    assert_eq!(header(&r1, "content-encoding"), header(&r2, "content-encoding"));
    assert_eq!(r1.status, r2.status);
}

#[test]
fn precompressed_gzip_sibling() {
    let mut cfg = basic_cfg(&["www"]);
    cfg.compression_static = true;
    let fs = Fs {
        entries: vec![
            dir(&["www"]),
            file(&["www", "a.txt"], "plain body", 1),
            file(&["www", "a.txt.gz"], "GZDATA", 1),
        ],
    };
    let req = get_with("/a.txt", &[("Accept-Encoding", "gzip")]);
    let resp = handle(&req, &cfg, &fs);
    assert_eq!(resp.status, 200);
    assert_eq!(header(&resp, "content-encoding"), Some(bv("gzip")));
    assert_eq!(resp.body, bv("GZDATA"));
    assert!(resp.encode_body.is_none());
}

#[test]
fn dynamic_compression_directive() {
    let mut cfg = basic_cfg(&["www"]);
    cfg.compression_static = false;
    cfg.compression = true;
    let text = "a line of text long enough to be worth compressing";
    let fs = Fs {
        entries: vec![dir(&["www"]), file(&["www", "big.txt"], text, 1)],
    };
    let req = get_with("/big.txt", &[("Accept-Encoding", "identity;q=1, gzip ;q=0.8")]);
    let resp = handle(&req, &cfg, &fs);
    assert_eq!(resp.status, 200);
    assert_eq!(header(&resp, "content-encoding"), Some(bv("gzip")));
    assert_eq!(resp.encode_body, Some(Encoding::Gzip));
    assert_eq!(resp.body, bv(text));
}

#[test]
fn tiny_file_not_compressed() {
    let mut cfg = basic_cfg(&["www"]);
    cfg.compression_static = false;
    cfg.compression = true;
    let fs = www_fs();
    let req = get_with("/a.txt", &[("Accept-Encoding", "gzip")]);
    let resp = handle(&req, &cfg, &fs);
    assert_eq!(resp.status, 200);
    assert_eq!(header(&resp, "content-encoding"), None);
    assert_eq!(resp.encode_body, None);
    assert_eq!(resp.body, bv("hello text"));
}

#[test]
fn maintenance_mode_answers_everything() {
    let mut cfg = basic_cfg(&["www"]);
    cfg.maintenance_mode = true;
    cfg.maintenance_mode_status = 503;
    cfg.basic_auth = Some(bv("user:pass"));
    let fs = www_fs();
    assert_eq!(handle(&get("/a.txt"), &cfg, &fs).status, 503);
    assert_eq!(handle(&get("/missing"), &cfg, &fs).status, 503);
    assert_eq!(handle(&get("/sub/inner.txt"), &cfg, &fs).status, 503);
}

#[test]
fn maintenance_mode_custom_body() {
    let mut cfg = basic_cfg(&["www"]);
    cfg.maintenance_mode = true;
    cfg.maintenance_mode_file = Some(segs(&["pages", "down.html"]));
    let fs = Fs {
        entries: vec![file(&["pages", "down.html"], "<h1>down</h1>", 1)],
    };
    let resp = handle(&get("/a.txt"), &cfg, &fs);
    assert_eq!(resp.status, 503);
    assert_eq!(resp.body, bv("<h1>down</h1>"));
}

#[test]
fn health_stays_green_during_maintenance() {
    let mut cfg = basic_cfg(&["www"]);
    cfg.health = true;
    cfg.maintenance_mode = true;
    let fs = www_fs();
    let resp = handle(&get("/health"), &cfg, &fs);
    assert_eq!(resp.status, 200);
    assert!(resp.body.is_empty());
}

#[test]
fn auth_missing_header_is_challenged() {
    let mut cfg = basic_cfg(&["www"]);
    cfg.basic_auth = Some(bv("user:pass"));
    let fs = www_fs();
    let resp = handle(&get("/a.txt"), &cfg, &fs);
    assert_eq!(resp.status, 401);
    assert_eq!(
        header(&resp, "www-authenticate"),
        Some(bv("Basic realm=\"Restricted\""))
    );
}

#[test]
fn auth_correct_credentials_proceed() {
    let mut cfg = basic_cfg(&["www"]);
    cfg.basic_auth = Some(bv("user:pass"));
    let fs = www_fs();
    // "user:pass" in canonical Base64.
    let req = get_with("/a.txt", &[("Authorization", "Basic dXNlcjpwYXNz")]);
    let resp = handle(&req, &cfg, &fs);
    assert_eq!(resp.status, 200);
    assert_eq!(resp.body, bv("hello text"));
}

#[test]
fn auth_wrong_credentials_rejected() {
    let mut cfg = basic_cfg(&["www"]);
    cfg.basic_auth = Some(bv("user:pass"));
    let fs = www_fs();
    let req = get_with("/a.txt", &[("Authorization", "Basic d3Jvbmc6Y3JlZHM=")]);
    let resp = handle(&req, &cfg, &fs);
    assert_eq!(resp.status, 401);
}

#[test]
fn listing_name_descending() {
    let rows = vec![
        ListEntry { name: bv("b.txt"), is_dir: false, size: 1, mtime: 0 },
        ListEntry { name: bv("a.txt"), is_dir: false, size: 2, mtime: 0 },
        ListEntry { name: bv("c.txt"), is_dir: false, size: 3, mtime: 0 },
    ];
    let sorted = sort_rows(1, rows);
    let names: Vec<Vec<u8>> = sorted.into_iter().map(|e| e.name).collect();
    assert_eq!(names, vec![bv("c.txt"), bv("b.txt"), bv("a.txt")]);
}

#[test]
fn listing_json_response() {
    let mut cfg = basic_cfg(&["www"]);
    cfg.dir_listing = true;
    cfg.dir_listing_order = 0;
    cfg.dir_listing_format = DirListFmt::Json;
    let fs = Fs {
        entries: vec![
            dir(&["www"]),
            dir(&["www", "docs"]),
            file(&["www", "docs", "b.txt"], "bb", 7),
            file(&["www", "docs", "a.txt"], "a", 5),
        ],
    };
    let resp = handle(&get("/docs/"), &cfg, &fs);
    assert_eq!(resp.status, 200);
    assert_eq!(header(&resp, "content-type"), Some(bv("application/json")));
    assert_eq!(
        resp.body,
        bv("[{\"name\":\"..\",\"type\":\"directory\",\"size\":0,\"mtime\":0},{\"name\":\"a.txt\",\"type\":\"file\",\"size\":1,\"mtime\":5},{\"name\":\"b.txt\",\"type\":\"file\",\"size\":2,\"mtime\":7}]")
    );
}

#[test]
fn listing_html_has_parent_link() {
    let mut cfg = basic_cfg(&["www"]);
    cfg.dir_listing = true;
    cfg.dir_listing_format = DirListFmt::Html;
    let fs = Fs {
        entries: vec![
            dir(&["www"]),
            dir(&["www", "docs"]),
            file(&["www", "docs", "a.txt"], "a", 5),
        ],
    };
    let resp = handle(&get("/docs/"), &cfg, &fs);
    assert_eq!(resp.status, 200);
    assert_eq!(header(&resp, "content-type"), Some(bv("text/html")));
    let body = String::from_utf8(resp.body).unwrap();
    assert!(body.contains("<a href=\"../\">../</a>"));
    assert!(body.contains("<a href=\"a.txt\">a.txt</a>"));
    assert!(body.starts_with("<html>"));
}

#[test]
fn range_first_five_bytes() {
    let cfg = basic_cfg(&["www"]);
    let fs = Fs {
        entries: vec![dir(&["www"]), file(&["www", "ten.bin"], "0123456789", 1)],
    };
    let req = get_with("/ten.bin", &[("Range", "bytes=0-4")]);
    let resp = handle(&req, &cfg, &fs);
    assert_eq!(resp.status, 206);
    assert_eq!(resp.body, bv("01234"));
    assert_eq!(header(&resp, "content-range"), Some(bv("bytes 0-4/10")));
    assert_eq!(header(&resp, "content-length"), Some(bv("5")));
}

#[test]
fn range_unsatisfiable() {
    let cfg = basic_cfg(&["www"]);
    let fs = Fs {
        entries: vec![dir(&["www"]), file(&["www", "ten.bin"], "0123456789", 1)],
    };
    let req = get_with("/ten.bin", &[("Range", "bytes=20-30")]);
    let resp = handle(&req, &cfg, &fs);
    assert_eq!(resp.status, 416);
    assert_eq!(header(&resp, "content-range"), Some(bv("bytes */10")));
    assert!(resp.body.is_empty());
}

#[test]
fn range_on_empty_file_is_unsatisfiable() {
    let cfg = basic_cfg(&["www"]);
    let fs = Fs {
        entries: vec![dir(&["www"]), file(&["www", "empty.bin"], "", 1)],
    };
    let req = get_with("/empty.bin", &[("Range", "bytes=0-0")]);
    let resp = handle(&req, &cfg, &fs);
    assert_eq!(resp.status, 416);
}

#[test]
fn status_normalization_falls_back() {
    assert_eq!(normalize_status(200), 200);
    assert_eq!(normalize_status(999), 999);
    assert_eq!(normalize_status(99), 503);
    assert_eq!(normalize_status(1000), 503);
    assert_eq!(normalize_status(0), 503);
}

#[test]
fn bad_percent_encoding_is_rejected() {
    let cfg = basic_cfg(&["www"]);
    let fs = www_fs();
    let resp = handle(&get("/%zz"), &cfg, &fs);
    assert_eq!(resp.status, 400);
    assert_eq!(resp.body, bv("400 Bad Request"));
}

#[test]
fn percent_encoding_is_decoded() {
    let cfg = basic_cfg(&["www"]);
    let fs = Fs {
        entries: vec![dir(&["www"]), file(&["www", "a b.txt"], "spaced", 1)],
    };
    let resp = handle(&get("/a%20b.txt"), &cfg, &fs);
    assert_eq!(resp.status, 200);
    assert_eq!(resp.body, bv("spaced"));
}

#[test]
fn denied_path_is_internal_error_with_custom_page() {
    let mut cfg = basic_cfg(&["www"]);
    cfg.page50x = Some(segs(&["pages", "50x.html"]));
    let fs = Fs {
        entries: vec![
            dir(&["www"]),
            FsEntry { path: segs(&["www", "locked.txt"]), node: FsNode::Denied },
            file(&["pages", "50x.html"], "custom 50x", 1),
        ],
    };
    let resp = handle(&get("/locked.txt"), &cfg, &fs);
    assert_eq!(resp.status, 500);
    assert_eq!(resp.body, bv("custom 50x"));
}

#[test]
fn custom_404_page_read_through() {
    let mut cfg = basic_cfg(&["www"]);
    cfg.page404 = Some(segs(&["pages", "404.html"]));
    let fs = Fs {
        entries: vec![dir(&["www"]), file(&["pages", "404.html"], "custom 404", 1)],
    };
    let resp = handle(&get("/missing"), &cfg, &fs);
    assert_eq!(resp.status, 404);
    assert_eq!(resp.body, bv("custom 404"));
}

#[test]
fn unreadable_custom_page_degrades_to_default() {
    let mut cfg = basic_cfg(&["www"]);
    cfg.page404 = Some(segs(&["pages", "nope.html"]));
    let fs = www_fs();
    let resp = handle(&get("/missing"), &cfg, &fs);
    assert_eq!(resp.status, 404);
    assert_eq!(resp.body, bv("404 Not Found"));
}

#[test]
fn method_not_allowed() {
    let cfg = basic_cfg(&["www"]);
    let fs = www_fs();
    let req = Request {
        method: bv("POST"),
        path: bv("/a.txt"),
        headers: Vec::new(),
        remote_addr: None,
    };
    let resp = handle(&req, &cfg, &fs);
    assert_eq!(resp.status, 405);
    assert_eq!(header(&resp, "allow"), Some(bv("GET, HEAD")));
}

#[test]
fn head_request_has_empty_body() {
    let cfg = basic_cfg(&["www"]);
    let fs = www_fs();
    let req = Request {
        method: bv("HEAD"),
        path: bv("/a.txt"),
        headers: Vec::new(),
        remote_addr: None,
    };
    let resp = handle(&req, &cfg, &fs);
    assert_eq!(resp.status, 200);
    assert!(resp.body.is_empty());
    assert_eq!(header(&resp, "content-length"), Some(bv("10")));
}

#[test]
fn hidden_files_blocked_when_configured() {
    let mut cfg = basic_cfg(&["www"]);
    cfg.ignore_hidden_files = true;
    let fs = Fs {
        entries: vec![
            dir(&["www"]),
            dir(&["www", ".secret"]),
            file(&["www", ".secret", "key.txt"], "topsecret", 1),
        ],
    };
    let resp = handle(&get("/.secret/key.txt"), &cfg, &fs);
    assert_eq!(resp.status, 404);
    let mut open_cfg = basic_cfg(&["www"]);
    open_cfg.ignore_hidden_files = false;
    let resp2 = handle(&get("/.secret/key.txt"), &open_cfg, &fs);
    assert_eq!(resp2.status, 200);
}

#[test]
fn rewrite_with_capture_substitution() {
    let mut cfg = basic_cfg(&["www"]);
    cfg.advanced = Some(Advanced {
        rules: RuleSet {
            headers: Vec::new(),
            rewrites: vec![RewriteRule {
                pattern: bv("/old/*"),
                destination: bv("/new/$1"),
                redirect_status: None,
            }],
            redirects: Vec::new(),
        },
        virtual_hosts: Vec::new(),
    });
    let fs = Fs {
        entries: vec![
            dir(&["www"]),
            dir(&["www", "new"]),
            file(&["www", "new", "x.txt"], "moved here", 1),
        ],
    };
    let resp = handle(&get("/old/x.txt"), &cfg, &fs);
    assert_eq!(resp.status, 200);
    assert_eq!(resp.body, bv("moved here"));
}

#[test]
fn redirect_rule_through_handle() {
    let mut cfg = basic_cfg(&["www"]);
    cfg.advanced = Some(Advanced {
        rules: RuleSet {
            headers: Vec::new(),
            rewrites: Vec::new(),
            redirects: vec![RedirectRule {
                pattern: bv("/gone/*"),
                destination: bv("https://elsewhere.test/$1"),
                status: 301,
            }],
        },
        virtual_hosts: Vec::new(),
    });
    let fs = www_fs();
    let resp = handle(&get("/gone/page"), &cfg, &fs);
    assert_eq!(resp.status, 301);
    assert_eq!(header(&resp, "location"), Some(bv("https://elsewhere.test/page")));
}

#[test]
fn virtual_host_overrides_root() {
    let mut cfg = basic_cfg(&["www"]);
    cfg.advanced = Some(Advanced {
        rules: RuleSet {
            headers: Vec::new(),
            rewrites: Vec::new(),
            redirects: Vec::new(),
        },
        virtual_hosts: vec![VirtualHost {
            host: bv("example.com"),
            root: Some(segs(&["other"])),
            rules: None,
        }],
    });
    let fs = Fs {
        entries: vec![
            dir(&["www"]),
            file(&["www", "a.txt"], "from www", 1),
            dir(&["other"]),
            file(&["other", "a.txt"], "from other", 1),
        ],
    };
    // Host matching is case-insensitive and ignores the port.
    let req = get_with("/a.txt", &[("Host", "Example.COM:8080")]);
    assert_eq!(handle(&req, &cfg, &fs).body, bv("from other"));
    let plain = get_with("/a.txt", &[("Host", "unknown.test")]);
    assert_eq!(handle(&plain, &cfg, &fs).body, bv("from www"));
}

#[test]
fn cors_origin_echoed() {
    let mut cfg = basic_cfg(&["www"]);
    cfg.cors = Cors {
        allow_origins: vec![bv("*")],
        allow_headers: Vec::new(),
        expose_headers: vec![bv("x-request-id")],
    };
    let fs = www_fs();
    let req = get_with("/a.txt", &[("Origin", "https://app.test")]);
    let resp = handle(&req, &cfg, &fs);
    assert_eq!(
        header(&resp, "access-control-allow-origin"),
        Some(bv("https://app.test"))
    );
    assert_eq!(
        header(&resp, "access-control-expose-headers"),
        Some(bv("x-request-id"))
    );
}

#[test]
fn custom_header_rule_applied_last() {
    let mut cfg = basic_cfg(&["www"]);
    cfg.security_headers = true;
    cfg.advanced = Some(Advanced {
        rules: RuleSet {
            headers: vec![HeaderRule {
                pattern: bv("/a*"),
                headers: vec![(bv("x-frame-options"), bv("SAMEORIGIN"))],
            }],
            rewrites: Vec::new(),
            redirects: Vec::new(),
        },
        virtual_hosts: Vec::new(),
    });
    let fs = www_fs();
    let resp = handle(&get("/a.txt"), &cfg, &fs);
    let frame_values: Vec<&Vec<u8>> = resp
        .headers
        .iter()
        .filter(|(n, _)| n == &bv("x-frame-options"))
        .map(|(_, v)| v)
        .collect();
    assert_eq!(frame_values.len(), 2);
    // The operator's value comes after the fixed security set.
    assert_eq!(frame_values[0], &bv("DENY"));
    assert_eq!(frame_values[1], &bv("SAMEORIGIN"));
}

#[test]
fn security_and_cache_headers() {
    let mut cfg = basic_cfg(&["www"]);
    cfg.security_headers = true;
    cfg.cache_control_headers = true;
    let fs = www_fs();
    let resp = handle(&get("/a.txt"), &cfg, &fs);
    assert_eq!(header(&resp, "x-content-type-options"), Some(bv("nosniff")));
    assert_eq!(header(&resp, "cache-control"), Some(bv("public, max-age=3600")));
    assert_eq!(header(&resp, "content-type"), Some(bv("text/plain")));
}

#[test]
fn access_record_respects_logging_flag() {
    let cfg = basic_cfg(&["www"]);
    let fs = www_fs();
    let mut req = get("/a.txt");
    req.remote_addr = Some(bv("127.0.0.1:1234"));
    let resp = handle(&req, &cfg, &fs);
    let with_addr = access_record(&req, &resp, true);
    assert_eq!(with_addr.status, 200);
    assert_eq!(with_addr.body_len, 10);
    assert_eq!(with_addr.remote_addr, Some(bv("127.0.0.1:1234")));
    let without = access_record(&req, &resp, false);
    assert_eq!(without.remote_addr, None);
}
