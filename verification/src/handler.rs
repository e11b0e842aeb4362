//! The pipeline orchestrator: gates, virtual host selection, rule
//! evaluation, path resolution, content negotiation, rendering and header
//! composition, as one total function from request, configuration
//! snapshot and filesystem value to a response.
//!
//! Gate order: the health probe is answered first, so liveness stays
//! green during maintenance; then the maintenance gate, then basic auth,
//! then the method check (only `GET` and `HEAD` are served).  Every
//! response, errors included, leaves through the header composer; a
//! `HEAD` request is answered with the same status and headers and an
//! empty body.

use vstd::prelude::*;
use vstd::string::StrSliceExecFns;
use vstd::string::StringSliceAdditionalSpecFns;
use crate::bytes::{spec_dec, spec_lower};
use crate::compose::spec_compose_tail;
use crate::config::{RuleSet, Snapshot, VirtualHost, spec_normalize_status};
use crate::fs::{Fs, NodeModel, spec_file_bytes, spec_is_file};
use crate::msg::{Encoding, ReqModel, Request, RespModel, Response, spec_find_header};
use crate::negotiate::{NegModel, RangeDecision, spec_mime, spec_negotiate, spec_range};
use crate::resolve::{ResModel, spec_resolve};
use crate::listing::{spec_children, spec_render_html, spec_render_json, spec_sort};
use crate::config::DirListFmt;

verus! {

/// A host value up to the first colon (the port, when present, is
/// ignored).
pub open spec fn spec_before_colon(s: Seq<u8>) -> Seq<u8>
    decreases s.len(),
{
    if s.len() == 0 {
        s
    } else if s[0] == 58 {
        Seq::empty()
    } else {
        seq![s[0]] + spec_before_colon(s.drop_first())
    }
}

/// A host name normalized for comparison: port stripped, lower-cased.
pub open spec fn spec_host_norm(s: Seq<u8>) -> Seq<u8> {
    spec_lower(spec_before_colon(s))
}

fn before_colon(v: &Vec<u8>) -> (r: Vec<u8>)
    ensures
        r@ == spec_before_colon(v@),
{
    let mut out: Vec<u8> = Vec::new();
    proof {
        assert(v@.skip(0) =~= v@);
        assert(Seq::<u8>::empty() + spec_before_colon(v@) =~= spec_before_colon(v@));
    }
    let mut i: usize = 0;
    while i < v.len()
        invariant
            i <= v.len(),
            spec_before_colon(v@) == out@ + spec_before_colon(v@.skip(i as int)),
        decreases v.len() - i,
    {
        proof {
            assert(v@.skip(i as int)[0] == v@[i as int]);
            assert(v@.skip(i as int).drop_first() =~= v@.skip(i + 1));
        }
        if v[i] == 58 {
            assert(out@ + Seq::<u8>::empty() =~= out@);
            assert(out@ =~= spec_before_colon(v@));
            return out;
        }
        out.push(v[i]);
        assert(out@ + spec_before_colon(v@.skip(i + 1)) =~= spec_before_colon(v@));
        i += 1;
    }
    assert(v@.skip(v@.len() as int) =~= Seq::<u8>::empty());
    assert(out@ =~= spec_before_colon(v@));
    out
}

/// The first virtual host whose name equals `host`.
pub open spec fn spec_vhost_idx(vhs: Seq<VirtualHost>, host: Seq<u8>) -> Option<int>
    decreases vhs.len(),
{
    if vhs.len() == 0 {
        None
    } else if vhs[0].host@ == host {
        Some(0)
    } else {
        match spec_vhost_idx(vhs.drop_first(), host) {
            Some(i) => Some(i + 1),
            None => None,
        }
    }
}

fn select_vhost(vhs: &Vec<VirtualHost>, host: &Vec<u8>) -> (r: Option<usize>)
    ensures
        match r {
            Some(i) => spec_vhost_idx(vhs@, host@) == Some(i as int) && i < vhs.len(),
            None => spec_vhost_idx(vhs@, host@) is None,
        },
{
    assert(vhs@.skip(0) =~= vhs@);
    let mut i: usize = 0;
    while i < vhs.len()
        invariant
            i <= vhs.len(),
            spec_vhost_idx(vhs@, host@) == match spec_vhost_idx(vhs@.skip(i as int), host@) {
                Some(k) => Some(k + i),
                None => None::<int>,
            },
        decreases vhs.len() - i,
    {
        proof {
            assert(vhs@.skip(i as int)[0] == vhs@[i as int]);
            assert(vhs@.skip(i as int).drop_first() =~= vhs@.skip(i + 1));
        }
        if crate::bytes::bytes_eq(&vhs[i].host, host) {
            return Some(i);
        }
        i += 1;
    }
    None
}

/// The minimal built-in body for an error status.
pub open spec fn spec_default_body(status: u16) -> Seq<u8> {
    if status == 400 {
        "400 Bad Request".spec_bytes()
    } else if status == 401 {
        "401 Unauthorized".spec_bytes()
    } else if status == 404 {
        "404 Not Found".spec_bytes()
    } else if status == 405 {
        "405 Method Not Allowed".spec_bytes()
    } else if status == 416 {
        "416 Range Not Satisfiable".spec_bytes()
    } else if status == 500 {
        "500 Internal Server Error".spec_bytes()
    } else if status == 503 {
        "503 Service Unavailable".spec_bytes()
    } else {
        spec_dec(status as nat)
    }
}

fn default_body(status: u16) -> (r: Vec<u8>)
    ensures
        r@ == spec_default_body(status),
{
    if status == 400 {
        "400 Bad Request".as_bytes_vec()
    } else if status == 401 {
        "401 Unauthorized".as_bytes_vec()
    } else if status == 404 {
        "404 Not Found".as_bytes_vec()
    } else if status == 405 {
        "405 Method Not Allowed".as_bytes_vec()
    } else if status == 416 {
        "416 Range Not Satisfiable".as_bytes_vec()
    } else if status == 500 {
        "500 Internal Server Error".as_bytes_vec()
    } else if status == 503 {
        "503 Service Unavailable".as_bytes_vec()
    } else {
        crate::bytes::u64_to_dec(status as u64)
    }
}

/// The body of an error response: the custom page when it is set and
/// readable, else the built-in body (a failure to read a custom page
/// never fails the response, it degrades to the default).
pub open spec fn spec_error_page_body(
    fsv: Seq<(Seq<Seq<u8>>, NodeModel)>,
    status: u16,
    page: Option<Seq<Seq<u8>>>,
) -> Seq<u8> {
    match page {
        Some(p) => if spec_is_file(fsv, p) {
            spec_file_bytes(fsv, p)
        } else {
            spec_default_body(status)
        },
        None => spec_default_body(status),
    }
}

/// An error response before composition: status, `text/html` body from
/// the custom page or the default, and its length.
pub open spec fn spec_error_response(
    fsv: Seq<(Seq<Seq<u8>>, NodeModel)>,
    status: u16,
    page: Option<Seq<Seq<u8>>>,
) -> RespModel {
    let body = spec_error_page_body(fsv, status, page);
    RespModel {
        status,
        headers: seq![
            ("content-type".spec_bytes(), "text/html".spec_bytes()),
            ("content-length".spec_bytes(), spec_dec(body.len())),
        ],
        body,
        encode_body: None,
    }
}

fn error_response(fs: &Fs, status: u16, page: &Option<Vec<Vec<u8>>>) -> (r: Response)
    ensures
        r@ == spec_error_response(fs@, status, page.deep_view()),
{
    let body = match page {
        Some(p) => {
            assert(p.deep_view() =~~= page.deep_view().unwrap());
            match fs.lookup(p) {
                Some(crate::fs::FsNode::File { bytes, .. }) => bytes,
                _ => default_body(status),
            }
        },
        None => default_body(status),
    };
    let len = crate::bytes::u64_to_dec(body.len() as u64);
    let mut headers: Vec<(Vec<u8>, Vec<u8>)> = Vec::new();
    headers.push(("content-type".as_bytes_vec(), "text/html".as_bytes_vec()));
    headers.push(("content-length".as_bytes_vec(), len));
    let r = Response { status, headers, body, encode_body: None };
    proof {
        assert(r@.headers =~~= spec_error_response(fs@, status, page.deep_view()).headers);
    }
    r
}

/// A redirect response before composition: `Location` and an empty body.
pub open spec fn spec_redirect_response(status: u16, location: Seq<u8>) -> RespModel {
    RespModel {
        status,
        headers: seq![
            ("location".spec_bytes(), location),
            ("content-length".spec_bytes(), spec_dec(0)),
        ],
        body: Seq::empty(),
        encode_body: None,
    }
}

fn redirect_response(status: u16, location: Vec<u8>) -> (r: Response)
    ensures
        r@ == spec_redirect_response(status, location@),
{
    let ghost loc = location@;
    let len = crate::bytes::u64_to_dec(0);
    let mut headers: Vec<(Vec<u8>, Vec<u8>)> = Vec::new();
    headers.push(("location".as_bytes_vec(), location));
    headers.push(("content-length".as_bytes_vec(), len));
    let r = Response { status, headers, body: Vec::new(), encode_body: None };
    proof {
        assert(r@.headers =~~= spec_redirect_response(status, loc).headers);
        assert(r@.body =~= Seq::<u8>::empty());
    }
    r
}

/// The name an encoding carries in `Content-Encoding`.
pub open spec fn spec_enc_name(enc: Encoding) -> Seq<u8> {
    match enc {
        Encoding::Gzip => "gzip".spec_bytes(),
        Encoding::Brotli => "br".spec_bytes(),
    }
}

fn enc_name(enc: Encoding) -> (r: Vec<u8>)
    ensures
        r@ == spec_enc_name(enc),
{
    match enc {
        Encoding::Gzip => "gzip".as_bytes_vec(),
        Encoding::Brotli => "br".as_bytes_vec(),
    }
}

/// The `Content-Range` value `bytes start-end/size`.
pub open spec fn spec_content_range(start: u64, end: u64, size: u64) -> Seq<u8> {
    "bytes ".spec_bytes() + spec_dec(start as nat) + "-".spec_bytes() + spec_dec(end as nat)
        + "/".spec_bytes() + spec_dec(size as nat)
}

fn content_range(start: u64, end: u64, size: u64) -> (r: Vec<u8>)
    ensures
        r@ == spec_content_range(start, end, size),
{
    let mut out = "bytes ".as_bytes_vec();
    let a = crate::bytes::u64_to_dec(start);
    crate::bytes::push_bytes(&mut out, &a);
    crate::bytes::push_bytes(&mut out, &"-".as_bytes_vec());
    let b = crate::bytes::u64_to_dec(end);
    crate::bytes::push_bytes(&mut out, &b);
    crate::bytes::push_bytes(&mut out, &"/".as_bytes_vec());
    let c = crate::bytes::u64_to_dec(size);
    crate::bytes::push_bytes(&mut out, &c);
    assert(out@ =~= spec_content_range(start, end, size));
    out
}

/// The response serving the file at `path`, before composition: the
/// negotiated variant, or the raw bytes with byte-range handling.
pub open spec fn spec_file_response(
    fsv: Seq<(Seq<Seq<u8>>, NodeModel)>,
    path: Seq<Seq<u8>>,
    accept: Option<Seq<u8>>,
    range_hdr: Option<Seq<u8>>,
    compression: bool,
    compression_static: bool,
) -> RespModel {
    let bytes = spec_file_bytes(fsv, path);
    let mime = spec_mime(path);
    match spec_negotiate(fsv, path, accept, compression, compression_static) {
        NegModel::Precompressed { enc, variant } => {
            let vb = spec_file_bytes(fsv, variant);
            RespModel {
                status: 200,
                headers: seq![
                    ("content-type".spec_bytes(), mime),
                    ("content-encoding".spec_bytes(), spec_enc_name(enc)),
                    ("vary".spec_bytes(), "accept-encoding".spec_bytes()),
                    ("content-length".spec_bytes(), spec_dec(vb.len())),
                ],
                body: vb,
                encode_body: None,
            }
        },
        NegModel::Dynamic { enc } => RespModel {
            status: 200,
            headers: seq![
                ("content-type".spec_bytes(), mime),
                ("content-encoding".spec_bytes(), spec_enc_name(enc)),
                ("vary".spec_bytes(), "accept-encoding".spec_bytes()),
            ],
            body: bytes,
            encode_body: Some(enc),
        },
        NegModel::Identity => {
            match spec_range(range_hdr, bytes.len() as u64) {
                RangeDecision::Full => RespModel {
                    status: 200,
                    headers: seq![
                        ("content-type".spec_bytes(), mime),
                        ("accept-ranges".spec_bytes(), "bytes".spec_bytes()),
                        ("content-length".spec_bytes(), spec_dec(bytes.len())),
                    ],
                    body: bytes,
                    encode_body: None,
                },
                RangeDecision::Part { start, end } => {
                    let part = bytes.subrange(start as int, end + 1);
                    RespModel {
                        status: 206,
                        headers: seq![
                            ("content-type".spec_bytes(), mime),
                            ("accept-ranges".spec_bytes(), "bytes".spec_bytes()),
                            (
                                "content-range".spec_bytes(),
                                spec_content_range(start, end, bytes.len() as u64),
                            ),
                            ("content-length".spec_bytes(), spec_dec(part.len())),
                        ],
                        body: part,
                        encode_body: None,
                    }
                },
                RangeDecision::Invalid => RespModel {
                    status: 416,
                    headers: seq![
                        (
                            "content-range".spec_bytes(),
                            "bytes */".spec_bytes() + spec_dec(bytes.len()),
                        ),
                        ("content-length".spec_bytes(), spec_dec(0)),
                    ],
                    body: Seq::empty(),
                    encode_body: None,
                },
            }
        },
    }
}

/// A satisfiable range decision stays inside the body.
proof fn lemma_range_bounds(h: Option<Seq<u8>>, size: u64)
    ensures
        match spec_range(h, size) {
            RangeDecision::Part { start, end } => start <= end < size,
            _ => true,
        },
{
}

#[verifier::rlimit(60)]
fn file_response(
    fs: &Fs,
    path: &Vec<Vec<u8>>,
    accept: &Option<Vec<u8>>,
    range_hdr: &Option<Vec<u8>>,
    compression: bool,
    compression_static: bool,
) -> (r: Response)
    ensures
        r@ == spec_file_response(
            fs@,
            path.deep_view(),
            accept.deep_view(),
            range_hdr.deep_view(),
            compression,
            compression_static,
        ),
{
    let ghost fsv = fs@;
    let ghost pv = path.deep_view();
    let bytes = match fs.lookup(path) {
        Some(crate::fs::FsNode::File { bytes, .. }) => bytes,
        _ => Vec::new(),
    };
    assert(bytes@ =~= spec_file_bytes(fsv, pv));
    let mime = crate::negotiate::mime_of(path);
    let neg = crate::negotiate::negotiate(fs, path, accept, compression, compression_static);
    match neg {
        crate::negotiate::Negotiation::Precompressed { enc, variant } => {
            let vb = match fs.lookup(&variant) {
                Some(crate::fs::FsNode::File { bytes, .. }) => bytes,
                _ => Vec::new(),
            };
            assert(vb@ =~= spec_file_bytes(fsv, variant.deep_view()));
            let len = crate::bytes::u64_to_dec(vb.len() as u64);
            let mut headers: Vec<(Vec<u8>, Vec<u8>)> = Vec::new();
            headers.push(("content-type".as_bytes_vec(), mime));
            headers.push(("content-encoding".as_bytes_vec(), enc_name(enc)));
            headers.push(("vary".as_bytes_vec(), "accept-encoding".as_bytes_vec()));
            headers.push(("content-length".as_bytes_vec(), len));
            let r = Response { status: 200, headers, body: vb, encode_body: None };
            proof {
                assert(r@.headers =~~= spec_file_response(
                    fsv,
                    pv,
                    accept.deep_view(),
                    range_hdr.deep_view(),
                    compression,
                    compression_static,
                ).headers);
            }
            r
        },
        crate::negotiate::Negotiation::Dynamic { enc } => {
            let mut headers: Vec<(Vec<u8>, Vec<u8>)> = Vec::new();
            headers.push(("content-type".as_bytes_vec(), mime));
            headers.push(("content-encoding".as_bytes_vec(), enc_name(enc)));
            headers.push(("vary".as_bytes_vec(), "accept-encoding".as_bytes_vec()));
            let r = Response { status: 200, headers, body: bytes, encode_body: Some(enc) };
            proof {
                assert(r@.headers =~~= spec_file_response(
                    fsv,
                    pv,
                    accept.deep_view(),
                    range_hdr.deep_view(),
                    compression,
                    compression_static,
                ).headers);
            }
            r
        },
        crate::negotiate::Negotiation::Identity => {
            let size = bytes.len() as u64;
            match crate::negotiate::range_decision(range_hdr, size) {
                RangeDecision::Full => {
                    let len = crate::bytes::u64_to_dec(size);
                    let mut headers: Vec<(Vec<u8>, Vec<u8>)> = Vec::new();
                    headers.push(("content-type".as_bytes_vec(), mime));
                    headers.push(("accept-ranges".as_bytes_vec(), "bytes".as_bytes_vec()));
                    headers.push(("content-length".as_bytes_vec(), len));
                    let r = Response { status: 200, headers, body: bytes, encode_body: None };
                    proof {
                        assert(r@.headers =~~= spec_file_response(
                            fsv,
                            pv,
                            accept.deep_view(),
                            range_hdr.deep_view(),
                            compression,
                            compression_static,
                        ).headers);
                    }
                    r
                },
                RangeDecision::Part { start, end } => {
                    proof {
                        lemma_range_bounds(range_hdr.deep_view(), size);
                    }
                    let s0 = start as usize;
                    let e0 = end as usize;
                    let blen = bytes.len();
                    let mut part: Vec<u8> = Vec::new();
                    let mut k: usize = s0;
                    assert(part@ =~= bytes@.subrange(s0 as int, s0 as int));
                    while k <= e0
                        invariant
                            s0 <= k <= e0 + 1,
                            e0 < blen,
                            blen == bytes@.len(),
                            part@ =~= bytes@.subrange(s0 as int, k as int),
                        decreases e0 + 1 - k,
                    {
                        part.push(bytes[k]);
                        assert(part@ =~= bytes@.subrange(s0 as int, k + 1));
                        k += 1;
                    }
                    let cr = content_range(start, end, size);
                    let len = crate::bytes::u64_to_dec(part.len() as u64);
                    let mut headers: Vec<(Vec<u8>, Vec<u8>)> = Vec::new();
                    headers.push(("content-type".as_bytes_vec(), mime));
                    headers.push(("accept-ranges".as_bytes_vec(), "bytes".as_bytes_vec()));
                    headers.push(("content-range".as_bytes_vec(), cr));
                    headers.push(("content-length".as_bytes_vec(), len));
                    let r = Response { status: 206, headers, body: part, encode_body: None };
                    proof {
                        assert(r@.body =~= spec_file_response(
                            fsv,
                            pv,
                            accept.deep_view(),
                            range_hdr.deep_view(),
                            compression,
                            compression_static,
                        ).body);
                        assert(r@.headers =~~= spec_file_response(
                            fsv,
                            pv,
                            accept.deep_view(),
                            range_hdr.deep_view(),
                            compression,
                            compression_static,
                        ).headers);
                    }
                    r
                },
                RangeDecision::Invalid => {
                    let mut cr = "bytes */".as_bytes_vec();
                    let szd = crate::bytes::u64_to_dec(size);
                    crate::bytes::push_bytes(&mut cr, &szd);
                    let len = crate::bytes::u64_to_dec(0);
                    let mut headers: Vec<(Vec<u8>, Vec<u8>)> = Vec::new();
                    headers.push(("content-range".as_bytes_vec(), cr));
                    headers.push(("content-length".as_bytes_vec(), len));
                    let r = Response {
                        status: 416,
                        headers,
                        body: Vec::new(),
                        encode_body: None,
                    };
                    proof {
                        assert(r@.body =~= Seq::<u8>::empty());
                        assert(r@.headers =~~= spec_file_response(
                            fsv,
                            pv,
                            accept.deep_view(),
                            range_hdr.deep_view(),
                            compression,
                            compression_static,
                        ).headers);
                    }
                    r
                },
            }
        },
    }
}

/// The parent-directory row, leading a listing below the root.
pub open spec fn spec_parent_row() -> crate::listing::EntryModel {
    crate::listing::EntryModel {
        name: "..".spec_bytes(),
        is_dir: true,
        size: 0,
        mtime: 0,
    }
}

/// The response listing the directory at `path`, before composition;
/// `parent` leads the rows with a `..` entry.
pub open spec fn spec_listing_response(
    fsv: Seq<(Seq<Seq<u8>>, NodeModel)>,
    path: Seq<Seq<u8>>,
    order: u16,
    fmt: DirListFmt,
    ignore_hidden: bool,
    parent: bool,
) -> RespModel {
    let sorted = spec_sort(order, spec_children(fsv, path, ignore_hidden));
    let rows = if parent {
        seq![spec_parent_row()] + sorted
    } else {
        sorted
    };
    let body = match fmt {
        DirListFmt::Html => spec_render_html(rows),
        DirListFmt::Json => spec_render_json(rows),
    };
    let ct = match fmt {
        DirListFmt::Html => "text/html".spec_bytes(),
        DirListFmt::Json => "application/json".spec_bytes(),
    };
    RespModel {
        status: 200,
        headers: seq![
            ("content-type".spec_bytes(), ct),
            ("content-length".spec_bytes(), spec_dec(body.len())),
        ],
        body,
        encode_body: None,
    }
}

fn listing_response(
    fs: &Fs,
    path: &Vec<Vec<u8>>,
    order: u16,
    fmt: DirListFmt,
    ignore_hidden: bool,
    parent: bool,
) -> (r: Response)
    ensures
        r@ == spec_listing_response(fs@, path.deep_view(), order, fmt, ignore_hidden, parent),
{
    let rows = crate::listing::children(fs, path, ignore_hidden);
    let mut sorted = crate::listing::sort_rows(order, rows);
    if parent {
        let ghost pre = sorted.deep_view();
        sorted.insert(
            0,
            crate::listing::ListEntry {
                name: "..".as_bytes_vec(),
                is_dir: true,
                size: 0,
                mtime: 0,
            },
        );
        assert(sorted.deep_view() =~~= seq![spec_parent_row()] + pre);
    }
    let (body, ct) = match fmt {
        DirListFmt::Html => (crate::listing::render_html(&sorted), "text/html".as_bytes_vec()),
        DirListFmt::Json => (crate::listing::render_json(&sorted), "application/json".as_bytes_vec()),
    };
    let len = crate::bytes::u64_to_dec(body.len() as u64);
    let mut headers: Vec<(Vec<u8>, Vec<u8>)> = Vec::new();
    headers.push(("content-type".as_bytes_vec(), ct));
    headers.push(("content-length".as_bytes_vec(), len));
    let r = Response { status: 200, headers, body, encode_body: None };
    proof {
        assert(r@.headers =~~= spec_listing_response(
            fs@,
            path.deep_view(),
            order,
            fmt,
            ignore_hidden,
            parent,
        ).headers);
    }
    r
}

/// The effective root directory and rule set for a request: the matching
/// virtual host's overrides when the advanced block names one for the
/// (normalized) `Host` value, else the global values.
pub open spec fn spec_effective(cfg: Snapshot, host: Option<Seq<u8>>) -> (
    Seq<Seq<u8>>,
    Option<RuleSet>,
) {
    match cfg.advanced {
        None => (cfg.root_dir.deep_view(), None::<RuleSet>),
        Some(adv) => match host {
            None => (cfg.root_dir.deep_view(), Some(adv.rules)),
            Some(h) => match spec_vhost_idx(adv.virtual_hosts@, spec_host_norm(h)) {
                None => (cfg.root_dir.deep_view(), Some(adv.rules)),
                Some(i) => (
                    match adv.virtual_hosts@[i].root {
                        Some(r) => r.deep_view(),
                        None => cfg.root_dir.deep_view(),
                    },
                    Some(
                        match adv.virtual_hosts@[i].rules {
                            Some(rs) => rs,
                            None => adv.rules,
                        },
                    ),
                ),
            },
        },
    }
}

/// Serving a (possibly rewritten) path below `root`: resolve, then
/// answer a file, a listing, a slash redirect, or the mapped error.
#[verifier::opaque]
pub open spec fn spec_serve(
    req: ReqModel,
    cfg: Snapshot,
    fsv: Seq<(Seq<Seq<u8>>, NodeModel)>,
    root: Seq<Seq<u8>>,
    path: Seq<u8>,
) -> RespModel {
    let accept = spec_find_header(req.headers, "accept-encoding".spec_bytes());
    let range_hdr = spec_find_header(req.headers, "range".spec_bytes());
    match spec_resolve(
        fsv,
        root,
        path,
        cfg.index_files.deep_view(),
        cfg.ignore_hidden_files,
        cfg.redirect_trailing_slash,
        cfg.dir_listing,
    ) {
        ResModel::BadEncoding => spec_error_response(fsv, 400, None),
        ResModel::NotFound => spec_error_response(fsv, 404, cfg.page404.deep_view()),
        ResModel::Denied => spec_error_response(fsv, 500, cfg.page50x.deep_view()),
        ResModel::RedirectSlash { location } => spec_redirect_response(308, location),
        ResModel::File { path: p } => spec_file_response(
            fsv,
            p,
            accept,
            range_hdr,
            cfg.compression,
            cfg.compression_static,
        ),
        ResModel::Listing { path: p } => spec_listing_response(
            fsv,
            p,
            cfg.dir_listing_order,
            cfg.dir_listing_format,
            cfg.ignore_hidden_files,
            p.len() > root.len(),
        ),
    }
}

/// The response before header composition: the gates in order (health,
/// maintenance, basic auth, method), then redirects, then rewrites, then
/// serving the resolved path.
#[verifier::opaque]
pub open spec fn spec_handle_base(
    req: ReqModel,
    cfg: Snapshot,
    fsv: Seq<(Seq<Seq<u8>>, NodeModel)>,
) -> RespModel {
    if cfg.health && req.path == "/health".spec_bytes() {
        RespModel {
            status: 200,
            headers: seq![("content-length".spec_bytes(), spec_dec(0))],
            body: Seq::empty(),
            encode_body: None,
        }
    } else if cfg.maintenance_mode {
        spec_error_response(
            fsv,
            spec_normalize_status(cfg.maintenance_mode_status),
            cfg.maintenance_mode_file.deep_view(),
        )
    } else if (match cfg.basic_auth {
        Some(cred) => !crate::auth::spec_auth_ok(req.headers, cred@),
        None => false,
    }) {
        let body = spec_default_body(401);
        RespModel {
            status: 401,
            headers: seq![
                ("content-type".spec_bytes(), "text/html".spec_bytes()),
                ("content-length".spec_bytes(), spec_dec(body.len())),
                (
                    "www-authenticate".spec_bytes(),
                    "Basic realm=\"Restricted\"".spec_bytes(),
                ),
            ],
            body,
            encode_body: None,
        }
    } else if req.method != "GET".spec_bytes() && req.method != "HEAD".spec_bytes() {
        let body = spec_default_body(405);
        RespModel {
            status: 405,
            headers: seq![
                ("content-type".spec_bytes(), "text/html".spec_bytes()),
                ("content-length".spec_bytes(), spec_dec(body.len())),
                ("allow".spec_bytes(), "GET, HEAD".spec_bytes()),
            ],
            body,
            encode_body: None,
        }
    } else {
        spec_route(req, cfg, fsv)
    }
}

/// Past the gates: redirects first, then rewrites, then resolution below
/// the effective root.
#[verifier::opaque]
pub open spec fn spec_route(
    req: ReqModel,
    cfg: Snapshot,
    fsv: Seq<(Seq<Seq<u8>>, NodeModel)>,
) -> RespModel {
    let host = spec_find_header(req.headers, "host".spec_bytes());
    let eff = spec_effective(cfg, host);
    match eff.1 {
        Some(rules) => match crate::rules::spec_apply_redirects(rules.redirects@, req.path) {
            Some(rd) => spec_redirect_response(rd.0, rd.1),
            None => match crate::rules::spec_apply_rewrites(rules.rewrites@, req.path) {
                Some(rw) => match rw.1 {
                    Some(st) => spec_redirect_response(st, rw.0),
                    None => spec_serve(req, cfg, fsv, eff.0, rw.0),
                },
                None => spec_serve(req, cfg, fsv, eff.0, req.path),
            },
        },
        None => spec_serve(req, cfg, fsv, eff.0, req.path),
    }
}

/// The header rules in effect for a request.
pub open spec fn spec_effective_header_rules(cfg: Snapshot, host: Option<Seq<u8>>) -> Seq<
    crate::config::HeaderRule,
> {
    match spec_effective(cfg, host).1 {
        Some(rules) => rules.headers@,
        None => Seq::empty(),
    }
}

/// The whole pipeline: the base response with the composed operational
/// headers appended, and an empty body for `HEAD`.
pub open spec fn spec_handle(
    req: ReqModel,
    cfg: Snapshot,
    fsv: Seq<(Seq<Seq<u8>>, NodeModel)>,
) -> RespModel {
    let base = spec_handle_base(req, cfg, fsv);
    let mime = match spec_find_header(base.headers, "content-type".spec_bytes()) {
        Some(m) => m,
        None => "text/html".spec_bytes(),
    };
    let host = spec_find_header(req.headers, "host".spec_bytes());
    let tail = spec_compose_tail(
        cfg.cache_control_headers,
        cfg.security_headers,
        cfg.cors.allow_origins.deep_view(),
        cfg.cors.expose_headers.deep_view(),
        spec_effective_header_rules(cfg, host),
        req.path,
        spec_find_header(req.headers, "origin".spec_bytes()),
        mime,
    );
    let tailed = RespModel {
        status: base.status,
        headers: base.headers + tail,
        body: base.body,
        encode_body: base.encode_body,
    };
    if req.method == "HEAD".spec_bytes() {
        RespModel {
            status: tailed.status,
            headers: tailed.headers,
            body: Seq::empty(),
            encode_body: None,
        }
    } else {
        tailed
    }
}

fn serve(fs: &Fs, cfg: &Snapshot, req: &Request, root: &Vec<Vec<u8>>, path: &Vec<u8>) -> (r:
    Response)
    ensures
        r@ == spec_serve(req@, *cfg, fs@, root.deep_view(), path@),
{
    proof {
        reveal(spec_serve);
    }
    let accept = crate::msg::find_header(&req.headers, &"accept-encoding".as_bytes_vec());
    let range_hdr = crate::msg::find_header(&req.headers, &"range".as_bytes_vec());
    proof {
        assert(accept.deep_view() == spec_find_header(req@.headers, "accept-encoding".spec_bytes()));
        assert(range_hdr.deep_view() == spec_find_header(req@.headers, "range".spec_bytes()));
    }
    let res = crate::resolve::resolve(
        fs,
        root,
        path,
        &cfg.index_files,
        cfg.ignore_hidden_files,
        cfg.redirect_trailing_slash,
        cfg.dir_listing,
    );
    match res {
        crate::resolve::Resolution::BadEncoding => error_response(fs, 400, &None),
        crate::resolve::Resolution::NotFound => error_response(fs, 404, &cfg.page404),
        crate::resolve::Resolution::Denied => error_response(fs, 500, &cfg.page50x),
        crate::resolve::Resolution::RedirectSlash { location } => redirect_response(308, location),
        crate::resolve::Resolution::File { path: p } => file_response(
            fs,
            &p,
            &accept,
            &range_hdr,
            cfg.compression,
            cfg.compression_static,
        ),
        crate::resolve::Resolution::Listing { path: p } => {
            proof {
                assert(p.deep_view().len() == p@.len());
                assert(root.deep_view().len() == root@.len());
            }
            listing_response(
                fs,
                &p,
                cfg.dir_listing_order,
                cfg.dir_listing_format,
                cfg.ignore_hidden_files,
                p.len() > root.len(),
            )
        },
    }
}

fn route(fs: &Fs, cfg: &Snapshot, req: &Request) -> (r: Response)
    ensures
        r@ == spec_route(req@, *cfg, fs@),
{
    proof {
        reveal(spec_route);
    }
    let host_hdr = crate::msg::find_header(&req.headers, &"host".as_bytes_vec());
    proof {
        assert(host_hdr.deep_view() == spec_find_header(req@.headers, "host".spec_bytes()));
    }
    let ghost eff = spec_effective(*cfg, host_hdr.deep_view());
    let root: Vec<Vec<u8>>;
    let rules_ref: Option<&RuleSet>;
    match &cfg.advanced {
        None => {
            root = crate::fs::copy_segs(&cfg.root_dir);
            rules_ref = None;
        },
        Some(adv) => {
            match &host_hdr {
                None => {
                    root = crate::fs::copy_segs(&cfg.root_dir);
                    rules_ref = Some(&adv.rules);
                },
                Some(h) => {
                    assert(h.deep_view() =~= h@);
                    let stripped = before_colon(h);
                    let norm = crate::bytes::lower_bytes(&stripped);
                    match select_vhost(&adv.virtual_hosts, &norm) {
                        None => {
                            root = crate::fs::copy_segs(&cfg.root_dir);
                            rules_ref = Some(&adv.rules);
                        },
                        Some(i) => {
                            root = match &adv.virtual_hosts[i].root {
                                Some(r) => crate::fs::copy_segs(r),
                                None => crate::fs::copy_segs(&cfg.root_dir),
                            };
                            rules_ref = match &adv.virtual_hosts[i].rules {
                                Some(rs) => Some(rs),
                                None => Some(&adv.rules),
                            };
                        },
                    }
                },
            }
        },
    }
    proof {
        assert(root.deep_view() == eff.0);
        match rules_ref {
            Some(rs) => {
                assert(eff.1 == Some(*rs));
            },
            None => {
                assert(eff.1 is None);
            },
        }
    }
    match rules_ref {
        Some(rules) => {
            match crate::rules::apply_redirects(&rules.redirects, &req.path) {
                Some(rd) => redirect_response(rd.0, rd.1),
                None => {
                    match crate::rules::apply_rewrites(&rules.rewrites, &req.path) {
                        Some(rw) => {
                            match rw.1 {
                                Some(st) => redirect_response(st, rw.0),
                                None => serve(fs, cfg, req, &root, &rw.0),
                            }
                        },
                        None => serve(fs, cfg, req, &root, &req.path),
                    }
                },
            }
        },
        None => serve(fs, cfg, req, &root, &req.path),
    }
}

fn handle_base(req: &Request, cfg: &Snapshot, fs: &Fs) -> (r: Response)
    ensures
        r@ == spec_handle_base(req@, *cfg, fs@),
{
    proof {
        reveal(spec_handle_base);
    }
    if cfg.health && crate::bytes::bytes_eq(&req.path, &"/health".as_bytes_vec()) {
        let len = crate::bytes::u64_to_dec(0);
        let mut headers: Vec<(Vec<u8>, Vec<u8>)> = Vec::new();
        headers.push(("content-length".as_bytes_vec(), len));
        let base = Response { status: 200, headers, body: Vec::new(), encode_body: None };
        proof {
            assert(base@.headers =~~= spec_handle_base(req@, *cfg, fs@).headers);
            assert(base@.body =~= Seq::<u8>::empty());
            assert(base@ =~~= spec_handle_base(req@, *cfg, fs@));
        }
        return base;
    }
    if cfg.maintenance_mode {
        let status = crate::config::normalize_status(cfg.maintenance_mode_status);
        return error_response(fs, status, &cfg.maintenance_mode_file);
    }
    let auth_failed = match &cfg.basic_auth {
        Some(cred) => !crate::auth::auth_ok(&req.headers, cred),
        None => false,
    };
    if auth_failed {
        let body = default_body(401);
        let len = crate::bytes::u64_to_dec(body.len() as u64);
        let mut headers: Vec<(Vec<u8>, Vec<u8>)> = Vec::new();
        headers.push(("content-type".as_bytes_vec(), "text/html".as_bytes_vec()));
        headers.push(("content-length".as_bytes_vec(), len));
        headers.push((
            "www-authenticate".as_bytes_vec(),
            "Basic realm=\"Restricted\"".as_bytes_vec(),
        ));
        let base = Response { status: 401, headers, body, encode_body: None };
        proof {
            assert(base@.headers =~~= spec_handle_base(req@, *cfg, fs@).headers);
            assert(base@ =~~= spec_handle_base(req@, *cfg, fs@));
        }
        return base;
    }
    if !crate::bytes::bytes_eq(&req.method, &"GET".as_bytes_vec()) && !crate::bytes::bytes_eq(
        &req.method,
        &"HEAD".as_bytes_vec(),
    ) {
        let body = default_body(405);
        let len = crate::bytes::u64_to_dec(body.len() as u64);
        let mut headers: Vec<(Vec<u8>, Vec<u8>)> = Vec::new();
        headers.push(("content-type".as_bytes_vec(), "text/html".as_bytes_vec()));
        headers.push(("content-length".as_bytes_vec(), len));
        headers.push(("allow".as_bytes_vec(), "GET, HEAD".as_bytes_vec()));
        let base = Response { status: 405, headers, body, encode_body: None };
        proof {
            assert(base@.headers =~~= spec_handle_base(req@, *cfg, fs@).headers);
            assert(base@ =~~= spec_handle_base(req@, *cfg, fs@));
        }
        return base;
    }
    route(fs, cfg, req)
}

fn effective_header_rules<'a>(cfg: &'a Snapshot, host_hdr: &Option<Vec<u8>>) -> (r: Option<
    &'a Vec<crate::config::HeaderRule>,
>)
    ensures
        match r {
            Some(v) => v@ == spec_effective_header_rules(*cfg, host_hdr.deep_view()),
            None => spec_effective_header_rules(*cfg, host_hdr.deep_view()) == Seq::<
                crate::config::HeaderRule,
            >::empty(),
        },
{
    match &cfg.advanced {
        None => None,
        Some(adv) => {
            match host_hdr {
                None => Some(&adv.rules.headers),
                Some(h) => {
                    assert(h.deep_view() =~= h@);
                    let stripped = before_colon(h);
                    let norm = crate::bytes::lower_bytes(&stripped);
                    match select_vhost(&adv.virtual_hosts, &norm) {
                        None => Some(&adv.rules.headers),
                        Some(i) => {
                            match &adv.virtual_hosts[i].rules {
                                Some(rs) => Some(&rs.headers),
                                None => Some(&adv.rules.headers),
                            }
                        },
                    }
                },
            }
        },
    }
}

/// Handles one request against the snapshot and the filesystem value.
/// Total over well-formed requests: every outcome, errors included, is an
/// HTTP response.
#[verifier::rlimit(100)]
pub fn handle(req: &Request, cfg: &Snapshot, fs: &Fs) -> (r: Response)
    ensures
        r@ == spec_handle(req@, *cfg, fs@),
{
    let mut base = handle_base(req, cfg, fs);
    let found_ct = crate::msg::find_header(&base.headers, &"content-type".as_bytes_vec());
    let mime = match found_ct {
        Some(m) => {
            assert(m.deep_view() =~= m@);
            m
        },
        None => "text/html".as_bytes_vec(),
    };
    proof {
        assert(mime@ == (match spec_find_header(
            spec_handle_base(req@, *cfg, fs@).headers,
            "content-type".spec_bytes(),
        ) {
            Some(m) => m,
            None => "text/html".spec_bytes(),
        }));
    }
    let host_hdr = crate::msg::find_header(&req.headers, &"host".as_bytes_vec());
    proof {
        assert(host_hdr.deep_view() == spec_find_header(req@.headers, "host".spec_bytes()));
    }
    let no_rules: Vec<crate::config::HeaderRule> = Vec::new();
    assert(no_rules@ =~= Seq::<crate::config::HeaderRule>::empty());
    let header_rules: &Vec<crate::config::HeaderRule> = match effective_header_rules(
        cfg,
        &host_hdr,
    ) {
        Some(v) => v,
        None => &no_rules,
    };
    assert(header_rules@ == spec_effective_header_rules(*cfg, host_hdr.deep_view()));
    let origin = crate::msg::find_header(&req.headers, &"origin".as_bytes_vec());
    proof {
        assert(origin.deep_view() == spec_find_header(req@.headers, "origin".spec_bytes()));
    }
    let tail = crate::compose::compose_tail(
        cfg.cache_control_headers,
        cfg.security_headers,
        &cfg.cors,
        header_rules,
        &req.path,
        &origin,
        &mime,
    );
    let ghost base_headers = base.headers.deep_view();
    let ghost base0 = base@;
    let mut k: usize = 0;
    while k < tail.len()
        invariant
            k <= tail.len(),
            tail.deep_view().len() == tail@.len(),
            base.headers.deep_view() =~= base_headers + tail.deep_view().subrange(0, k as int),
            base@.status == base0.status,
            base@.body == base0.body,
            base@.encode_body == base0.encode_body,
        decreases tail.len() - k,
    {
        let ghost pre = base.headers.deep_view();
        let name = crate::bytes::copy_bytes(&tail[k].0);
        let value = crate::bytes::copy_bytes(&tail[k].1);
        base.headers.push((name, value));
        proof {
            assert(tail.deep_view()[k as int].0 =~= tail@[k as int].0@);
            assert(tail.deep_view()[k as int].1 =~= tail@[k as int].1@);
            assert(base.headers.deep_view() =~~= pre + seq![tail.deep_view()[k as int]]);
            assert(base.headers.deep_view() =~= base_headers + tail.deep_view().subrange(
                0,
                k + 1,
            ));
        }
        k += 1;
    }
    proof {
        assert(base.headers.deep_view() =~= base_headers + tail.deep_view());
    }
    if crate::bytes::bytes_eq(&req.method, &"HEAD".as_bytes_vec()) {
        base.body = Vec::new();
        base.encode_body = None;
        proof {
            assert(base@.body =~= Seq::<u8>::empty());
        }
    }
    proof {
        let sb = spec_handle_base(req@, *cfg, fs@);
        let smime = match spec_find_header(sb.headers, "content-type".spec_bytes()) {
            Some(m) => m,
            None => "text/html".spec_bytes(),
        };
        let stail = spec_compose_tail(
            cfg.cache_control_headers,
            cfg.security_headers,
            cfg.cors.allow_origins.deep_view(),
            cfg.cors.expose_headers.deep_view(),
            spec_effective_header_rules(*cfg, spec_find_header(req@.headers, "host".spec_bytes())),
            req@.path,
            spec_find_header(req@.headers, "origin".spec_bytes()),
            smime,
        );
        assert(tail.deep_view() == stail);
        assert(base@.headers =~= sb.headers + stail);
        assert(base@.status == sb.status);
        if req@.method == "HEAD".spec_bytes() {
            assert(base@.body =~= Seq::<u8>::empty());
            assert(base@.encode_body is None);
        } else {
            assert(base@.body == sb.body);
            assert(base@.encode_body == sb.encode_body);
        }
        assert(base@ =~~= spec_handle(req@, *cfg, fs@));
    }
    base
}

/// Serving the same request twice against the same snapshot and
/// filesystem value yields byte-identical bodies and identical headers
/// (in particular the same `Content-Encoding`) both times: the pipeline
/// is a function of its inputs.
pub proof fn lemma_handle_deterministic(
    req: ReqModel,
    cfg: Snapshot,
    fsv: Seq<(Seq<Seq<u8>>, NodeModel)>,
    r1: RespModel,
    r2: RespModel,
)
    requires
        r1 == spec_handle(req, cfg, fsv),
        r2 == spec_handle(req, cfg, fsv),
    ensures
        r1.body == r2.body,
        r1.headers == r2.headers,
        r1.status == r2.status,
        r1.encode_body == r2.encode_body,
{
}

/// While maintenance mode is on, every request that is not the health
/// probe is answered with the configured maintenance status, whatever its
/// path, credentials, or the rewrite rules.
pub proof fn lemma_maintenance_gate(
    req: ReqModel,
    cfg: Snapshot,
    fsv: Seq<(Seq<Seq<u8>>, NodeModel)>,
)
    requires
        cfg.maintenance_mode,
        !(cfg.health && req.path == "/health".spec_bytes()),
    ensures
        spec_handle(req, cfg, fsv).status == spec_normalize_status(cfg.maintenance_mode_status),
{
    reveal(spec_handle_base);
}

/// With credentials configured, a request without an `Authorization`
/// header is answered 401 and carries the `WWW-Authenticate` challenge.
pub proof fn lemma_auth_challenge(
    req: ReqModel,
    cfg: Snapshot,
    fsv: Seq<(Seq<Seq<u8>>, NodeModel)>,
)
    requires
        cfg.basic_auth is Some,
        spec_find_header(req.headers, "authorization".spec_bytes()) is None,
        !cfg.maintenance_mode,
        !(cfg.health && req.path == "/health".spec_bytes()),
    ensures
        spec_handle(req, cfg, fsv).status == 401,
        spec_handle(req, cfg, fsv).headers[2] == (
            "www-authenticate".spec_bytes(),
            "Basic realm=\"Restricted\"".spec_bytes(),
        ),
{
    reveal(spec_handle_base);
}

/// With correct credentials authorization is transparent: the response
/// equals the one the same request gets from a snapshot with no
/// credentials configured, whatever the path.
#[verifier::rlimit(60)]
pub proof fn lemma_auth_passes(
    req: ReqModel,
    cfg: Snapshot,
    fsv: Seq<(Seq<Seq<u8>>, NodeModel)>,
)
    requires
        cfg.basic_auth is Some,
        crate::auth::spec_auth_ok(req.headers, cfg.basic_auth.unwrap()@),
    ensures
        spec_handle(req, cfg, fsv) == spec_handle(
            req,
            Snapshot { basic_auth: None, ..cfg },
            fsv,
        ),
{
    reveal(spec_handle_base);
    reveal(spec_route);
    reveal(spec_serve);
    let cfg2 = Snapshot { basic_auth: None, ..cfg };
    assert(spec_handle_base(req, cfg, fsv) == spec_handle_base(req, cfg2, fsv));
    assert(spec_handle(req, cfg, fsv) =~~= spec_handle(req, cfg2, fsv));
}

/// A directory reached without a trailing slash while slash redirects
/// are on is answered with a redirect to the same path with `/` appended
/// and an empty body: nothing of the directory's contents is served.
pub proof fn lemma_trailing_slash_redirect(
    req: ReqModel,
    cfg: Snapshot,
    fsv: Seq<(Seq<Seq<u8>>, NodeModel)>,
    root: Seq<Seq<u8>>,
    path: Seq<u8>,
)
    requires
        cfg.redirect_trailing_slash,
        crate::resolve::spec_pct_decode(path) is Some,
        ({
            let d = crate::resolve::spec_pct_decode(path).unwrap();
            !(d.len() > 0 && d.last() == 47)
        }),
        crate::resolve::spec_normalize(
            crate::bytes::spec_split(crate::resolve::spec_pct_decode(path).unwrap(), 47),
        ) is Some,
        !(cfg.ignore_hidden_files && crate::resolve::spec_has_hidden(
            crate::resolve::spec_normalize(
                crate::bytes::spec_split(crate::resolve::spec_pct_decode(path).unwrap(), 47),
            ).unwrap(),
        )),
        crate::fs::spec_lookup(
            fsv,
            root + crate::resolve::spec_normalize(
                crate::bytes::spec_split(crate::resolve::spec_pct_decode(path).unwrap(), 47),
            ).unwrap(),
        ) == Some(NodeModel::Dir),
    ensures
        spec_serve(req, cfg, fsv, root, path) == spec_redirect_response(308, path + seq![47u8]),
        spec_serve(req, cfg, fsv, root, path).status == 308,
        spec_serve(req, cfg, fsv, root, path).headers[0] == (
            "location".spec_bytes(),
            path + seq![47u8],
        ),
        spec_serve(req, cfg, fsv, root, path).body == Seq::<u8>::empty(),
{
    reveal(spec_serve);
}

/// A path whose normalization escapes the root is answered not-found;
/// together with the containment lemma of the resolver, no request ever
/// resolves to a path outside the root directory.
pub proof fn lemma_escape_is_not_found(
    req: ReqModel,
    cfg: Snapshot,
    fsv: Seq<(Seq<Seq<u8>>, NodeModel)>,
    root: Seq<Seq<u8>>,
    path: Seq<u8>,
)
    requires
        crate::resolve::spec_pct_decode(path) is Some,
        crate::resolve::spec_normalize(
            crate::bytes::spec_split(crate::resolve::spec_pct_decode(path).unwrap(), 47),
        ) is None,
    ensures
        spec_serve(req, cfg, fsv, root, path) == spec_error_response(
            fsv,
            404,
            cfg.page404.deep_view(),
        ),
        spec_serve(req, cfg, fsv, root, path).status == 404,
{
    reveal(spec_serve);
}

/// With static compression on, a client that accepts `gzip` and asks for
/// a file with a `.gz` sibling is answered with exactly the sibling's
/// bytes, marked `Content-Encoding: gzip`.
pub proof fn lemma_precompressed_gzip(
    fsv: Seq<(Seq<Seq<u8>>, NodeModel)>,
    path: Seq<Seq<u8>>,
    accept: Option<Seq<u8>>,
    range_hdr: Option<Seq<u8>>,
    compression: bool,
)
    requires
        path.len() > 0,
        crate::negotiate::spec_accepts(accept, "gzip".spec_bytes()),
        spec_is_file(fsv, crate::negotiate::spec_sibling(path, ".gz".spec_bytes())),
    ensures
        spec_file_response(fsv, path, accept, range_hdr, compression, true).body
            == spec_file_bytes(fsv, crate::negotiate::spec_sibling(path, ".gz".spec_bytes())),
        spec_file_response(fsv, path, accept, range_hdr, compression, true).headers[1] == (
            "content-encoding".spec_bytes(),
            "gzip".spec_bytes(),
        ),
{
}

/// One access-log record, emitted to the external logging sink after each
/// response; the remote address is recorded only when configured.
pub struct LogRecord {
    pub method: Vec<u8>,
    pub path: Vec<u8>,
    pub status: u16,
    pub body_len: u64,
    pub remote_addr: Option<Vec<u8>>,
}

/// Builds the access-log record for a handled request.
pub fn access_record(req: &Request, resp: &Response, log_remote_address: bool) -> (r: LogRecord)
    ensures
        r.method@ == req.method@,
        r.path@ == req.path@,
        r.status == resp.status,
        r.body_len == resp.body@.len(),
        log_remote_address ==> r.remote_addr.deep_view() == req.remote_addr.deep_view(),
        !log_remote_address ==> r.remote_addr is None,
{
    let remote_addr = if log_remote_address {
        match &req.remote_addr {
            Some(a) => Some(crate::bytes::copy_bytes(a)),
            None => None,
        }
    } else {
        None
    };
    proof {
        if log_remote_address {
            match req.remote_addr {
                Some(_) => {},
                None => {},
            }
        }
    }
    LogRecord {
        method: crate::bytes::copy_bytes(&req.method),
        path: crate::bytes::copy_bytes(&req.path),
        status: resp.status,
        body_len: resp.body.len() as u64,
        remote_addr,
    }
}

} // verus!
