//! The header composer: every response leaves the orchestrator with the
//! operational headers appended in a fixed order, so that later stages
//! cannot be overridden silently: cache-control (fixed policy per content
//! type), the fixed security set, CORS computed from the request origin,
//! and last the path-matched custom headers, so operators can override
//! any default.

use vstd::prelude::*;
use vstd::string::StrSliceExecFns;
use vstd::string::StringSliceAdditionalSpecFns;
use crate::config::{Cors, HeaderRule};
use crate::rules::spec_matched_headers;

verus! {

/// `needle` occurs in `hay`.
pub open spec fn spec_contains(hay: Seq<Seq<u8>>, needle: Seq<u8>) -> bool {
    exists|k: int| 0 <= k < hay.len() && hay[k] == needle
}

fn contains(hay: &Vec<Vec<u8>>, needle: &Vec<u8>) -> (r: bool)
    ensures
        r == spec_contains(hay.deep_view(), needle@),
{
    let mut i: usize = 0;
    while i < hay.len()
        invariant
            i <= hay.len(),
            forall|k: int| 0 <= k < i ==> hay.deep_view()[k] != needle@,
        decreases hay.len() - i,
    {
        proof {
            assert(hay.deep_view()[i as int] =~= hay@[i as int]@);
        }
        if crate::bytes::bytes_eq(&hay[i], needle) {
            assert(hay.deep_view()[i as int] == needle@);
            return true;
        }
        i += 1;
    }
    false
}

/// The items from position `i` on, each preceded by `", "`.
pub open spec fn spec_join_from(items: Seq<Seq<u8>>, i: int) -> Seq<u8>
    decreases items.len() - i,
{
    if i < 0 || i >= items.len() {
        Seq::empty()
    } else {
        ", ".spec_bytes() + items[i] + spec_join_from(items, i + 1)
    }
}

/// The items joined with `", "`.
pub open spec fn spec_join(items: Seq<Seq<u8>>) -> Seq<u8> {
    if items.len() == 0 {
        Seq::empty()
    } else {
        items[0] + spec_join_from(items, 1)
    }
}

/// Joins header names with `", "`.
pub fn join_comma(items: &Vec<Vec<u8>>) -> (r: Vec<u8>)
    ensures
        r@ == spec_join(items.deep_view()),
{
    let ghost iv = items.deep_view();
    let mut out: Vec<u8> = Vec::new();
    if items.len() == 0 {
        assert(out@ =~= spec_join(iv));
        return out;
    }
    proof {
        assert(iv[0] =~= items@[0]@);
    }
    crate::bytes::push_bytes(&mut out, &items[0]);
    let mut i: usize = 1;
    while i < items.len()
        invariant
            1 <= i <= items.len(),
            iv == items.deep_view(),
            iv.len() == items@.len(),
            spec_join(iv) == out@ + spec_join_from(iv, i as int),
        decreases items.len() - i,
    {
        proof {
            assert(iv[i as int] =~= items@[i as int]@);
        }
        crate::bytes::push_bytes(&mut out, &", ".as_bytes_vec());
        crate::bytes::push_bytes(&mut out, &items[i]);
        assert(out@ + spec_join_from(iv, i + 1) =~= spec_join(iv));
        i += 1;
    }
    assert(out@ =~= spec_join(iv));
    out
}

/// The CORS headers for a request origin: when the origin (or `*`) is in
/// the allow-list, the origin is echoed, and the exposed header names are
/// advertised when configured.
pub open spec fn spec_cors_headers(
    allow_origins: Seq<Seq<u8>>,
    expose: Seq<Seq<u8>>,
    origin: Option<Seq<u8>>,
) -> Seq<(Seq<u8>, Seq<u8>)> {
    match origin {
        None => Seq::empty(),
        Some(o) => {
            if spec_contains(allow_origins, "*".spec_bytes()) || spec_contains(allow_origins, o) {
                seq![("access-control-allow-origin".spec_bytes(), o)] + (if expose.len() > 0 {
                    seq![("access-control-expose-headers".spec_bytes(), spec_join(expose))]
                } else {
                    Seq::empty()
                })
            } else {
                Seq::empty()
            }
        },
    }
}

/// The fixed cache policy for a content type: short for HTML pages,
/// longer for every other asset.
pub open spec fn spec_cache_value(mime: Seq<u8>) -> Seq<u8> {
    if mime == "text/html".spec_bytes() {
        "public, max-age=60".spec_bytes()
    } else {
        "public, max-age=3600".spec_bytes()
    }
}

/// The composed operational tail: cache-control when enabled, then the
/// fixed security set, then CORS, then the first matching custom rule.
pub open spec fn spec_compose_tail(
    cache_enabled: bool,
    security_enabled: bool,
    allow_origins: Seq<Seq<u8>>,
    expose: Seq<Seq<u8>>,
    header_rules: Seq<HeaderRule>,
    req_path: Seq<u8>,
    origin: Option<Seq<u8>>,
    mime: Seq<u8>,
) -> Seq<(Seq<u8>, Seq<u8>)> {
    (if cache_enabled {
        seq![("cache-control".spec_bytes(), spec_cache_value(mime))]
    } else {
        Seq::empty()
    }) + (if security_enabled {
        seq![
            ("x-content-type-options".spec_bytes(), "nosniff".spec_bytes()),
            ("x-frame-options".spec_bytes(), "DENY".spec_bytes()),
        ]
    } else {
        Seq::empty()
    }) + spec_cors_headers(allow_origins, expose, origin) + spec_matched_headers(
        header_rules,
        req_path,
    )
}

/// Builds the operational header tail for one response.
pub fn compose_tail(
    cache_enabled: bool,
    security_enabled: bool,
    cors: &Cors,
    header_rules: &Vec<HeaderRule>,
    req_path: &Vec<u8>,
    origin: &Option<Vec<u8>>,
    mime: &Vec<u8>,
) -> (r: Vec<(Vec<u8>, Vec<u8>)>)
    ensures
        r.deep_view() == spec_compose_tail(
            cache_enabled,
            security_enabled,
            cors.allow_origins.deep_view(),
            cors.expose_headers.deep_view(),
            header_rules@,
            req_path@,
            origin.deep_view(),
            mime@,
        ),
{
    let mut out: Vec<(Vec<u8>, Vec<u8>)> = Vec::new();
    if cache_enabled {
        let value = if crate::bytes::bytes_eq(mime, &"text/html".as_bytes_vec()) {
            "public, max-age=60".as_bytes_vec()
        } else {
            "public, max-age=3600".as_bytes_vec()
        };
        out.push(("cache-control".as_bytes_vec(), value));
    }
    if security_enabled {
        out.push(("x-content-type-options".as_bytes_vec(), "nosniff".as_bytes_vec()));
        out.push(("x-frame-options".as_bytes_vec(), "DENY".as_bytes_vec()));
    }
    match origin {
        None => {},
        Some(o) => {
            assert(o.deep_view() =~= o@);
            if contains(&cors.allow_origins, &"*".as_bytes_vec()) || contains(
                &cors.allow_origins,
                o,
            ) {
                out.push(("access-control-allow-origin".as_bytes_vec(), crate::bytes::copy_bytes(o)));
                if cors.expose_headers.len() > 0 {
                    assert(cors.expose_headers.deep_view().len() == cors.expose_headers@.len());
                    let joined = join_comma(&cors.expose_headers);
                    out.push(("access-control-expose-headers".as_bytes_vec(), joined));
                }
            }
        },
    }
    let custom = crate::rules::matched_headers(header_rules, req_path);
    let mut k: usize = 0;
    let ghost pre_custom = out.deep_view();
    while k < custom.len()
        invariant
            k <= custom.len(),
            custom.deep_view().len() == custom@.len(),
            out.deep_view() =~= pre_custom + custom.deep_view().subrange(0, k as int),
        decreases custom.len() - k,
    {
        let ghost pre = out.deep_view();
        let name = crate::bytes::copy_bytes(&custom[k].0);
        let value = crate::bytes::copy_bytes(&custom[k].1);
        out.push((name, value));
        proof {
            assert(custom.deep_view()[k as int].0 =~= custom@[k as int].0@);
            assert(custom.deep_view()[k as int].1 =~= custom@[k as int].1@);
            assert(out.deep_view() =~~= pre + seq![custom.deep_view()[k as int]]);
            assert(out.deep_view() =~= pre_custom + custom.deep_view().subrange(0, k + 1));
        }
        k += 1;
    }
    proof {
        assert(out.deep_view() =~~= spec_compose_tail(
            cache_enabled,
            security_enabled,
            cors.allow_origins.deep_view(),
            cors.expose_headers.deep_view(),
            header_rules@,
            req_path@,
            origin.deep_view(),
            mime@,
        ));
    }
    out
}

} // verus!
