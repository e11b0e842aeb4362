//! The content negotiator: static precompressed variant, on-the-fly
//! compression, or the raw file, plus byte-range handling.
//!
//! A precompressed sibling (`name.gz` / `name.br`) is preferred when
//! `compression_static` is on and the client accepts the encoding, trying
//! `gzip` before `br`.  Failing that, on-the-fly compression is chosen
//! when `compression` is on, the media type is compressible, the file is
//! not tiny, and the client accepts an encoding.  Byte ranges are
//! honoured only on the
//! identity path; a malformed or unsatisfiable `Range` yields 416.

use vstd::prelude::*;
use vstd::string::StrSliceExecFns;
use vstd::string::StringSliceAdditionalSpecFns;
use crate::bytes::{spec_split, spec_trim, spec_has_prefix};
use crate::fs::{Fs, NodeModel, spec_file_bytes, spec_is_file};
use crate::msg::Encoding;

verus! {

/// The bytes of a header-value field before the first `;` (parameters,
/// such as quality weights, are not inspected).
pub open spec fn spec_before_semi(s: Seq<u8>) -> Seq<u8>
    decreases s.len(),
{
    if s.len() == 0 {
        s
    } else if s[0] == 59 {
        Seq::empty()
    } else {
        seq![s[0]] + spec_before_semi(s.drop_first())
    }
}

/// A comma-separated field reduced to its token: parameters cut off,
/// blanks trimmed.
pub open spec fn spec_token(field: Seq<u8>) -> Seq<u8> {
    spec_trim(spec_before_semi(field))
}

/// The client accepts encoding `name`: some field of the `Accept-Encoding`
/// value has token `name`, or the wildcard `*`.
pub open spec fn spec_accepts_in(h: Seq<u8>, name: Seq<u8>) -> bool {
    exists|k: int|
        0 <= k < spec_split(h, 44).len() && (#[trigger] spec_token(spec_split(h, 44)[k]) == name
            || spec_token(spec_split(h, 44)[k]) == seq![42u8])
}

/// Acceptance over an optional header: an absent header accepts nothing.
pub open spec fn spec_accepts(h: Option<Seq<u8>>, name: Seq<u8>) -> bool {
    match h {
        None => false,
        Some(v) => spec_accepts_in(v, name),
    }
}

fn before_semi(v: &Vec<u8>) -> (r: Vec<u8>)
    ensures
        r@ == spec_before_semi(v@),
{
    let mut out: Vec<u8> = Vec::new();
    proof {
        assert(v@.skip(0) =~= v@);
        assert(Seq::<u8>::empty() + spec_before_semi(v@) =~= spec_before_semi(v@));
    }
    let mut i: usize = 0;
    while i < v.len()
        invariant
            i <= v.len(),
            spec_before_semi(v@) == out@ + spec_before_semi(v@.skip(i as int)),
            forall|j: int| 0 <= j < i ==> v@[j] != 59,
        decreases v.len() - i,
    {
        proof {
            assert(v@.skip(i as int)[0] == v@[i as int]);
            assert(v@.skip(i as int).drop_first() =~= v@.skip(i + 1));
        }
        if v[i] == 59 {
            assert(out@ + Seq::<u8>::empty() =~= out@);
            assert(out@ =~= spec_before_semi(v@));
            return out;
        }
        out.push(v[i]);
        assert(out@ + spec_before_semi(v@.skip(i + 1)) =~= spec_before_semi(v@));
        i += 1;
    }
    assert(v@.skip(v@.len() as int) =~= Seq::<u8>::empty());
    assert(out@ =~= spec_before_semi(v@));
    out
}

/// Tests whether the `Accept-Encoding` value `h` accepts `name`.
pub fn accepts_in(h: &Vec<u8>, name: &Vec<u8>) -> (r: bool)
    ensures
        r == spec_accepts_in(h@, name@),
{
    let fields = crate::bytes::split_bytes(h, 44);
    let ghost fv = fields.deep_view();
    let mut wild: Vec<u8> = Vec::new();
    wild.push(42);
    assert(wild@ =~= seq![42u8]);
    let mut i: usize = 0;
    while i < fields.len()
        invariant
            i <= fields.len(),
            fv == fields.deep_view(),
            fv.len() == fields@.len(),
            fv == spec_split(h@, 44),
            wild@ == seq![42u8],
            forall|k: int|
                0 <= k < i ==> !(#[trigger] spec_token(fv[k]) == name@ || spec_token(fv[k])
                    == seq![42u8]),
        decreases fields.len() - i,
    {
        proof {
            assert(fv[i as int] =~= fields@[i as int]@);
        }
        let cut = before_semi(&fields[i]);
        let tok = crate::bytes::trim_bytes(&cut);
        if crate::bytes::bytes_eq(&tok, name) || crate::bytes::bytes_eq(&tok, &wild) {
            assert(spec_token(fv[i as int]) == name@ || spec_token(fv[i as int]) == seq![42u8]);
            return true;
        }
        i += 1;
    }
    false
}

/// Tests the optional `Accept-Encoding` header for `name`.
pub fn accepts(h: &Option<Vec<u8>>, name: &Vec<u8>) -> (r: bool)
    ensures
        r == spec_accepts(h.deep_view(), name@),
{
    match h {
        None => false,
        Some(v) => {
            assert(v.deep_view() =~= v@);
            accepts_in(v, name)
        },
    }
}

/// The sibling path of `path` whose last segment carries `suffix`.
pub open spec fn spec_sibling(path: Seq<Seq<u8>>, suffix: Seq<u8>) -> Seq<Seq<u8>>
    recommends
        path.len() > 0,
{
    path.update(path.len() - 1, path.last() + suffix)
}

/// Builds the sibling path with `suffix` appended to the file name.
pub fn sibling(path: &Vec<Vec<u8>>, suffix: &Vec<u8>) -> (r: Vec<Vec<u8>>)
    requires
        path.len() > 0,
    ensures
        r.deep_view() == spec_sibling(path.deep_view(), suffix@),
{
    let mut r = crate::fs::copy_segs(path);
    proof {
        assert(r.deep_view().len() == r@.len());
        assert(path.deep_view().len() == path@.len());
        assert(r@.len() == path@.len());
    }
    let mut last = crate::bytes::copy_bytes(&path[path.len() - 1]);
    crate::bytes::push_bytes(&mut last, suffix);
    let n = r.len() - 1;
    r.set(n, last);
    assert(r.deep_view() =~~= spec_sibling(path.deep_view(), suffix@));
    r
}

/// How the body of a resolved file is served.
pub enum Negotiation {
    /// Serve the precompressed sibling at `variant` with `Content-Encoding`.
    Precompressed { enc: Encoding, variant: Vec<Vec<u8>> },
    /// Serve the raw file through the transport's on-the-fly encoder.
    Dynamic { enc: Encoding },
    /// Serve the raw bytes; ranges apply here only.
    Identity,
}

/// Spec-level model of a negotiation outcome.
pub enum NegModel {
    Precompressed { enc: Encoding, variant: Seq<Seq<u8>> },
    Dynamic { enc: Encoding },
    Identity,
}

impl View for Negotiation {
    type V = NegModel;

    open spec fn view(&self) -> NegModel {
        match self {
            Negotiation::Precompressed { enc, variant } => NegModel::Precompressed {
                enc: *enc,
                variant: variant.deep_view(),
            },
            Negotiation::Dynamic { enc } => NegModel::Dynamic { enc: *enc },
            Negotiation::Identity => NegModel::Identity,
        }
    }
}

/// The last-dot position in a file name, if any.
pub open spec fn spec_rfind_dot(s: Seq<u8>) -> Option<int>
    decreases s.len(),
{
    if s.len() == 0 {
        None
    } else if s.last() == 46 {
        Some(s.len() - 1)
    } else {
        spec_rfind_dot(s.drop_last())
    }
}

/// The extension of a file name: what follows the last dot, empty when
/// there is none.
pub open spec fn spec_ext(s: Seq<u8>) -> Seq<u8> {
    match spec_rfind_dot(s) {
        Some(i) => s.skip(i + 1),
        None => Seq::empty(),
    }
}

/// The content type served for extension `ext`.
pub open spec fn spec_mime_for_ext(ext: Seq<u8>) -> Seq<u8> {
    if ext == "html".spec_bytes() || ext == "htm".spec_bytes() {
        "text/html".spec_bytes()
    } else if ext == "css".spec_bytes() {
        "text/css".spec_bytes()
    } else if ext == "js".spec_bytes() {
        "application/javascript".spec_bytes()
    } else if ext == "json".spec_bytes() {
        "application/json".spec_bytes()
    } else if ext == "txt".spec_bytes() {
        "text/plain".spec_bytes()
    } else if ext == "svg".spec_bytes() {
        "image/svg+xml".spec_bytes()
    } else if ext == "png".spec_bytes() {
        "image/png".spec_bytes()
    } else if ext == "jpg".spec_bytes() || ext == "jpeg".spec_bytes() {
        "image/jpeg".spec_bytes()
    } else if ext == "gif".spec_bytes() {
        "image/gif".spec_bytes()
    } else if ext == "gz".spec_bytes() {
        "application/gzip".spec_bytes()
    } else if ext == "pdf".spec_bytes() {
        "application/pdf".spec_bytes()
    } else {
        "application/octet-stream".spec_bytes()
    }
}

/// The content type of the file at `path` (by its name's extension).
pub open spec fn spec_mime(path: Seq<Seq<u8>>) -> Seq<u8> {
    if path.len() == 0 {
        "application/octet-stream".spec_bytes()
    } else {
        spec_mime_for_ext(spec_ext(path.last()))
    }
}

fn rfind_dot(s: &Vec<u8>) -> (r: Option<usize>)
    ensures
        match r {
            Some(i) => spec_rfind_dot(s@) == Some(i as int) && i < s.len(),
            None => spec_rfind_dot(s@) is None,
        },
{
    let mut i: usize = s.len();
    assert(s@.take(s@.len() as int) =~= s@);
    while i > 0
        invariant
            i <= s.len(),
            spec_rfind_dot(s@) == spec_rfind_dot(s@.take(i as int)),
        decreases i,
    {
        proof {
            let t = s@.take(i as int);
            assert(t.last() == s@[i - 1]);
            assert(t.drop_last() =~= s@.take(i - 1));
        }
        if s[i - 1] == 46 {
            return Some(i - 1);
        }
        i -= 1;
    }
    assert(s@.take(0) =~= Seq::<u8>::empty());
    None
}

/// The extension of file name `s`.
pub fn ext_of(s: &Vec<u8>) -> (r: Vec<u8>)
    ensures
        r@ == spec_ext(s@),
{
    match rfind_dot(s) {
        Some(i) => {
            let mut out: Vec<u8> = Vec::new();
            let mut k: usize = i + 1;
            while k < s.len()
                invariant
                    i + 1 <= k <= s.len(),
                    out@ =~= s@.subrange(i + 1, k as int),
                decreases s.len() - k,
            {
                out.push(s[k]);
                assert(out@ =~= s@.subrange(i + 1, k + 1));
                k += 1;
            }
            assert(out@ =~= s@.skip(i + 1));
            out
        },
        None => {
            let out: Vec<u8> = Vec::new();
            assert(out@ =~= Seq::<u8>::empty());
            out
        },
    }
}

/// The content type for the file at `path`.
pub fn mime_of(path: &Vec<Vec<u8>>) -> (r: Vec<u8>)
    ensures
        r@ == spec_mime(path.deep_view()),
{
    if path.len() == 0 {
        return "application/octet-stream".as_bytes_vec();
    }
    let name = &path[path.len() - 1];
    proof {
        assert(path.deep_view().last() =~= path@.last()@);
    }
    let ext = ext_of(name);
    if crate::bytes::bytes_eq(&ext, &"html".as_bytes_vec()) || crate::bytes::bytes_eq(
        &ext,
        &"htm".as_bytes_vec(),
    ) {
        "text/html".as_bytes_vec()
    } else if crate::bytes::bytes_eq(&ext, &"css".as_bytes_vec()) {
        "text/css".as_bytes_vec()
    } else if crate::bytes::bytes_eq(&ext, &"js".as_bytes_vec()) {
        "application/javascript".as_bytes_vec()
    } else if crate::bytes::bytes_eq(&ext, &"json".as_bytes_vec()) {
        "application/json".as_bytes_vec()
    } else if crate::bytes::bytes_eq(&ext, &"txt".as_bytes_vec()) {
        "text/plain".as_bytes_vec()
    } else if crate::bytes::bytes_eq(&ext, &"svg".as_bytes_vec()) {
        "image/svg+xml".as_bytes_vec()
    } else if crate::bytes::bytes_eq(&ext, &"png".as_bytes_vec()) {
        "image/png".as_bytes_vec()
    } else if crate::bytes::bytes_eq(&ext, &"jpg".as_bytes_vec()) || crate::bytes::bytes_eq(
        &ext,
        &"jpeg".as_bytes_vec(),
    ) {
        "image/jpeg".as_bytes_vec()
    } else if crate::bytes::bytes_eq(&ext, &"gif".as_bytes_vec()) {
        "image/gif".as_bytes_vec()
    } else if crate::bytes::bytes_eq(&ext, &"gz".as_bytes_vec()) {
        "application/gzip".as_bytes_vec()
    } else if crate::bytes::bytes_eq(&ext, &"pdf".as_bytes_vec()) {
        "application/pdf".as_bytes_vec()
    } else {
        "application/octet-stream".as_bytes_vec()
    }
}

/// A media type worth compressing on the fly.
pub open spec fn spec_compressible(mime: Seq<u8>) -> bool {
    spec_has_prefix(mime, "text/".spec_bytes()) || mime == "application/json".spec_bytes() || mime
        == "application/javascript".spec_bytes() || mime == "image/svg+xml".spec_bytes()
}

/// Tests whether `mime` is compressible.
pub fn compressible(mime: &Vec<u8>) -> (r: bool)
    ensures
        r == spec_compressible(mime@),
{
    crate::bytes::has_prefix(mime, &"text/".as_bytes_vec()) || crate::bytes::bytes_eq(
        mime,
        &"application/json".as_bytes_vec(),
    ) || crate::bytes::bytes_eq(mime, &"application/javascript".as_bytes_vec())
        || crate::bytes::bytes_eq(mime, &"image/svg+xml".as_bytes_vec())
}

/// The smallest body worth compressing on the fly.
pub const MIN_COMPRESS_LEN: u64 = 32;

/// The negotiator's verdict for the file at `path`: a precompressed
/// sibling first (`gzip` before `br`), then on-the-fly compression for
/// compressible types above the minimum size, else identity.
pub open spec fn spec_negotiate(
    fsv: Seq<(Seq<Seq<u8>>, NodeModel)>,
    path: Seq<Seq<u8>>,
    accept: Option<Seq<u8>>,
    compression: bool,
    compression_static: bool,
) -> NegModel {
    if compression_static && path.len() > 0 && spec_accepts(accept, "gzip".spec_bytes())
        && spec_is_file(fsv, spec_sibling(path, ".gz".spec_bytes())) {
        NegModel::Precompressed {
            enc: Encoding::Gzip,
            variant: spec_sibling(path, ".gz".spec_bytes()),
        }
    } else if compression_static && path.len() > 0 && spec_accepts(accept, "br".spec_bytes())
        && spec_is_file(fsv, spec_sibling(path, ".br".spec_bytes())) {
        NegModel::Precompressed {
            enc: Encoding::Brotli,
            variant: spec_sibling(path, ".br".spec_bytes()),
        }
    } else if compression && spec_compressible(spec_mime(path)) && spec_file_bytes(
        fsv,
        path,
    ).len() >= MIN_COMPRESS_LEN && spec_accepts(accept, "gzip".spec_bytes()) {
        NegModel::Dynamic { enc: Encoding::Gzip }
    } else if compression && spec_compressible(spec_mime(path)) && spec_file_bytes(
        fsv,
        path,
    ).len() >= MIN_COMPRESS_LEN && spec_accepts(accept, "br".spec_bytes()) {
        NegModel::Dynamic { enc: Encoding::Brotli }
    } else {
        NegModel::Identity
    }
}

/// Negotiates how the file at `path` is served.
pub fn negotiate(
    fs: &Fs,
    path: &Vec<Vec<u8>>,
    accept: &Option<Vec<u8>>,
    compression: bool,
    compression_static: bool,
) -> (r: Negotiation)
    ensures
        r@ == spec_negotiate(fs@, path.deep_view(), accept.deep_view(), compression,
            compression_static),
{
    if compression_static && path.len() > 0 && accepts(accept, &"gzip".as_bytes_vec()) {
        let cand = sibling(path, &".gz".as_bytes_vec());
        match fs.lookup(&cand) {
            Some(crate::fs::FsNode::File { .. }) => {
                return Negotiation::Precompressed { enc: Encoding::Gzip, variant: cand };
            },
            _ => {},
        }
    }
    if compression_static && path.len() > 0 && accepts(accept, &"br".as_bytes_vec()) {
        let cand = sibling(path, &".br".as_bytes_vec());
        match fs.lookup(&cand) {
            Some(crate::fs::FsNode::File { .. }) => {
                return Negotiation::Precompressed { enc: Encoding::Brotli, variant: cand };
            },
            _ => {},
        }
    }
    if compression {
        let mime = mime_of(path);
        if compressible(&mime) {
            let size: u64 = match fs.lookup(path) {
                Some(crate::fs::FsNode::File { bytes, .. }) => bytes.len() as u64,
                _ => 0,
            };
            assert(size == spec_file_bytes(fs@, path.deep_view()).len());
            if size >= MIN_COMPRESS_LEN {
                if accepts(accept, &"gzip".as_bytes_vec()) {
                    return Negotiation::Dynamic { enc: Encoding::Gzip };
                }
                if accepts(accept, &"br".as_bytes_vec()) {
                    return Negotiation::Dynamic { enc: Encoding::Brotli };
                }
            }
        }
    }
    Negotiation::Identity
}

/// How a `Range` header is answered for a body of `size` bytes.
#[derive(Clone, Copy, PartialEq, Eq, Structural, Debug)]
pub enum RangeDecision {
    /// No range requested: the whole body, status 200.
    Full,
    /// A satisfiable range: bytes `start..=end`, status 206.
    Part { start: u64, end: u64 },
    /// Malformed or unsatisfiable: status 416.
    Invalid,
}

/// `s` holds a comma (several ranges are not supported).
pub open spec fn spec_has_comma(s: Seq<u8>) -> bool {
    exists|k: int| 0 <= k < s.len() && s[k] == 44
}

/// The range decision for value `v` of a `Range` header on `size` bytes.
/// Only single `bytes=` ranges are understood: `a-b`, `a-`, `-n`.
pub open spec fn spec_range_in(v: Seq<u8>, size: u64) -> RangeDecision {
    if !spec_has_prefix(v, "bytes=".spec_bytes()) {
        RangeDecision::Invalid
    } else {
        let rest = v.skip(6);
        if spec_has_comma(rest) {
            RangeDecision::Invalid
        } else {
            let fields = spec_split(rest, 45);
            if fields.len() != 2 {
                RangeDecision::Invalid
            } else {
                let a = fields[0];
                let b = fields[1];
                if a.len() == 0 && b.len() > 0 {
                    match crate::bytes::spec_parse_u64(b) {
                        None => RangeDecision::Invalid,
                        Some(n) => if n == 0 || size == 0 {
                            RangeDecision::Invalid
                        } else if n >= size {
                            RangeDecision::Part { start: 0, end: (size - 1) as u64 }
                        } else {
                            RangeDecision::Part {
                                start: (size - n) as u64,
                                end: (size - 1) as u64,
                            }
                        },
                    }
                } else if a.len() > 0 {
                    match crate::bytes::spec_parse_u64(a) {
                        None => RangeDecision::Invalid,
                        Some(s0) => if s0 >= size {
                            RangeDecision::Invalid
                        } else if b.len() == 0 {
                            RangeDecision::Part { start: s0, end: (size - 1) as u64 }
                        } else {
                            match crate::bytes::spec_parse_u64(b) {
                                None => RangeDecision::Invalid,
                                Some(e0) => if e0 < s0 {
                                    RangeDecision::Invalid
                                } else if e0 >= size {
                                    RangeDecision::Part { start: s0, end: (size - 1) as u64 }
                                } else {
                                    RangeDecision::Part { start: s0, end: e0 }
                                },
                            }
                        },
                    }
                } else {
                    RangeDecision::Invalid
                }
            }
        }
    }
}

/// The range decision for an optional `Range` header.
pub open spec fn spec_range(h: Option<Seq<u8>>, size: u64) -> RangeDecision {
    match h {
        None => RangeDecision::Full,
        Some(v) => spec_range_in(v, size),
    }
}

fn has_comma(v: &Vec<u8>) -> (r: bool)
    ensures
        r == spec_has_comma(v@),
{
    let mut i: usize = 0;
    while i < v.len()
        invariant
            i <= v.len(),
            forall|k: int| 0 <= k < i ==> v@[k] != 44,
        decreases v.len() - i,
    {
        if v[i] == 44 {
            return true;
        }
        i += 1;
    }
    false
}

/// Decides an optional `Range` header against a body of `size` bytes.
pub fn range_decision(h: &Option<Vec<u8>>, size: u64) -> (r: RangeDecision)
    ensures
        r == spec_range(h.deep_view(), size),
{
    let v = match h {
        None => {
            return RangeDecision::Full;
        },
        Some(v) => v,
    };
    proof {
        assert(v.deep_view() =~= v@);
        reveal_strlit("bytes=");
        vstd::string::is_ascii_spec_bytes("bytes=");
        assert("bytes=".spec_bytes().len() == 6);
    }
    let prefix = "bytes=".as_bytes_vec();
    if !crate::bytes::has_prefix(v, &prefix) {
        return RangeDecision::Invalid;
    }
    let mut rest: Vec<u8> = Vec::new();
    let mut i: usize = 6;
    while i < v.len()
        invariant
            6 <= i <= v.len(),
            v@.len() >= 6,
            rest@ =~= v@.subrange(6, i as int),
        decreases v.len() - i,
    {
        rest.push(v[i]);
        assert(rest@ =~= v@.subrange(6, i + 1));
        i += 1;
    }
    assert(rest@ =~= v@.skip(6));
    if has_comma(&rest) {
        return RangeDecision::Invalid;
    }
    let fields = crate::bytes::split_bytes(&rest, 45);
    proof {
        assert(fields.deep_view().len() == fields@.len());
    }
    if fields.len() != 2 {
        return RangeDecision::Invalid;
    }
    let a = &fields[0];
    let b = &fields[1];
    proof {
        assert(fields.deep_view()[0] =~= fields@[0]@);
        assert(fields.deep_view()[1] =~= fields@[1]@);
    }
    if a.len() == 0 && b.len() > 0 {
        match crate::bytes::parse_u64(b) {
            None => RangeDecision::Invalid,
            Some(n) => {
                if n == 0 || size == 0 {
                    RangeDecision::Invalid
                } else if n >= size {
                    RangeDecision::Part { start: 0, end: size - 1 }
                } else {
                    RangeDecision::Part { start: size - n, end: size - 1 }
                }
            },
        }
    } else if a.len() > 0 {
        match crate::bytes::parse_u64(a) {
            None => RangeDecision::Invalid,
            Some(s0) => {
                if s0 >= size {
                    RangeDecision::Invalid
                } else if b.len() == 0 {
                    RangeDecision::Part { start: s0, end: size - 1 }
                } else {
                    match crate::bytes::parse_u64(b) {
                        None => RangeDecision::Invalid,
                        Some(e0) => {
                            if e0 < s0 {
                                RangeDecision::Invalid
                            } else if e0 >= size {
                                RangeDecision::Part { start: s0, end: size - 1 }
                            } else {
                                RangeDecision::Part { start: s0, end: e0 }
                            }
                        },
                    }
                }
            },
        }
    } else {
        RangeDecision::Invalid
    }
}

} // verus!
