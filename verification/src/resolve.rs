//! The path resolver: from a (possibly rewritten) URI path to a file, a
//! directory, a trailing-slash redirect, or an error class.
//!
//! The URI path is percent-decoded, split into segments, and normalized:
//! empty and `.` segments vanish, `..` pops the previous segment, and a
//! `..` that would cross the root reports not-found (never a path outside
//! the root).  Hidden segments (leading dot) report not-found when
//! configured.  A directory request without a trailing slash either
//! redirects to the slashed path or tries the configured index files in
//! order.

use vstd::prelude::*;
use crate::fs::{Fs, NodeModel, spec_is_file, spec_lookup};

verus! {

/// The value of an ASCII hex digit.
pub open spec fn spec_hex_val(b: u8) -> Option<u8> {
    if 48 <= b && b <= 57 {
        Some((b - 48) as u8)
    } else if 65 <= b && b <= 70 {
        Some((b - 55) as u8)
    } else if 97 <= b && b <= 102 {
        Some((b - 87) as u8)
    } else {
        None
    }
}

/// Percent-decoding of `s` from position `i` on; `None` for a `%` not
/// followed by two hex digits.
pub open spec fn spec_pct_from(s: Seq<u8>, i: int) -> Option<Seq<u8>>
    decreases s.len() - i,
{
    if i < 0 || i >= s.len() {
        Some(Seq::empty())
    } else if s[i] == 37 {
        if i + 2 < s.len() && spec_hex_val(s[i + 1]) is Some && spec_hex_val(s[i + 2]) is Some {
            match spec_pct_from(s, i + 3) {
                Some(r) => Some(
                    seq![
                        (spec_hex_val(s[i + 1]).unwrap() * 16 + spec_hex_val(
                            s[i + 2],
                        ).unwrap()) as u8,
                    ] + r,
                ),
                None => None,
            }
        } else {
            None
        }
    } else {
        match spec_pct_from(s, i + 1) {
            Some(r) => Some(seq![s[i]] + r),
            None => None,
        }
    }
}

/// Percent-decoding of a whole path.
pub open spec fn spec_pct_decode(s: Seq<u8>) -> Option<Seq<u8>> {
    spec_pct_from(s, 0)
}

fn hex_val(b: u8) -> (r: Option<u8>)
    ensures
        r == spec_hex_val(b),
{
    if 48 <= b && b <= 57 {
        Some(b - 48)
    } else if 65 <= b && b <= 70 {
        Some(b - 55)
    } else if 97 <= b && b <= 102 {
        Some(b - 87)
    } else {
        None
    }
}

/// Percent-decodes `v`.
pub fn pct_decode(v: &Vec<u8>) -> (r: Option<Vec<u8>>)
    ensures
        r.deep_view() == spec_pct_decode(v@),
{
    let mut out: Vec<u8> = Vec::new();
    let mut i: usize = 0;
    while i < v.len()
        invariant
            i <= v.len(),
            spec_pct_decode(v@) == match spec_pct_from(v@, i as int) {
                Some(t) => Some(out@ + t),
                None => None::<Seq<u8>>,
            },
        decreases v.len() - i,
    {
        if v[i] == 37 {
            if v.len() - i > 2 {
                assert(i + 2 < v@.len());
                let h1 = hex_val(v[i + 1]);
                let h2 = hex_val(v[i + 2]);
                match (h1, h2) {
                    (Some(a), Some(b)) => {
                        out.push(a * 16 + b);
                        proof {
                            match spec_pct_from(v@, i + 3) {
                                Some(t) => {
                                    assert(out@ + t =~= out@.drop_last() + (seq![
                                        (a * 16 + b) as u8,
                                    ] + t));
                                },
                                None => {},
                            }
                        }
                        i += 3;
                    },
                    _ => {
                        return None;
                    },
                }
            } else {
                return None;
            }
        } else {
            out.push(v[i]);
            proof {
                match spec_pct_from(v@, i + 1) {
                    Some(t) => {
                        assert(out@ + t =~= out@.drop_last() + (seq![v@[i as int]] + t));
                    },
                    None => {},
                }
            }
            i += 1;
        }
    }
    assert(out@ =~= out@ + Seq::<u8>::empty());
    Some(out)
}

/// The `.` segment.
pub open spec fn seg_dot() -> Seq<u8> {
    seq![46u8]
}

/// The `..` segment.
pub open spec fn seg_dotdot() -> Seq<u8> {
    seq![46u8, 46u8]
}

/// Normalization of the split path from position `i` on, with the
/// segments kept so far in `acc`: empty and `.` segments vanish, `..`
/// pops, and a pop with nothing left means the path escapes the root.
pub open spec fn spec_norm_from(segs: Seq<Seq<u8>>, i: int, acc: Seq<Seq<u8>>) -> Option<
    Seq<Seq<u8>>,
>
    decreases segs.len() - i,
{
    if i < 0 || i >= segs.len() {
        Some(acc)
    } else if segs[i] == Seq::<u8>::empty() || segs[i] == seg_dot() {
        spec_norm_from(segs, i + 1, acc)
    } else if segs[i] == seg_dotdot() {
        if acc.len() == 0 {
            None
        } else {
            spec_norm_from(segs, i + 1, acc.drop_last())
        }
    } else {
        spec_norm_from(segs, i + 1, acc.push(segs[i]))
    }
}

/// The normalized segments of a split path; `None` when it escapes.
pub open spec fn spec_normalize(segs: Seq<Seq<u8>>) -> Option<Seq<Seq<u8>>> {
    spec_norm_from(segs, 0, Seq::empty())
}

/// A plain segment: not empty, not `.`, not `..`.
pub open spec fn spec_plain_seg(seg: Seq<u8>) -> bool {
    seg != Seq::<u8>::empty() && seg != seg_dot() && seg != seg_dotdot()
}

proof fn lemma_norm_plain_rec(segs: Seq<Seq<u8>>, i: int, acc: Seq<Seq<u8>>)
    requires
        forall|k: int| 0 <= k < acc.len() ==> spec_plain_seg(#[trigger] acc[k]),
        spec_norm_from(segs, i, acc) is Some,
    ensures
        forall|k: int|
            0 <= k < spec_norm_from(segs, i, acc).unwrap().len() ==> spec_plain_seg(
                #[trigger] spec_norm_from(segs, i, acc).unwrap()[k],
            ),
    decreases segs.len() - i,
{
    if i < 0 || i >= segs.len() {
    } else if segs[i] == Seq::<u8>::empty() || segs[i] == seg_dot() {
        lemma_norm_plain_rec(segs, i + 1, acc);
    } else if segs[i] == seg_dotdot() {
        lemma_norm_plain_rec(segs, i + 1, acc.drop_last());
    } else {
        lemma_norm_plain_rec(segs, i + 1, acc.push(segs[i]));
    }
}

/// Traversal containment: when normalization succeeds, the result holds
/// only plain segments (no `..` survives), so the resolved filesystem
/// path `root + result` always stays below `root`; a path whose `..`
/// segments would cross the root is answered with `None` and is reported
/// not-found, never resolved.
pub proof fn lemma_normalize_contained(segs: Seq<Seq<u8>>, root: Seq<Seq<u8>>)
    requires
        spec_normalize(segs) is Some,
    ensures
        forall|k: int|
            0 <= k < spec_normalize(segs).unwrap().len() ==> spec_plain_seg(
                #[trigger] spec_normalize(segs).unwrap()[k],
            ),
        (root + spec_normalize(segs).unwrap()).take(root.len() as int) == root,
{
    lemma_norm_plain_rec(segs, 0, Seq::empty());
    assert((root + spec_normalize(segs).unwrap()).take(root.len() as int) =~= root);
}

/// Normalizes split path segments.
pub fn normalize(segs: &Vec<Vec<u8>>) -> (r: Option<Vec<Vec<u8>>>)
    ensures
        r.deep_view() == spec_normalize(segs.deep_view()),
{
    let ghost sv = segs.deep_view();
    let mut acc: Vec<Vec<u8>> = Vec::new();
    assert(acc.deep_view() =~= Seq::<Seq<u8>>::empty());
    let mut i: usize = 0;
    while i < segs.len()
        invariant
            i <= segs.len(),
            sv == segs.deep_view(),
            sv.len() == segs@.len(),
            spec_normalize(sv) == spec_norm_from(sv, i as int, acc.deep_view()),
        decreases segs.len() - i,
    {
        let seg = &segs[i];
        proof {
            assert(sv[i as int] =~= segs@[i as int]@);
        }
        if seg.len() == 0 || (seg.len() == 1 && seg[0] == 46) {
            proof {
                if seg@.len() == 0 {
                    assert(sv[i as int] =~= Seq::<u8>::empty());
                } else {
                    assert(sv[i as int] =~= seg_dot());
                }
            }
        } else if seg.len() == 2 && seg[0] == 46 && seg[1] == 46 {
            assert(sv[i as int] =~= seg_dotdot());
            if acc.len() == 0 {
                assert(acc.deep_view().len() == 0);
                return None;
            }
            let ghost pre = acc.deep_view();
            let _ = acc.pop();
            assert(acc.deep_view() =~~= pre.drop_last());
        } else {
            proof {
                assert(sv[i as int] != Seq::<u8>::empty());
                if sv[i as int] == seg_dot() {
                    assert(sv[i as int].len() == 1 && sv[i as int][0] == 46);
                }
                if sv[i as int] == seg_dotdot() {
                    assert(sv[i as int].len() == 2 && sv[i as int][0] == 46 && sv[i as int][1]
                        == 46);
                }
            }
            let ghost pre = acc.deep_view();
            acc.push(crate::bytes::copy_bytes(seg));
            assert(acc.deep_view() =~~= pre.push(sv[i as int]));
        }
        i += 1;
    }
    Some(acc)
}

/// A hidden segment: non-empty and starting with a dot.
pub open spec fn spec_has_hidden(segs: Seq<Seq<u8>>) -> bool {
    exists|k: int| 0 <= k < segs.len() && #[trigger] segs[k].len() > 0 && segs[k][0] == 46
}

/// Tests for a hidden (dot-leading) segment.
pub fn has_hidden(segs: &Vec<Vec<u8>>) -> (r: bool)
    ensures
        r == spec_has_hidden(segs.deep_view()),
{
    let mut i: usize = 0;
    while i < segs.len()
        invariant
            i <= segs.len(),
            forall|k: int|
                0 <= k < i ==> !(#[trigger] segs.deep_view()[k].len() > 0 && segs.deep_view()[k][0]
                    == 46),
        decreases segs.len() - i,
    {
        proof {
            assert(segs.deep_view()[i as int] =~= segs@[i as int]@);
        }
        if segs[i].len() > 0 && segs[i][0] == 46 {
            assert(segs.deep_view()[i as int].len() > 0 && segs.deep_view()[i as int][0] == 46);
            return true;
        }
        i += 1;
    }
    false
}

/// What the resolver reports for a request path.
pub enum Resolution {
    /// Malformed percent-encoding (answered 400).
    BadEncoding,
    /// Missing file or directory, traversal attempt, or hidden segment
    /// (all answered 404, indistinguishable from outside).
    NotFound,
    /// Directory reached without a trailing slash while slash redirects
    /// are on: redirect to this location.
    RedirectSlash { location: Vec<u8> },
    /// A regular file, by its full filesystem path.
    File { path: Vec<Vec<u8>> },
    /// A directory to list, by its full filesystem path.
    Listing { path: Vec<Vec<u8>> },
    /// The path exists but cannot be read (answered 500).
    Denied,
}

/// Spec-level model of a resolution.
pub enum ResModel {
    BadEncoding,
    NotFound,
    RedirectSlash { location: Seq<u8> },
    File { path: Seq<Seq<u8>> },
    Listing { path: Seq<Seq<u8>> },
    Denied,
}

impl View for Resolution {
    type V = ResModel;

    open spec fn view(&self) -> ResModel {
        match self {
            Resolution::BadEncoding => ResModel::BadEncoding,
            Resolution::NotFound => ResModel::NotFound,
            Resolution::RedirectSlash { location } => ResModel::RedirectSlash {
                location: location@,
            },
            Resolution::File { path } => ResModel::File { path: path.deep_view() },
            Resolution::Listing { path } => ResModel::Listing { path: path.deep_view() },
            Resolution::Denied => ResModel::Denied,
        }
    }
}

/// The full path of the first configured index file that is a regular
/// file inside `dir`.
pub open spec fn spec_first_index(
    fsv: Seq<(Seq<Seq<u8>>, NodeModel)>,
    dir: Seq<Seq<u8>>,
    files: Seq<Seq<u8>>,
) -> Option<Seq<Seq<u8>>>
    decreases files.len(),
{
    if files.len() == 0 {
        None
    } else if spec_is_file(fsv, dir.push(files[0])) {
        Some(dir.push(files[0]))
    } else {
        spec_first_index(fsv, dir, files.drop_first())
    }
}

/// Index substitution obeys first-match-wins: the file chosen for a
/// directory is the first configured name that exists as a regular file
/// there, and `None` means none of them does.
pub proof fn lemma_first_index_wins(
    fsv: Seq<(Seq<Seq<u8>>, NodeModel)>,
    dir: Seq<Seq<u8>>,
    files: Seq<Seq<u8>>,
)
    ensures
        match spec_first_index(fsv, dir, files) {
            Some(p) => exists|i: int|
                0 <= i < files.len() && p == dir.push(files[i]) && spec_is_file(fsv, p) && (
                forall|j: int| 0 <= j < i ==> !spec_is_file(fsv, dir.push(#[trigger] files[j]))),
            None => forall|j: int|
                0 <= j < files.len() ==> !spec_is_file(fsv, dir.push(#[trigger] files[j])),
        },
    decreases files.len(),
{
    if files.len() == 0 {
    } else if spec_is_file(fsv, dir.push(files[0])) {
        let i = 0int;
        assert(0 <= i < files.len() && spec_first_index(fsv, dir, files).unwrap() == dir.push(
            files[i],
        ) && spec_is_file(fsv, dir.push(files[i])) && (forall|j: int|
            0 <= j < i ==> !spec_is_file(fsv, dir.push(#[trigger] files[j]))));
    } else {
        lemma_first_index_wins(fsv, dir, files.drop_first());
        assert(forall|j: int|
            1 <= j < files.len() ==> files.drop_first()[j - 1] == #[trigger] files[j]);
        match spec_first_index(fsv, dir, files.drop_first()) {
            Some(p) => {
                let i = choose|i: int|
                    0 <= i < files.drop_first().len() && p == dir.push(files.drop_first()[i])
                        && spec_is_file(fsv, p) && (forall|j: int|
                        0 <= j < i ==> !spec_is_file(
                            fsv,
                            dir.push(#[trigger] files.drop_first()[j]),
                        ));
                assert(0 <= i + 1 < files.len() && p == dir.push(files[i + 1]) && spec_is_file(
                    fsv,
                    p,
                ));
                assert(forall|j: int|
                    0 <= j < i + 1 ==> !spec_is_file(fsv, dir.push(#[trigger] files[j])));
            },
            None => {},
        }
    }
}

fn first_index(fs: &Fs, dir: &Vec<Vec<u8>>, files: &Vec<Vec<u8>>) -> (r: Option<Vec<Vec<u8>>>)
    ensures
        r.deep_view() == spec_first_index(fs@, dir.deep_view(), files.deep_view()),
{
    let ghost fv = files.deep_view();
    assert(fv.skip(0) =~~= fv);
    let mut i: usize = 0;
    while i < files.len()
        invariant
            i <= files.len(),
            fv == files.deep_view(),
            fv.len() == files@.len(),
            spec_first_index(fs@, dir.deep_view(), fv) == spec_first_index(
                fs@,
                dir.deep_view(),
                fv.skip(i as int),
            ),
        decreases files.len() - i,
    {
        proof {
            assert(fv.skip(i as int)[0] == fv[i as int]);
            assert(fv.skip(i as int).drop_first() =~~= fv.skip(i + 1));
            assert(fv[i as int] =~= files@[i as int]@);
        }
        let mut cand = crate::fs::copy_segs(dir);
        cand.push(crate::bytes::copy_bytes(&files[i]));
        assert(cand.deep_view() =~~= dir.deep_view().push(fv[i as int]));
        match fs.lookup(&cand) {
            Some(node) => {
                match node {
                    crate::fs::FsNode::File { .. } => {
                        return Some(cand);
                    },
                    _ => {},
                }
            },
            None => {},
        }
        i += 1;
    }
    None
}

/// The resolver's verdict for raw path `raw` below `root`.
pub open spec fn spec_resolve(
    fsv: Seq<(Seq<Seq<u8>>, NodeModel)>,
    root: Seq<Seq<u8>>,
    raw: Seq<u8>,
    index_files: Seq<Seq<u8>>,
    ignore_hidden: bool,
    redirect_slash: bool,
    dir_listing: bool,
) -> ResModel {
    match spec_pct_decode(raw) {
        None => ResModel::BadEncoding,
        Some(decoded) => {
            let segs = crate::bytes::spec_split(decoded, 47);
            let trailing = decoded.len() > 0 && decoded.last() == 47;
            match spec_normalize(segs) {
                None => ResModel::NotFound,
                Some(norm) => {
                    if ignore_hidden && spec_has_hidden(norm) {
                        ResModel::NotFound
                    } else {
                        let full = root + norm;
                        match spec_lookup(fsv, full) {
                            None => ResModel::NotFound,
                            Some(NodeModel::Denied) => ResModel::Denied,
                            Some(NodeModel::File { .. }) => {
                                if trailing {
                                    ResModel::NotFound
                                } else {
                                    ResModel::File { path: full }
                                }
                            },
                            Some(NodeModel::Dir) => {
                                if !trailing && redirect_slash {
                                    ResModel::RedirectSlash { location: raw + seq![47u8] }
                                } else {
                                    match spec_first_index(fsv, full, index_files) {
                                        Some(p) => ResModel::File { path: p },
                                        None => {
                                            if dir_listing {
                                                ResModel::Listing { path: full }
                                            } else {
                                                ResModel::NotFound
                                            }
                                        },
                                    }
                                }
                            },
                        }
                    }
                },
            }
        },
    }
}

/// Resolves `raw` below `root` against the filesystem value `fs`.
pub fn resolve(
    fs: &Fs,
    root: &Vec<Vec<u8>>,
    raw: &Vec<u8>,
    index_files: &Vec<Vec<u8>>,
    ignore_hidden: bool,
    redirect_slash: bool,
    dir_listing: bool,
) -> (r: Resolution)
    ensures
        r@ == spec_resolve(
            fs@,
            root.deep_view(),
            raw@,
            index_files.deep_view(),
            ignore_hidden,
            redirect_slash,
            dir_listing,
        ),
{
    let decoded = match pct_decode(raw) {
        None => {
            return Resolution::BadEncoding;
        },
        Some(d) => d,
    };
    proof {
        assert(decoded.deep_view() =~= decoded@);
        assert(spec_pct_decode(raw@) == Some(decoded@));
    }
    let segs = crate::bytes::split_bytes(&decoded, 47);
    let trailing = decoded.len() > 0 && decoded[decoded.len() - 1] == 47;
    let norm = match normalize(&segs) {
        None => {
            return Resolution::NotFound;
        },
        Some(n) => n,
    };
    if ignore_hidden && has_hidden(&norm) {
        return Resolution::NotFound;
    }
    let mut full = crate::fs::copy_segs(root);
    let mut norm_tail = norm;
    let ghost normv = norm_tail.deep_view();
    let mut k: usize = 0;
    while k < norm_tail.len()
        invariant
            k <= norm_tail.len(),
            normv == norm_tail.deep_view(),
            normv.len() == norm_tail@.len(),
            full.deep_view() =~= root.deep_view() + normv.subrange(0, k as int),
        decreases norm_tail.len() - k,
    {
        let ghost pre = full.deep_view();
        full.push(crate::bytes::copy_bytes(&norm_tail[k]));
        assert(full.deep_view() =~~= pre.push(normv[k as int]));
        assert(full.deep_view() =~= root.deep_view() + normv.subrange(0, k + 1));
        k += 1;
    }
    assert(full.deep_view() =~= root.deep_view() + normv);
    match fs.lookup(&full) {
        None => Resolution::NotFound,
        Some(crate::fs::FsNode::Denied) => Resolution::Denied,
        Some(crate::fs::FsNode::File { .. }) => {
            if trailing {
                Resolution::NotFound
            } else {
                Resolution::File { path: full }
            }
        },
        Some(crate::fs::FsNode::Dir) => {
            if !trailing && redirect_slash {
                let mut location = crate::bytes::copy_bytes(raw);
                location.push(47);
                assert(location@ =~= raw@ + seq![47u8]);
                Resolution::RedirectSlash { location }
            } else {
                match first_index(fs, &full, index_files) {
                    Some(p) => Resolution::File { path: p },
                    None => {
                        if dir_listing {
                            Resolution::Listing { path: full }
                        } else {
                            Resolution::NotFound
                        }
                    },
                }
            }
        },
    }
}

} // verus!
