//! First-match evaluation of redirect, rewrite and header rules.
//!
//! Rule lists keep configuration order and are evaluated left to right;
//! the first rule whose pattern matches the request path decides, and no
//! later rule is looked at.

use vstd::prelude::*;
use crate::config::{HeaderRule, RedirectRule, RewriteRule};
use crate::glob::{spec_glob_caps, spec_glob_match, spec_subst};

verus! {

/// The index of the first pattern that matches `path`.
pub open spec fn spec_first_match(pats: Seq<Seq<u8>>, path: Seq<u8>) -> Option<int>
    decreases pats.len(),
{
    if pats.len() == 0 {
        None
    } else if spec_glob_match(pats[0], path) {
        Some(0)
    } else {
        match spec_first_match(pats.drop_first(), path) {
            Some(i) => Some(i + 1),
            None => None,
        }
    }
}

/// The first matching rule (in configuration order) decides, and no rule
/// after it is considered: the chosen index matches, every earlier one
/// does not, and `None` means none matches at all.
pub proof fn lemma_first_match_wins(pats: Seq<Seq<u8>>, path: Seq<u8>)
    ensures
        match spec_first_match(pats, path) {
            Some(i) => 0 <= i < pats.len() && spec_glob_match(pats[i], path) && (forall|j: int|
                0 <= j < i ==> !spec_glob_match(pats[j], path)),
            None => forall|j: int| 0 <= j < pats.len() ==> !spec_glob_match(pats[j], path),
        },
    decreases pats.len(),
{
    if pats.len() > 0 && !spec_glob_match(pats[0], path) {
        lemma_first_match_wins(pats.drop_first(), path);
        assert(forall|j: int|
            1 <= j < pats.len() ==> pats.drop_first()[j - 1] == #[trigger] pats[j]);
    }
}

/// The patterns of a redirect rule list.
pub open spec fn spec_redirect_pats(rules: Seq<RedirectRule>) -> Seq<Seq<u8>> {
    Seq::new(rules.len(), |i: int| rules[i].pattern@)
}

/// What the redirect rules answer for `path`: status and `Location` value
/// of the first matching rule, its captures substituted into the
/// destination.
pub open spec fn spec_apply_redirects(rules: Seq<RedirectRule>, path: Seq<u8>) -> Option<
    (u16, Seq<u8>),
> {
    match spec_first_match(spec_redirect_pats(rules), path) {
        Some(i) => Some(
            (
                rules[i].status,
                spec_subst(
                    rules[i].destination@,
                    spec_glob_caps(rules[i].pattern@, path).unwrap(),
                ),
            ),
        ),
        None => None,
    }
}

/// Evaluates the redirect rules against `path`.
pub fn apply_redirects(rules: &Vec<RedirectRule>, path: &Vec<u8>) -> (r: Option<(u16, Vec<u8>)>)
    ensures
        match r {
            Some(p) => spec_apply_redirects(rules@, path@) == Some((p.0, p.1@)),
            None => spec_apply_redirects(rules@, path@) is None,
        },
{
    let ghost pats = spec_redirect_pats(rules@);
    assert(pats.skip(0) =~= pats);
    let mut i: usize = 0;
    while i < rules.len()
        invariant
            i <= rules.len(),
            pats == spec_redirect_pats(rules@),
            pats.len() == rules@.len(),
            spec_first_match(pats, path@) == match spec_first_match(pats.skip(i as int), path@) {
                Some(k) => Some(k + i),
                None => None::<int>,
            },
        decreases rules.len() - i,
    {
        proof {
            assert(pats.skip(i as int)[0] == pats[i as int]);
            assert(pats.skip(i as int).drop_first() =~= pats.skip(i + 1));
        }
        match crate::glob::glob_captures(&rules[i].pattern, path) {
            Some(caps) => {
                let loc = crate::glob::substitute(&rules[i].destination, &caps);
                assert(spec_first_match(pats, path@) == Some(i as int));
                return Some((rules[i].status, loc));
            },
            None => {},
        }
        i += 1;
    }
    None
}

/// The patterns of a rewrite rule list.
pub open spec fn spec_rewrite_pats(rules: Seq<RewriteRule>) -> Seq<Seq<u8>> {
    Seq::new(rules.len(), |i: int| rules[i].pattern@)
}

/// What the rewrite rules answer for `path`: the substituted destination
/// and the optional redirect status of the first matching rule.
pub open spec fn spec_apply_rewrites(rules: Seq<RewriteRule>, path: Seq<u8>) -> Option<
    (Seq<u8>, Option<u16>),
> {
    match spec_first_match(spec_rewrite_pats(rules), path) {
        Some(i) => Some(
            (
                spec_subst(
                    rules[i].destination@,
                    spec_glob_caps(rules[i].pattern@, path).unwrap(),
                ),
                rules[i].redirect_status,
            ),
        ),
        None => None,
    }
}

/// Evaluates the rewrite rules against `path`.
pub fn apply_rewrites(rules: &Vec<RewriteRule>, path: &Vec<u8>) -> (r: Option<
    (Vec<u8>, Option<u16>),
>)
    ensures
        match r {
            Some(p) => spec_apply_rewrites(rules@, path@) == Some((p.0@, p.1)),
            None => spec_apply_rewrites(rules@, path@) is None,
        },
{
    let ghost pats = spec_rewrite_pats(rules@);
    assert(pats.skip(0) =~= pats);
    let mut i: usize = 0;
    while i < rules.len()
        invariant
            i <= rules.len(),
            pats == spec_rewrite_pats(rules@),
            pats.len() == rules@.len(),
            spec_first_match(pats, path@) == match spec_first_match(pats.skip(i as int), path@) {
                Some(k) => Some(k + i),
                None => None::<int>,
            },
        decreases rules.len() - i,
    {
        proof {
            assert(pats.skip(i as int)[0] == pats[i as int]);
            assert(pats.skip(i as int).drop_first() =~= pats.skip(i + 1));
        }
        match crate::glob::glob_captures(&rules[i].pattern, path) {
            Some(caps) => {
                let dest = crate::glob::substitute(&rules[i].destination, &caps);
                assert(spec_first_match(pats, path@) == Some(i as int));
                return Some((dest, rules[i].redirect_status));
            },
            None => {},
        }
        i += 1;
    }
    None
}

/// The patterns of a header rule list.
pub open spec fn spec_header_pats(rules: Seq<HeaderRule>) -> Seq<Seq<u8>> {
    Seq::new(rules.len(), |i: int| rules[i].pattern@)
}

/// The custom headers of the first header rule matching `path`.
pub open spec fn spec_matched_headers(rules: Seq<HeaderRule>, path: Seq<u8>) -> Seq<
    (Seq<u8>, Seq<u8>),
> {
    match spec_first_match(spec_header_pats(rules), path) {
        Some(i) => rules[i].headers.deep_view(),
        None => Seq::empty(),
    }
}

/// Copies a header list.
pub fn copy_headers(hs: &Vec<(Vec<u8>, Vec<u8>)>) -> (r: Vec<(Vec<u8>, Vec<u8>)>)
    ensures
        r.deep_view() == hs.deep_view(),
{
    let mut r: Vec<(Vec<u8>, Vec<u8>)> = Vec::new();
    let mut i: usize = 0;
    while i < hs.len()
        invariant
            i <= hs.len(),
            r.deep_view() =~= hs.deep_view().subrange(0, i as int),
        decreases hs.len() - i,
    {
        let ghost pre = r.deep_view();
        let name = crate::bytes::copy_bytes(&hs[i].0);
        let value = crate::bytes::copy_bytes(&hs[i].1);
        r.push((name, value));
        assert(r.deep_view() =~~= pre + seq![hs.deep_view()[i as int]]);
        assert(r.deep_view() =~= hs.deep_view().subrange(0, i + 1));
        i += 1;
    }
    assert(r.deep_view() =~= hs.deep_view());
    r
}

/// The custom headers the first matching header rule adds for `path`.
pub fn matched_headers(rules: &Vec<HeaderRule>, path: &Vec<u8>) -> (r: Vec<(Vec<u8>, Vec<u8>)>)
    ensures
        r.deep_view() == spec_matched_headers(rules@, path@),
{
    let ghost pats = spec_header_pats(rules@);
    assert(pats.skip(0) =~= pats);
    let mut i: usize = 0;
    while i < rules.len()
        invariant
            i <= rules.len(),
            pats == spec_header_pats(rules@),
            pats.len() == rules@.len(),
            spec_first_match(pats, path@) == match spec_first_match(pats.skip(i as int), path@) {
                Some(k) => Some(k + i),
                None => None::<int>,
            },
        decreases rules.len() - i,
    {
        proof {
            assert(pats.skip(i as int)[0] == pats[i as int]);
            assert(pats.skip(i as int).drop_first() =~= pats.skip(i + 1));
        }
        match crate::glob::glob_captures(&rules[i].pattern, path) {
            Some(_caps) => {
                assert(spec_first_match(pats, path@) == Some(i as int));
                return copy_headers(&rules[i].headers);
            },
            None => {},
        }
        i += 1;
    }
    let r: Vec<(Vec<u8>, Vec<u8>)> = Vec::new();
    assert(r.deep_view() =~= Seq::<(Seq<u8>, Seq<u8>)>::empty());
    r
}

} // verus!
