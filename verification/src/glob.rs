//! Glob-style pattern matching for rewrite, redirect and header rules.
//!
//! A pattern matches a whole request path.  `*` matches any (possibly
//! empty) run of bytes; every other byte matches itself.  Each `*`
//! captures the run it matched, and a rule destination may reuse the
//! captures as `$1`..`$9`.  A `*` prefers the shortest run: captures are
//! those of the leftmost such derivation.

use vstd::prelude::*;

verus! {

/// The wildcard byte `*`.
pub open spec fn star() -> u8 {
    42
}

/// The captures of the leftmost derivation of `s` from `pat`, one capture
/// per `*` in pattern order; `None` when `pat` does not match `s`.
pub open spec fn spec_glob_caps(pat: Seq<u8>, s: Seq<u8>) -> Option<Seq<Seq<u8>>>
    decreases pat.len() + s.len(),
{
    if pat.len() == 0 {
        if s.len() == 0 {
            Some(Seq::empty())
        } else {
            None
        }
    } else if pat[0] == star() {
        match spec_glob_caps(pat.drop_first(), s) {
            Some(c) => Some(seq![Seq::<u8>::empty()] + c),
            None => {
                if s.len() > 0 {
                    match spec_glob_caps(pat, s.drop_first()) {
                        Some(c) => Some(c.update(0, seq![s[0]] + c[0])),
                        None => None,
                    }
                } else {
                    None
                }
            },
        }
    } else {
        if s.len() > 0 && pat[0] == s[0] {
            spec_glob_caps(pat.drop_first(), s.drop_first())
        } else {
            None
        }
    }
}

/// `pat` matches `s`.
pub open spec fn spec_glob_match(pat: Seq<u8>, s: Seq<u8>) -> bool {
    spec_glob_caps(pat, s) is Some
}

/// The number of `*` wildcards in `pat`.
pub open spec fn spec_star_count(pat: Seq<u8>) -> nat
    decreases pat.len(),
{
    if pat.len() == 0 {
        0
    } else if pat[0] == star() {
        1 + spec_star_count(pat.drop_first())
    } else {
        spec_star_count(pat.drop_first())
    }
}

/// A successful match yields one capture per wildcard.
pub proof fn lemma_caps_count(pat: Seq<u8>, s: Seq<u8>)
    requires
        spec_glob_caps(pat, s) is Some,
    ensures
        spec_glob_caps(pat, s).unwrap().len() == spec_star_count(pat),
    decreases pat.len() + s.len(),
{
    if pat.len() == 0 {
    } else if pat[0] == star() {
        if spec_glob_caps(pat.drop_first(), s) is Some {
            lemma_caps_count(pat.drop_first(), s);
        } else {
            lemma_caps_count(pat, s.drop_first());
        }
    } else {
        lemma_caps_count(pat.drop_first(), s.drop_first());
    }
}

fn glob_caps_at(pat: &Vec<u8>, s: &Vec<u8>, pi: usize, si: usize) -> (r: Option<Vec<Vec<u8>>>)
    requires
        pi <= pat.len(),
        si <= s.len(),
    ensures
        match r {
            Some(c) => spec_glob_caps(pat@.skip(pi as int), s@.skip(si as int)) == Some(
                c.deep_view(),
            ),
            None => spec_glob_caps(pat@.skip(pi as int), s@.skip(si as int)) is None,
        },
    decreases pat.len() - pi + s.len() - si,
{
    let ghost p = pat@.skip(pi as int);
    let ghost t = s@.skip(si as int);
    if pi == pat.len() {
        assert(p.len() == 0);
        if si == s.len() {
            assert(t.len() == 0);
            let c: Vec<Vec<u8>> = Vec::new();
            assert(c.deep_view() =~= Seq::<Seq<u8>>::empty());
            Some(c)
        } else {
            None
        }
    } else if pat[pi] == 42 {
        assert(p[0] == star());
        assert(p.drop_first() =~= pat@.skip(pi + 1));
        match glob_caps_at(pat, s, pi + 1, si) {
            Some(mut c) => {
                let ghost pre = c.deep_view();
                c.insert(0, Vec::new());
                assert(c.deep_view() =~~= seq![Seq::<u8>::empty()] + pre);
                Some(c)
            },
            None => {
                if si < s.len() {
                    assert(t.drop_first() =~= s@.skip(si + 1));
                    match glob_caps_at(pat, s, pi, si + 1) {
                        Some(mut c) => {
                            proof {
                                lemma_caps_count(p, t.drop_first());
                                assert(spec_star_count(p) >= 1);
                            }
                            let ghost pre = c.deep_view();
                            let mut grown: Vec<u8> = Vec::new();
                            grown.push(s[si]);
                            crate::bytes::push_bytes(&mut grown, &c[0]);
                            assert(grown@ =~= seq![t[0]] + pre[0]);
                            c.set(0, grown);
                            assert(c.deep_view() =~~= pre.update(0, seq![t[0]] + pre[0]));
                            Some(c)
                        },
                        None => None,
                    }
                } else {
                    assert(t.len() == 0);
                    None
                }
            },
        }
    } else {
        assert(p[0] != star());
        if si < s.len() && pat[pi] == s[si] {
            assert(p.drop_first() =~= pat@.skip(pi + 1));
            assert(t.drop_first() =~= s@.skip(si + 1));
            glob_caps_at(pat, s, pi + 1, si + 1)
        } else {
            None
        }
    }
}

/// Matches `s` against `pat`, returning the wildcard captures.
pub fn glob_captures(pat: &Vec<u8>, s: &Vec<u8>) -> (r: Option<Vec<Vec<u8>>>)
    ensures
        match r {
            Some(c) => spec_glob_caps(pat@, s@) == Some(c.deep_view()),
            None => !spec_glob_match(pat@, s@),
        },
{
    proof {
        assert(pat@.skip(0) =~= pat@);
        assert(s@.skip(0) =~= s@);
    }
    glob_caps_at(pat, s, 0, 0)
}

/// The destination `dest` with every `$n` (for a wildcard that exists)
/// replaced by the `n`-th capture, read from position `i` on.
pub open spec fn spec_subst_from(dest: Seq<u8>, caps: Seq<Seq<u8>>, i: int) -> Seq<u8>
    decreases dest.len() - i,
{
    if i < 0 || i >= dest.len() {
        Seq::empty()
    } else if dest[i] == 36 && i + 1 < dest.len() && 49 <= dest[i + 1] <= 57 && dest[i + 1] - 49
        < caps.len() {
        caps[dest[i + 1] - 49] + spec_subst_from(dest, caps, i + 2)
    } else {
        seq![dest[i]] + spec_subst_from(dest, caps, i + 1)
    }
}

/// The destination with all capture references substituted.
pub open spec fn spec_subst(dest: Seq<u8>, caps: Seq<Seq<u8>>) -> Seq<u8> {
    spec_subst_from(dest, caps, 0)
}

/// Substitutes `$1`..`$9` capture references in `dest`.
pub fn substitute(dest: &Vec<u8>, caps: &Vec<Vec<u8>>) -> (r: Vec<u8>)
    ensures
        r@ == spec_subst(dest@, caps.deep_view()),
{
    let mut out: Vec<u8> = Vec::new();
    let mut i: usize = 0;
    while i < dest.len()
        invariant
            i <= dest.len(),
            spec_subst(dest@, caps.deep_view()) == out@ + spec_subst_from(
                dest@,
                caps.deep_view(),
                i as int,
            ),
        decreases dest.len() - i,
    {
        let ghost cv = caps.deep_view();
        if dest[i] == 36 && i + 1 < dest.len() && 49 <= dest[i + 1] && dest[i + 1] <= 57 && (
        (dest[i + 1] - 49) as usize) < caps.len() {
            let k = (dest[i + 1] - 49) as usize;
            assert(caps.deep_view()[k as int] =~= caps@[k as int]@);
            crate::bytes::push_bytes(&mut out, &caps[k]);
            assert(out@ + spec_subst_from(dest@, cv, i + 2) =~= spec_subst(dest@, cv));
            i += 2;
        } else {
            out.push(dest[i]);
            assert(out@ + spec_subst_from(dest@, cv, i + 1) =~= spec_subst(dest@, cv));
            i += 1;
        }
    }
    assert(out@ =~= spec_subst(dest@, caps.deep_view()));
    out
}

} // verus!
