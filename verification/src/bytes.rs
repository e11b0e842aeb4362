//! Byte-sequence utilities shared by the pipeline stages.
//!
//! Request paths, header names and values, file names and bodies are all
//! treated as plain byte sequences; every executable helper here is pinned
//! to a spec-level mirror over `Seq<u8>`.

use vstd::prelude::*;

verus! {

/// ASCII upper-case letters map to lower case; every other byte is unchanged.
pub open spec fn spec_lower_byte(b: u8) -> u8 {
    if 65 <= b && b <= 90 {
        (b + 32) as u8
    } else {
        b
    }
}

/// Byte-wise ASCII lower-casing of a sequence.
pub open spec fn spec_lower(s: Seq<u8>) -> Seq<u8> {
    s.map_values(|b: u8| spec_lower_byte(b))
}

/// Lower-cases a byte vector (ASCII only), as used for host names and
/// header-name comparisons.
pub fn lower_bytes(v: &Vec<u8>) -> (r: Vec<u8>)
    ensures
        r@ == spec_lower(v@),
{
    let mut r: Vec<u8> = Vec::new();
    let mut i: usize = 0;
    while i < v.len()
        invariant
            i <= v.len(),
            r@.len() == i,
            forall|j: int| 0 <= j < i ==> r@[j] == spec_lower_byte(v@[j]),
        decreases v.len() - i,
    {
        let b = v[i];
        if 65 <= b && b <= 90 {
            r.push(b + 32);
        } else {
            r.push(b);
        }
        i += 1;
    }
    assert(r@ =~= spec_lower(v@));
    r
}

/// `p` is a prefix of `s`.
pub open spec fn spec_has_prefix(s: Seq<u8>, p: Seq<u8>) -> bool {
    p.len() <= s.len() && s.subrange(0, p.len() as int) == p
}

/// Tests whether `v` starts with `p`.
pub fn has_prefix(v: &Vec<u8>, p: &Vec<u8>) -> (r: bool)
    ensures
        r == spec_has_prefix(v@, p@),
{
    if p.len() > v.len() {
        return false;
    }
    let mut i: usize = 0;
    while i < p.len()
        invariant
            i <= p.len(),
            p.len() <= v.len(),
            forall|j: int| 0 <= j < i ==> v@[j] == p@[j],
        decreases p.len() - i,
    {
        if v[i] != p[i] {
            assert(v@.subrange(0, p@.len() as int)[i as int] != p@[i as int]);
            return false;
        }
        i += 1;
    }
    assert(v@.subrange(0, p@.len() as int) =~= p@);
    true
}

/// Splitting a byte sequence at every occurrence of `sep`, scanning from
/// position `i` with the bytes of the current field accumulated in `cur`.
pub open spec fn spec_split_from(s: Seq<u8>, sep: u8, i: int, cur: Seq<u8>) -> Seq<Seq<u8>>
    decreases s.len() - i,
{
    if i < 0 || i >= s.len() {
        seq![cur]
    } else if s[i] == sep {
        seq![cur] + spec_split_from(s, sep, i + 1, Seq::empty())
    } else {
        spec_split_from(s, sep, i + 1, cur.push(s[i]))
    }
}

/// The fields of `s` separated by `sep`; always at least one field.
pub open spec fn spec_split(s: Seq<u8>, sep: u8) -> Seq<Seq<u8>> {
    spec_split_from(s, sep, 0, Seq::empty())
}

/// Splits `v` at every occurrence of `sep`.
pub fn split_bytes(v: &Vec<u8>, sep: u8) -> (r: Vec<Vec<u8>>)
    ensures
        r.deep_view() == spec_split(v@, sep),
        r.len() >= 1,
{
    let mut r: Vec<Vec<u8>> = Vec::new();
    let mut cur: Vec<u8> = Vec::new();
    let mut i: usize = 0;
    while i < v.len()
        invariant
            i <= v.len(),
            spec_split(v@, sep) == r.deep_view() + spec_split_from(v@, sep, i as int, cur@),
        decreases v.len() - i,
    {
        let ghost pre = r.deep_view();
        let ghost field = cur@;
        if v[i] == sep {
            r.push(cur);
            cur = Vec::new();
            assert(r.deep_view() =~~= pre + seq![field]);
        } else {
            cur.push(v[i]);
        }
        i += 1;
    }
    let ghost pre = r.deep_view();
    r.push(cur);
    assert(r.deep_view() =~~= pre + seq![cur@]);
    assert(r.deep_view() == spec_split(v@, sep));
    r
}

/// Appends all bytes of `s` to `out`.
pub fn push_bytes(out: &mut Vec<u8>, s: &Vec<u8>)
    ensures
        final(out)@ == old(out)@ + s@,
{
    let mut i: usize = 0;
    while i < s.len()
        invariant
            i <= s.len(),
            out@ == old(out)@ + s@.subrange(0, i as int),
        decreases s.len() - i,
    {
        out.push(s[i]);
        assert(old(out)@ + s@.subrange(0, i as int) + seq![s@[i as int]] =~= old(out)@ + s@.subrange(
            0,
            i + 1,
        ));
        i += 1;
    }
    assert(out@ =~= old(out)@ + s@);
}

/// Compares two byte vectors.
pub fn bytes_eq(a: &Vec<u8>, b: &Vec<u8>) -> (r: bool)
    ensures
        r == (a@ == b@),
{
    let r = a == b;
    proof {
        if r {
            assert(a@ =~= b@);
        } else {
            assert(a@ !~= b@);
        }
    }
    r
}

/// Copies a byte vector.
pub fn copy_bytes(v: &Vec<u8>) -> (r: Vec<u8>)
    ensures
        r@ == v@,
{
    let mut r: Vec<u8> = Vec::new();
    push_bytes(&mut r, v);
    assert(r@ =~= v@);
    r
}

/// A byte counting as blank when fields of a header value are trimmed.
pub open spec fn spec_is_blank(b: u8) -> bool {
    b == 32 || b == 9
}

/// `s` with leading and trailing blanks removed: first drop the blank
/// prefix, then the blank prefix of the reversal seen from the end.
pub open spec fn spec_trim(s: Seq<u8>) -> Seq<u8>
    decreases s.len(),
{
    if s.len() > 0 && spec_is_blank(s[0]) {
        spec_trim(s.drop_first())
    } else if s.len() > 0 && spec_is_blank(s.last()) {
        spec_trim(s.drop_last())
    } else {
        s
    }
}

/// Removes leading and trailing blanks from `v`.
pub fn trim_bytes(v: &Vec<u8>) -> (r: Vec<u8>)
    ensures
        r@ == spec_trim(v@),
{
    assert(v@.subrange(0, v@.len() as int) =~= v@);
    let mut lo: usize = 0;
    while lo < v.len() && (v[lo] == 32 || v[lo] == 9)
        invariant
            lo <= v.len(),
            spec_trim(v@) == spec_trim(v@.subrange(lo as int, v@.len() as int)),
        decreases v.len() - lo,
    {
        assert(v@.subrange(lo as int, v@.len() as int).drop_first() =~= v@.subrange(
            lo + 1,
            v@.len() as int,
        ));
        lo += 1;
    }
    let mut hi: usize = v.len();
    while hi > lo && (v[hi - 1] == 32 || v[hi - 1] == 9)
        invariant
            lo <= hi <= v.len(),
            lo < v@.len() ==> !spec_is_blank(v@[lo as int]),
            spec_trim(v@) == spec_trim(v@.subrange(lo as int, hi as int)),
        decreases hi,
    {
        assert(v@.subrange(lo as int, hi as int).drop_last() =~= v@.subrange(
            lo as int,
            hi - 1,
        ));
        hi -= 1;
    }
    let mut r: Vec<u8> = Vec::new();
    let mut i: usize = lo;
    while i < hi
        invariant
            lo <= i <= hi <= v.len(),
            r@ =~= v@.subrange(lo as int, i as int),
        decreases hi - i,
    {
        r.push(v[i]);
        assert(r@ =~= v@.subrange(lo as int, i + 1));
        i += 1;
    }
    proof {
        let mid = v@.subrange(lo as int, hi as int);
        assert(spec_trim(mid) == mid);
        assert(r@ =~= mid);
    }
    r
}

/// The decimal digits of `n`, most significant first; empty for zero.
pub open spec fn spec_dec_digits(n: nat) -> Seq<u8>
    decreases n,
{
    if n == 0 {
        Seq::empty()
    } else {
        spec_dec_digits(n / 10) + seq![(n % 10 + 48) as u8]
    }
}

/// The usual decimal rendering of `n`: `"0"` for zero, no leading zeros
/// otherwise.
pub open spec fn spec_dec(n: nat) -> Seq<u8> {
    if n == 0 {
        seq![48u8]
    } else {
        spec_dec_digits(n)
    }
}

fn push_dec_digits(out: &mut Vec<u8>, n: u64)
    ensures
        final(out)@ == old(out)@ + spec_dec_digits(n as nat),
    decreases n,
{
    if n > 0 {
        let q = n / 10;
        assert(q < n) by (nonlinear_arith)
            requires n > 0 && q == n / 10;
        push_dec_digits(out, q);
        out.push((n % 10) as u8 + 48);
        assert(out@ =~= old(out)@ + spec_dec_digits(n as nat));
    } else {
        assert(out@ =~= old(out)@ + spec_dec_digits(0));
    }
}

/// Renders `n` in decimal ASCII.
pub fn u64_to_dec(n: u64) -> (r: Vec<u8>)
    ensures
        r@ == spec_dec(n as nat),
{
    if n == 0 {
        let mut r: Vec<u8> = Vec::new();
        r.push(48);
        assert(r@ =~= spec_dec(0));
        r
    } else {
        let mut r: Vec<u8> = Vec::new();
        push_dec_digits(&mut r, n);
        assert(r@ =~= spec_dec(n as nat));
        r
    }
}

/// All bytes of `s` are decimal digits.
pub open spec fn spec_all_digits(s: Seq<u8>) -> bool {
    forall|i: int| 0 <= i < s.len() ==> 48 <= #[trigger] s[i] <= 57
}

/// The numeric value of a digit string, most significant digit first.
pub open spec fn spec_dec_val(s: Seq<u8>) -> nat
    decreases s.len(),
{
    if s.len() == 0 {
        0
    } else {
        spec_dec_val(s.drop_last()) * 10 + (s.last() - 48) as nat
    }
}

/// A digit string read as a `u64`: `None` when empty, when a byte is not a
/// digit, or when the value does not fit.
pub open spec fn spec_parse_u64(s: Seq<u8>) -> Option<u64> {
    if s.len() == 0 || !spec_all_digits(s) || spec_dec_val(s) > u64::MAX {
        None
    } else {
        Some(spec_dec_val(s) as u64)
    }
}

proof fn lemma_dec_val_prefix_le(s: Seq<u8>, j: int)
    requires
        spec_all_digits(s),
        0 <= j <= s.len(),
    ensures
        spec_dec_val(s.subrange(0, j)) <= spec_dec_val(s),
    decreases s.len() - j,
{
    if j < s.len() {
        lemma_dec_val_prefix_le(s, j + 1);
        let a = s.subrange(0, j);
        let b = s.subrange(0, j + 1);
        assert(b.drop_last() =~= a);
        assert(spec_dec_val(b) == spec_dec_val(a) * 10 + (b.last() - 48) as nat);
        assert(spec_dec_val(a) <= spec_dec_val(a) * 10) by (nonlinear_arith);
    } else {
        assert(s.subrange(0, j) =~= s);
    }
}

/// Parses `v` as a decimal `u64`.
pub fn parse_u64(v: &Vec<u8>) -> (r: Option<u64>)
    ensures
        r == spec_parse_u64(v@),
{
    if v.len() == 0 {
        return None;
    }
    let mut acc: u64 = 0;
    let mut i: usize = 0;
    while i < v.len()
        invariant
            i <= v.len(),
            spec_all_digits(v@.subrange(0, i as int)),
            acc == spec_dec_val(v@.subrange(0, i as int)),
        decreases v.len() - i,
    {
        let b = v[i];
        if b < 48 || b > 57 {
            assert(!spec_all_digits(v@));
            return None;
        }
        let d = (b - 48) as u64;
        if acc > (u64::MAX - d) / 10 {
            proof {
                let p = v@.subrange(0, i + 1);
                assert(p.drop_last() =~= v@.subrange(0, i as int));
                assert(spec_dec_val(p) == acc * 10 + d);
                assert(acc * 10 + d > u64::MAX) by (nonlinear_arith)
                    requires acc > (u64::MAX - d) / 10 && d <= 9;
                if spec_all_digits(v@) {
                    lemma_dec_val_prefix_le(v@, i + 1);
                    assert(spec_dec_val(v@) > u64::MAX);
                }
            }
            return None;
        }
        proof {
            assert(acc * 10 + d <= u64::MAX) by (nonlinear_arith)
                requires acc <= (u64::MAX - d) / 10 && d <= 9;
            let p = v@.subrange(0, i + 1);
            assert(p.drop_last() =~= v@.subrange(0, i as int));
        }
        acc = acc * 10 + d;
        i += 1;
    }
    assert(v@.subrange(0, v@.len() as int) =~= v@);
    Some(acc)
}

} // verus!
