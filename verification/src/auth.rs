//! The basic-auth gate: a request passes when its `Authorization` header
//! carries exactly the configured `user:password`, in the standard
//! `Basic` scheme with canonical (padded) Base64.

use vstd::prelude::*;
use vstd::string::StrSliceExecFns;
use vstd::string::StringSliceAdditionalSpecFns;
use crate::msg::spec_find_header;

verus! {

/// The Base64 alphabet character for a 6-bit value.
pub open spec fn spec_b64_char(v: u8) -> u8 {
    if v < 26 {
        (65 + v) as u8
    } else if v < 52 {
        (97 + (v - 26)) as u8
    } else if v < 62 {
        (48 + (v - 52)) as u8
    } else if v == 62 {
        43
    } else {
        47
    }
}

/// Canonical Base64 of `s`: 3-byte groups become 4 characters, a short
/// final group is padded with `=`.
pub open spec fn spec_b64(s: Seq<u8>) -> Seq<u8>
    decreases s.len(),
{
    if s.len() == 0 {
        Seq::empty()
    } else if s.len() == 1 {
        seq![
            spec_b64_char(s[0] >> 2),
            spec_b64_char((s[0] & 3) << 4),
            61u8,
            61u8,
        ]
    } else if s.len() == 2 {
        seq![
            spec_b64_char(s[0] >> 2),
            spec_b64_char(((s[0] & 3) << 4) | (s[1] >> 4)),
            spec_b64_char((s[1] & 15) << 2),
            61u8,
        ]
    } else {
        seq![
            spec_b64_char(s[0] >> 2),
            spec_b64_char(((s[0] & 3) << 4) | (s[1] >> 4)),
            spec_b64_char(((s[1] & 15) << 2) | (s[2] >> 6)),
            spec_b64_char(s[2] & 63),
        ] + spec_b64(s.skip(3))
    }
}

fn b64_char(v: u8) -> (r: u8)
    requires
        v < 64,
    ensures
        r == spec_b64_char(v),
{
    if v < 26 {
        65 + v
    } else if v < 52 {
        97 + (v - 26)
    } else if v < 62 {
        48 + (v - 52)
    } else if v == 62 {
        43
    } else {
        47
    }
}

/// Base64-encodes `s`.
pub fn b64_encode(s: &Vec<u8>) -> (r: Vec<u8>)
    ensures
        r@ == spec_b64(s@),
{
    let mut out: Vec<u8> = Vec::new();
    proof {
        assert(s@.skip(0) =~= s@);
        assert(Seq::<u8>::empty() + spec_b64(s@) =~= spec_b64(s@));
    }
    let mut i: usize = 0;
    while i < s.len()
        invariant
            i <= s.len(),
            spec_b64(s@) == out@ + spec_b64(s@.skip(i as int)),
        decreases s.len() - i,
    {
        let ghost t = s@.skip(i as int);
        let b0 = s[i];
        assert(t[0] == s@[i as int]);
        assert(b0 >> 2 < 64 && (b0 & 3) << 4 < 64) by (bit_vector);
        if s.len() - i == 1 {
            assert(t.len() == 1);
            out.push(b64_char(b0 >> 2));
            out.push(b64_char((b0 & 3) << 4));
            out.push(61);
            out.push(61);
            assert(out@ =~= spec_b64(s@));
            i += 1;
        } else {
            let b1 = s[i + 1];
            assert(t[1] == s@[i + 1]);
            assert(((b0 & 3) << 4) | (b1 >> 4) < 64 && (b1 & 15) << 2 < 64) by (bit_vector);
            if s.len() - i == 2 {
                assert(t.len() == 2);
                out.push(b64_char(b0 >> 2));
                out.push(b64_char(((b0 & 3) << 4) | (b1 >> 4)));
                out.push(b64_char((b1 & 15) << 2));
                out.push(61);
                assert(out@ =~= spec_b64(s@));
                i += 2;
            } else {
                let b2 = s[i + 2];
                assert(t[2] == s@[i + 2]);
                assert((((b1 & 15) << 2) | (b2 >> 6)) < 64 && (b2 & 63) < 64) by (bit_vector);
                out.push(b64_char(b0 >> 2));
                out.push(b64_char(((b0 & 3) << 4) | (b1 >> 4)));
                out.push(b64_char(((b1 & 15) << 2) | (b2 >> 6)));
                out.push(b64_char(b2 & 63));
                proof {
                    assert(t.skip(3) =~= s@.skip(i + 3));
                    assert(out@ + spec_b64(s@.skip(i + 3)) =~= spec_b64(s@));
                }
                i += 3;
            }
        }
    }
    assert(out@ =~= spec_b64(s@));
    out
}

/// The exact `Authorization` value accepted for `cred`.
pub open spec fn spec_auth_value(cred: Seq<u8>) -> Seq<u8> {
    "Basic ".spec_bytes() + spec_b64(cred)
}

/// Authorization succeeds exactly when the request's `Authorization`
/// header (the first one, matched case-insensitively by name) equals the
/// canonical `Basic` value for the configured credentials.
pub open spec fn spec_auth_ok(headers: Seq<(Seq<u8>, Seq<u8>)>, cred: Seq<u8>) -> bool {
    spec_find_header(headers, "authorization".spec_bytes()) == Some(spec_auth_value(cred))
}

/// Checks the basic-auth gate for configured credentials `cred`.
pub fn auth_ok(headers: &Vec<(Vec<u8>, Vec<u8>)>, cred: &Vec<u8>) -> (r: bool)
    ensures
        r == spec_auth_ok(headers.deep_view(), cred@),
{
    let got = crate::msg::find_header(headers, &"authorization".as_bytes_vec());
    match got {
        None => false,
        Some(v) => {
            assert(v.deep_view() =~= v@);
            let mut expected = "Basic ".as_bytes_vec();
            let tail = b64_encode(cred);
            crate::bytes::push_bytes(&mut expected, &tail);
            crate::bytes::bytes_eq(&v, &expected)
        },
    }
}

} // verus!
