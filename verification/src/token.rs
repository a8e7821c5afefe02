//! Issuing and verifying signed bearer tokens.
//!
//! A token is three dot-separated base64url segments over a fixed HS256
//! header, a claims payload and an HMAC-SHA256 signature of the first two
//! segments. Verification proceeds in order: structure, then signature,
//! then payload, then expiry, so no field of an unverified payload is ever
//! trusted. [`check_token`] is the specification of the whole pipeline and
//! [`verify_token`] is proved to return exactly its verdict.

use vstd::prelude::*;
use vstd::utf8::decode_utf8;
use vstd::utf8::decode_utf8_encode_utf8;
use vstd::utf8::encode_utf8;
use vstd::utf8::valid_utf8;

use crate::base64url::b64_decode;
use crate::base64url::b64_encode;
use crate::base64url::decode_range;
use crate::base64url::encode_to;
use crate::base64url::is_b64_byte;
use crate::base64url::lemma_b64_encode_wf;
use crate::base64url::lemma_b64_round_trip;
use crate::claims::claims_in_range;
use crate::claims::claims_json;
use crate::claims::lemma_parse_claims_json;
use crate::claims::parse_claims;
use crate::claims::parse_claims_json;
use crate::claims::Claims;
use crate::claims::ClaimsView;
use crate::keys::Keys;
use crate::strutil::lemma_ascii_valid_utf8;
use crate::strutil::string_from_utf8;

verus! {

/// The base64url bytes of the HMAC-SHA256 signature of `msg` under
/// `secret`, as `jsonwebtoken` computes them. A function of its two
/// arguments alone; its value is never stated here.
pub uninterp spec fn hs256_sig_of(secret: Seq<u8>, msg: Seq<u8>) -> Seq<u8>;

/// Shape of a signature: 43 bytes of the base64url alphabet (an encoded
/// 32-byte digest, unpadded).
pub open spec fn sig_wf(sig: Seq<u8>) -> bool {
    sig.len() == 43 && (forall|i: int| 0 <= i < sig.len() ==> is_b64_byte(#[trigger] sig[i]))
}

/// Relies on `jsonwebtoken::crypto::sign` with HS256: the result is the
/// unpadded base64url encoding of the HMAC-SHA256 digest of the message
/// under the secret, a function of secret and message alone, 43 bytes of
/// the URL-safe alphabet; with an HMAC key and the HS256 algorithm the call
/// does not fail.
#[verifier::external_body]
fn sign_hs256(secret: &[u8], msg: &[u8]) -> (sig: Vec<u8>)
    ensures
        sig@ == hs256_sig_of(secret@, msg@),
        sig_wf(sig@),
{
    let key = jsonwebtoken::EncodingKey::from_secret(secret);
    match jsonwebtoken::crypto::sign(msg, &key, jsonwebtoken::Algorithm::HS256) {
        Ok(s) => s.into_bytes(),
        Err(_) => Vec::new(),
    }
}

/// Relies on `jsonwebtoken::crypto::verify` with HS256: it re-signs the
/// message and compares the given signature with the canonical one byte for
/// byte in constant time, so it returns true exactly on equality.
#[verifier::external_body]
fn verify_hs256(secret: &[u8], msg: &[u8], sig: &[u8]) -> (r: bool)
    ensures
        r == (sig@ == hs256_sig_of(secret@, msg@)),
{
    let key = jsonwebtoken::DecodingKey::from_secret(secret);
    match std::str::from_utf8(sig) {
        Ok(sig_str) => jsonwebtoken::crypto::verify(
            sig_str,
            msg,
            &key,
            jsonwebtoken::Algorithm::HS256,
        ).unwrap_or(false),
        Err(_) => false,
    }
}

/// Relies on `chrono::Utc::now`: the clock. Nothing is promised of a clock
/// reading.
#[verifier::external_body]
pub fn now_unix() -> i64 {
    chrono::Utc::now().timestamp()
}

/// `{"alg":"HS256","typ":"JWT"}`
pub open spec fn header_json() -> Seq<u8> {
    seq![
        0x7Bu8,
        0x22u8,
        0x61u8,
        0x6Cu8,
        0x67u8,
        0x22u8,
        0x3Au8,
        0x22u8,
        0x48u8,
        0x53u8,
        0x32u8,
        0x35u8,
        0x36u8,
        0x22u8,
        0x2Cu8,
        0x22u8,
        0x74u8,
        0x79u8,
        0x70u8,
        0x22u8,
        0x3Au8,
        0x22u8,
        0x4Au8,
        0x57u8,
        0x54u8,
        0x22u8,
        0x7Du8,
    ]
}

fn header_json_bytes() -> (out: Vec<u8>)
    ensures
        out@ == header_json(),
{
    let mut out: Vec<u8> = Vec::new();
    out.push(0x7B);
    out.push(0x22);
    out.push(0x61);
    out.push(0x6C);
    out.push(0x67);
    out.push(0x22);
    out.push(0x3A);
    out.push(0x22);
    out.push(0x48);
    out.push(0x53);
    out.push(0x32);
    out.push(0x35);
    out.push(0x36);
    out.push(0x22);
    out.push(0x2C);
    out.push(0x22);
    out.push(0x74);
    out.push(0x79);
    out.push(0x70);
    out.push(0x22);
    out.push(0x3A);
    out.push(0x22);
    out.push(0x4A);
    out.push(0x57);
    out.push(0x54);
    out.push(0x22);
    out.push(0x7D);
    proof {
        assert(out@ =~= header_json());
    }
    out
}

/// What the signature signs: encoded header, dot, encoded payload.
pub open spec fn signing_input(c: ClaimsView) -> Seq<u8> {
    b64_encode(header_json()) + seq![0x2Eu8] + b64_encode(claims_json(c))
}

/// The complete token for claims `c` under `secret`.
pub open spec fn token_of(secret: Seq<u8>, c: ClaimsView) -> Seq<u8> {
    signing_input(c) + seq![0x2Eu8] + hs256_sig_of(secret, signing_input(c))
}

/// Why a token was rejected. Callers that face clients collapse all three
/// into one answer; see [`crate::auth`].
#[derive(Debug, PartialEq, Eq, Structural, Clone, Copy)]
pub enum TokenError {
    /// Not three dot-separated segments over the fixed header, or a payload
    /// that does not read back as a claims object.
    Malformed,
    /// The signature segment is not the signature of the first two.
    InvalidSignature,
    /// Signed, well-formed, but `exp <= now`.
    Expired,
}

/// Index of the first dot at or after `from`; the length where none is.
pub open spec fn find_dot(s: Seq<u8>, from: int) -> int
    decreases s.len() - from,
    when 0 <= from <= s.len()
{
    if from >= s.len() {
        s.len() as int
    } else if s[from] == 0x2E {
        from
    } else {
        find_dot(s, from + 1)
    }
}

pub proof fn lemma_find_dot(s: Seq<u8>, from: int)
    requires
        0 <= from <= s.len(),
    ensures
        from <= find_dot(s, from) <= s.len(),
        forall|k: int| from <= k < find_dot(s, from) ==> s[k] != 0x2E,
        find_dot(s, from) < s.len() ==> s[find_dot(s, from)] == 0x2E,
    decreases s.len() - from,
{
    if from < s.len() && s[from] != 0x2E {
        lemma_find_dot(s, from + 1);
    }
}

/// The first dot is wherever a dot stands with none before it.
pub proof fn lemma_find_dot_at(s: Seq<u8>, from: int, p: int)
    requires
        0 <= from <= p <= s.len(),
        forall|k: int| from <= k < p ==> s[k] != 0x2E,
        p < s.len() ==> s[p] == 0x2E,
    ensures
        find_dot(s, from) == p,
{
    lemma_find_dot(s, from);
    let f = find_dot(s, from);
    if f < p {
        assert(s[f] == 0x2E);
        assert(false);
    }
    if f > p {
        assert(p < s.len());
        assert(s[p] != 0x2E);
        assert(false);
    }
}

/// The three segments of a token, split at its two dots; `None` unless
/// there are exactly two.
pub open spec fn token_parts(t: Seq<u8>) -> Option<(Seq<u8>, Seq<u8>, Seq<u8>)> {
    let i = find_dot(t, 0);
    if i == t.len() {
        None
    } else {
        let j = find_dot(t, i + 1);
        if j == t.len() {
            None
        } else if find_dot(t, j + 1) != t.len() {
            None
        } else {
            Some((t.subrange(0, i), t.subrange(i + 1, j), t.skip(j + 1)))
        }
    }
}

/// The verification pipeline over token bytes, in the order the
/// implementation follows: structure, signature, payload, expiry.
pub open spec fn check_token(secret: Seq<u8>, t: Seq<u8>, now: int) -> Result<
    ClaimsView,
    TokenError,
> {
    match token_parts(t) {
        None => Err(TokenError::Malformed),
        Some(parts) => {
            if parts.0 != b64_encode(header_json()) {
                Err(TokenError::Malformed)
            } else if parts.2 != hs256_sig_of(secret, parts.0 + seq![0x2Eu8] + parts.1) {
                Err(TokenError::InvalidSignature)
            } else {
                match b64_decode(parts.1) {
                    None => Err(TokenError::Malformed),
                    Some(pj) => match parse_claims(pj) {
                        None => Err(TokenError::Malformed),
                        Some(c) => if c.exp <= now {
                            Err(TokenError::Expired)
                        } else {
                            Ok(c)
                        },
                    },
                }
            }
        },
    }
}

/// Builds and signs the token that carries `claims`.
pub fn issue_at(keys: &Keys, claims: &Claims) -> (t: String)
    ensures
        encode_utf8(t@) == token_of(keys.secret_view(), claims@),
        sig_wf(hs256_sig_of(keys.secret_view(), signing_input(claims@))),
{
    let header = header_json_bytes();
    let payload = crate::claims::write_claims_json(claims);
    let mut buf: Vec<u8> = Vec::new();
    encode_to(header.as_slice(), &mut buf);
    buf.push(0x2E);
    encode_to(payload.as_slice(), &mut buf);
    proof {
        assert(buf@ =~= signing_input(claims@));
    }
    let sig = sign_hs256(keys.secret_bytes(), buf.as_slice());
    let ghost si = buf@;
    buf.push(0x2E);
    let mut sig2 = sig;
    buf.append(&mut sig2);
    proof {
        assert(buf@ =~= token_of(keys.secret_view(), claims@));
        lemma_b64_encode_wf(header_json());
        lemma_b64_encode_wf(claims_json(claims@));
        assert forall|i: int| 0 <= i < buf@.len() implies #[trigger] buf@[i] < 0x80 by {
            let si_len = signing_input(claims@).len();
            if i < si_len {
                let h = b64_encode(header_json());
                let p = b64_encode(claims_json(claims@));
                if i < h.len() {
                    assert(buf@[i] == h[i]);
                } else if i == h.len() {
                    assert(buf@[i] == 0x2E);
                } else {
                    assert(buf@[i] == p[i - h.len() - 1]);
                }
            } else if i == si_len {
                assert(buf@[i] == 0x2E);
            } else {
                assert(buf@[i] == hs256_sig_of(keys.secret_view(), signing_input(claims@))[i
                    - si_len - 1]);
            }
        }
        lemma_ascii_valid_utf8(buf@);
    }
    let ghost token_bytes = buf@;
    let out = string_from_utf8(buf);
    match out {
        Some(t) => {
            proof {
                decode_utf8_encode_utf8(token_bytes);
            }
            t
        },
        None => {
            proof {
                assert(false);
            }
            String::new()
        },
    }
}

/// Issues a token for `id` and `name` that expires `ttl_seconds` past the
/// instant `now`: a token exactly when the sum stays in `i64`, and then
/// exactly the token for these claims at that expiry.
pub fn issue_from(keys: &Keys, id: i32, name: String, ttl_seconds: i64, now: i64) -> (r: Option<
    String,
>)
    ensures
        r is Some <==> crate::claims::i64_in_range(now + ttl_seconds),
        r is Some ==> encode_utf8(r->0@) == token_of(
            keys.secret_view(),
            (ClaimsView { id: id as int, name: name@, exp: now + ttl_seconds }),
        ),
{
    let exp = match now.checked_add(ttl_seconds) {
        Some(e) => e,
        None => {
            return None;
        },
    };
    let claims = Claims { id, name, exp };
    let t = issue_at(keys, &claims);
    proof {
        assert(encode_utf8(t@) == token_of(
            keys.secret_view(),
            (ClaimsView { id: id as int, name: claims.name@, exp: exp as int }),
        ));
    }
    Some(t)
}

/// Issues a token for `id` and `name` that lapses `ttl_seconds` from the
/// clock's present reading; `None` only where that sum leaves `i64`, so a
/// zero ttl always succeeds. The clock decides the expiry, so the contract
/// binds the token to these claims at some expiry rather than a named one.
pub fn issue(keys: &Keys, id: i32, name: String, ttl_seconds: i64) -> (r: Option<String>)
    ensures
        ttl_seconds == 0 ==> r is Some,
        r is Some ==> (exists|exp: int|
            encode_utf8(r->0@) == #[trigger] token_of(
                keys.secret_view(),
                (ClaimsView { id: id as int, name: name@, exp }),
            )),
{
    let now = now_unix();
    issue_from(keys, id, name, ttl_seconds, now)
}

/// Verifies a token against the key material and the given clock reading;
/// returns exactly the verdict of [`check_token`] on the token's bytes.
pub fn verify_token(keys: &Keys, token: &str, now: i64) -> (r: Result<Claims, TokenError>)
    ensures
        r is Ok ==> check_token(keys.secret_view(), encode_utf8(token@), now as int) == Ok::<
            ClaimsView,
            TokenError,
        >(r->Ok_0@),
        r is Err ==> check_token(keys.secret_view(), encode_utf8(token@), now as int) == Err::<
            ClaimsView,
            TokenError,
        >(r->Err_0),
{
    let bytes = token.as_bytes();
    let ghost t = encode_utf8(token@);
    proof {
        assert(bytes@ == t);
    }
    let n = bytes.len();
    // first dot
    let mut i: usize = 0;
    while i < n && bytes[i] != 0x2E
        invariant
            0 <= i <= n == bytes@.len(),
            forall|k: int| 0 <= k < i ==> bytes@[k] != 0x2E,
        decreases n - i,
    {
        i = i + 1;
    }
    proof {
        lemma_find_dot_at(t, 0, i as int);
    }
    if i == n {
        return Err(TokenError::Malformed);
    }
    // second dot
    let mut j: usize = i + 1;
    while j < n && bytes[j] != 0x2E
        invariant
            i + 1 <= j <= n == bytes@.len(),
            forall|k: int| i + 1 <= k < j ==> bytes@[k] != 0x2E,
        decreases n - j,
    {
        j = j + 1;
    }
    proof {
        lemma_find_dot_at(t, i as int + 1, j as int);
    }
    if j == n {
        return Err(TokenError::Malformed);
    }
    // no third dot
    let mut m: usize = j + 1;
    while m < n && bytes[m] != 0x2E
        invariant
            j + 1 <= m <= n == bytes@.len(),
            forall|k: int| j + 1 <= k < m ==> bytes@[k] != 0x2E,
        decreases n - m,
    {
        m = m + 1;
    }
    proof {
        lemma_find_dot_at(t, j as int + 1, m as int);
    }
    if m != n {
        return Err(TokenError::Malformed);
    }
    let ghost parts = token_parts(t)->0;
    proof {
        assert(token_parts(t) == Some(
            (t.subrange(0, i as int), t.subrange(i as int + 1, j as int), t.skip(j as int + 1)),
        ));
    }
    // header segment must be the encoded fixed header
    let header = header_json_bytes();
    let mut hb: Vec<u8> = Vec::new();
    encode_to(header.as_slice(), &mut hb);
    proof {
        assert(hb@ =~= Seq::<u8>::empty() + b64_encode(header_json()));
        assert(hb@ == b64_encode(header_json()));
    }
    if hb.len() != i {
        proof {
            assert(parts.0.len() == i);
        }
        return Err(TokenError::Malformed);
    }
    let mut k: usize = 0;
    while k < i
        invariant
            0 <= k <= i <= n == bytes@.len(),
            t == bytes@,
            t == encode_utf8(token@),
            i < j < n,
            i == hb@.len(),
            hb@ == b64_encode(header_json()),
            token_parts(t) == Some(
                (
                    t.subrange(0, i as int),
                    t.subrange(i as int + 1, j as int),
                    t.skip(j as int + 1),
                ),
            ),
            parts == token_parts(t)->0,
            forall|q: int| 0 <= q < k ==> bytes@[q] == hb@[q],
        decreases i - k,
    {
        if bytes[k] != hb[k] {
            proof {
                assert(parts.0[k as int] == bytes@[k as int]);
                assert(parts.0 != b64_encode(header_json()));
            }
            return Err(TokenError::Malformed);
        }
        k = k + 1;
    }
    proof {
        assert(parts.0 =~= hb@);
    }
    // signature over the first two segments
    let msg = vstd::slice::slice_subrange(bytes, 0, j);
    let sig = vstd::slice::slice_subrange(bytes, j + 1, n);
    proof {
        assert(msg@ =~= parts.0 + seq![0x2Eu8] + parts.1);
        assert(sig@ =~= parts.2);
    }
    if !verify_hs256(keys.secret_bytes(), msg, sig) {
        return Err(TokenError::InvalidSignature);
    }
    // payload
    let payload = match decode_range(bytes, i + 1, j) {
        Some(p) => p,
        None => {
            proof {
                assert(parts.1 =~= bytes@.subrange(i as int + 1, j as int));
            }
            return Err(TokenError::Malformed);
        },
    };
    proof {
        assert(parts.1 =~= bytes@.subrange(i as int + 1, j as int));
    }
    let claims = match parse_claims_json(payload.as_slice()) {
        Some(c) => c,
        None => {
            return Err(TokenError::Malformed);
        },
    };
    // expiry, strictly after the signature held
    if claims.exp <= now {
        return Err(TokenError::Expired);
    }
    Ok(claims)
}

/// Verifying what was issued: on the very bytes of an issued token,
/// verification succeeds with the original claims while the token is not
/// yet expired, and reports expiry once it is. The signature shape
/// assumption is what [`issue_at`] guarantees about the signature it wrote.
pub proof fn lemma_token_round_trip(secret: Seq<u8>, c: ClaimsView, now: int)
    requires
        claims_in_range(c),
        sig_wf(hs256_sig_of(secret, signing_input(c))),
    ensures
        now < c.exp ==> check_token(secret, token_of(secret, c), now) == Ok::<ClaimsView, TokenError>(c),
        c.exp <= now ==> check_token(secret, token_of(secret, c), now) == Err::<
            ClaimsView,
            TokenError,
        >(TokenError::Expired),
{
    let h = b64_encode(header_json());
    let p = b64_encode(claims_json(c));
    let sig = hs256_sig_of(secret, signing_input(c));
    let t = token_of(secret, c);
    lemma_b64_encode_wf(header_json());
    lemma_b64_encode_wf(claims_json(c));
    assert(t =~= h + seq![0x2Eu8] + p + seq![0x2Eu8] + sig);
    let i = h.len() as int;
    let j = i + 1 + p.len() as int;
    assert forall|k: int| 0 <= k < i implies t[k] != 0x2E by {
        assert(t[k] == h[k]);
    }
    assert(t[i] == 0x2E);
    lemma_find_dot_at(t, 0, i);
    assert forall|k: int| i + 1 <= k < j implies t[k] != 0x2E by {
        assert(t[k] == p[k - i - 1]);
    }
    assert(t[j] == 0x2E);
    lemma_find_dot_at(t, i + 1, j);
    assert forall|k: int| j + 1 <= k < t.len() implies t[k] != 0x2E by {
        assert(t[k] == sig[k - j - 1]);
    }
    lemma_find_dot_at(t, j + 1, t.len() as int);
    let parts = token_parts(t)->0;
    assert(parts.0 =~= h);
    assert(parts.1 =~= p);
    assert(parts.2 =~= sig);
    assert(parts.0 + seq![0x2Eu8] + parts.1 =~= signing_input(c));
    lemma_b64_round_trip(claims_json(c));
    lemma_parse_claims_json(c);
}

/// Tamper detection: change any one byte of the signature segment of an
/// issued token and verification fails, whatever the clock says.
pub proof fn lemma_tampered_signature_rejected(
    secret: Seq<u8>,
    c: ClaimsView,
    now: int,
    t2: Seq<u8>,
    pos: int,
)
    requires
        sig_wf(hs256_sig_of(secret, signing_input(c))),
        t2.len() == token_of(secret, c).len(),
        signing_input(c).len() < pos < t2.len(),
        forall|m: int| 0 <= m < t2.len() && m != pos ==> t2[m] == token_of(secret, c)[m],
        t2[pos] != token_of(secret, c)[pos],
    ensures
        check_token(secret, t2, now) is Err,
{
    let h = b64_encode(header_json());
    let p = b64_encode(claims_json(c));
    let sig = hs256_sig_of(secret, signing_input(c));
    let t = token_of(secret, c);
    lemma_b64_encode_wf(header_json());
    lemma_b64_encode_wf(claims_json(c));
    assert(t =~= h + seq![0x2Eu8] + p + seq![0x2Eu8] + sig);
    let i = h.len() as int;
    let j = i + 1 + p.len() as int;
    assert(pos > j);
    assert forall|k: int| 0 <= k < i implies t2[k] != 0x2E by {
        assert(t2[k] == t[k] && t[k] == h[k]);
    }
    assert(t2[i] == t[i] && t[i] == 0x2E);
    lemma_find_dot_at(t2, 0, i);
    assert forall|k: int| i + 1 <= k < j implies t2[k] != 0x2E by {
        assert(t2[k] == t[k] && t[k] == p[k - i - 1]);
    }
    assert(t2[j] == t[j] && t[j] == 0x2E);
    lemma_find_dot_at(t2, i + 1, j);
    if t2[pos] == 0x2E {
        // the flip made a third dot: structure fails
        assert forall|k: int| j + 1 <= k < pos implies t2[k] != 0x2E by {
            assert(t2[k] == t[k] && t[k] == sig[k - j - 1]);
        }
        lemma_find_dot_at(t2, j + 1, pos);
        assert(token_parts(t2) is None);
    } else {
        assert forall|k: int| j + 1 <= k < t2.len() implies t2[k] != 0x2E by {
            if k != pos {
                assert(t2[k] == t[k] && t[k] == sig[k - j - 1]);
            }
        }
        lemma_find_dot_at(t2, j + 1, t2.len() as int);
        let parts = token_parts(t2)->0;
        assert(parts.0 =~= h);
        assert(parts.1 =~= p);
        assert(parts.0 + seq![0x2Eu8] + parts.1 =~= signing_input(c));
        assert(parts.2[pos - j - 1] == t2[pos]);
        assert(t[pos] == sig[pos - j - 1]);
        assert(parts.2 != sig);
        assert(check_token(secret, t2, now) == Err::<ClaimsView, TokenError>(
            TokenError::InvalidSignature,
        ));
    }
}

} // verus!
