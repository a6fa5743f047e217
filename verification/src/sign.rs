//! Request signatures: a SHA-256 digest over the request's identifying parts.

use crate::truncate::{query_truncate, truncated};
use vstd::prelude::*;

verus! {

/// The lower-case hexadecimal SHA-256 digest of the UTF-8 encoding of `input`.
pub uninterp spec fn sha256_hex(input: Seq<char>) -> Seq<char>;

/// Trusted: `sha256::digest` on a string slice. It hashes the slice's bytes
/// with SHA-256 and returns the digest in hexadecimal; the result depends on
/// the characters of `input` alone.
#[verifier::external_body]
fn sha256_digest(input: &str) -> (r: String)
    ensures
        r@ == sha256_hex(input@),
{
    sha256::digest(input)
}

/// The text that is hashed for a request: the application id, the shortened
/// query, the salt, the timestamp and the application secret, in this order.
pub open spec fn sign_input(
    query: Seq<char>,
    salt: Seq<char>,
    timestamp: Seq<char>,
    app_id: Seq<char>,
    app_key: Seq<char>,
) -> Seq<char> {
    app_id + truncated(query) + salt + timestamp + app_key
}

/// The signature of a request.
pub open spec fn signature(
    query: Seq<char>,
    salt: Seq<char>,
    timestamp: Seq<char>,
    app_id: Seq<char>,
    app_key: Seq<char>,
) -> Seq<char> {
    sha256_hex(sign_input(query, salt, timestamp, app_id, app_key))
}

/// Assembles the text that `sign` hashes.
pub fn sign_payload(query: &str, salt: &str, timestamp: &str, app_id: &str, app_key: &str) -> (r:
    String)
    ensures
        r@ == sign_input(query@, salt@, timestamp@, app_id@, app_key@),
{
    let mut r = String::from_str(app_id);
    let short = query_truncate(query);
    r.append(short.as_str());
    r.append(salt);
    r.append(timestamp);
    r.append(app_key);
    r
}

/// Signs a request. The result is a function of the five arguments: equal
/// arguments give equal signatures.
pub fn sign(query: &str, salt: &str, timestamp: &str, app_id: &str, app_key: &str) -> (r: String)
    ensures
        r@ == signature(query@, salt@, timestamp@, app_id@, app_key@),
{
    let payload = sign_payload(query, salt, timestamp, app_id, app_key);
    sha256_digest(payload.as_str())
}

/// Requests that agree in all that is signed have the same signature. The
/// query counts by its shortened form, the only part of it that is signed.
pub proof fn lemma_signature_determined(
    query1: Seq<char>,
    query2: Seq<char>,
    salt: Seq<char>,
    timestamp: Seq<char>,
    app_id: Seq<char>,
    app_key: Seq<char>,
)
    requires
        truncated(query1) == truncated(query2),
    ensures
        signature(query1, salt, timestamp, app_id, app_key) == signature(
            query2,
            salt,
            timestamp,
            app_id,
            app_key,
        ),
{
}

/// Replacing the middle of a three-part text by a different middle gives a
/// different text.
pub proof fn lemma_middle_differs(a: Seq<char>, x: Seq<char>, y: Seq<char>, b: Seq<char>)
    requires
        x != y,
    ensures
        a + x + b != a + y + b,
{
    if a + x + b == a + y + b {
        assert((a + x + b).len() == a.len() + x.len() + b.len());
        assert((a + y + b).len() == a.len() + y.len() + b.len());
        assert forall|i: int| 0 <= i < x.len() implies x[i] == y[i] by {
            assert((a + x + b)[a.len() + i] == x[i]);
            assert((a + y + b)[a.len() + i] == y[i]);
        }
        assert(x =~= y);
    }
}

/// Two requests whose hashed parts differ in exactly one place are hashed
/// from different texts. The query counts by its shortened form: two long
/// queries of one length that share their first and last ten characters are
/// signed alike.
pub proof fn lemma_sign_input_single_change(
    query1: Seq<char>,
    salt1: Seq<char>,
    timestamp1: Seq<char>,
    app_id1: Seq<char>,
    app_key1: Seq<char>,
    query2: Seq<char>,
    salt2: Seq<char>,
    timestamp2: Seq<char>,
    app_id2: Seq<char>,
    app_key2: Seq<char>,
)
    requires
        (if truncated(query1) != truncated(query2) {
            1int
        } else {
            0int
        }) + (if salt1 != salt2 {
            1int
        } else {
            0int
        }) + (if timestamp1 != timestamp2 {
            1int
        } else {
            0int
        }) + (if app_id1 != app_id2 {
            1int
        } else {
            0int
        }) + (if app_key1 != app_key2 {
            1int
        } else {
            0int
        }) == 1,
    ensures
        sign_input(query1, salt1, timestamp1, app_id1, app_key1) != sign_input(
            query2,
            salt2,
            timestamp2,
            app_id2,
            app_key2,
        ),
{
    let q1 = truncated(query1);
    let q2 = truncated(query2);
    let s1 = sign_input(query1, salt1, timestamp1, app_id1, app_key1);
    let s2 = sign_input(query2, salt2, timestamp2, app_id2, app_key2);
    let e = Seq::<char>::empty();
    if app_id1 != app_id2 {
        let b = q1 + salt1 + timestamp1 + app_key1;
        assert(s1 =~= e + app_id1 + b);
        assert(s2 =~= e + app_id2 + b);
        lemma_middle_differs(e, app_id1, app_id2, b);
    } else if q1 != q2 {
        let b = salt1 + timestamp1 + app_key1;
        assert(s1 =~= app_id1 + q1 + b);
        assert(s2 =~= app_id1 + q2 + b);
        lemma_middle_differs(app_id1, q1, q2, b);
    } else if salt1 != salt2 {
        let a = app_id1 + q1;
        let b = timestamp1 + app_key1;
        assert(s1 =~= a + salt1 + b);
        assert(s2 =~= a + salt2 + b);
        lemma_middle_differs(a, salt1, salt2, b);
    } else if timestamp1 != timestamp2 {
        let a = app_id1 + q1 + salt1;
        assert(s1 =~= a + timestamp1 + app_key1);
        assert(s2 =~= a + timestamp2 + app_key1);
        lemma_middle_differs(a, timestamp1, timestamp2, app_key1);
    } else {
        let a = app_id1 + q1 + salt1 + timestamp1;
        assert(s1 =~= a + app_key1 + e);
        assert(s2 =~= a + app_key2 + e);
        lemma_middle_differs(a, app_key1, app_key2, e);
    }
}

} // verus!
