//! Stateless cookies: a server keeps nothing of a client until the client has shown that it
//! receives what is sent to its address.

use vstd::prelude::*;
use crate::bytes;
use crate::clock;
use crate::crypto::digest;

verus! {

/// How long a bucket of time is, in seconds.
pub const BUCKET_SECS: u64 = 30;

/// What a cookie is a digest of: the address of the client, and the bucket of time.
pub open spec fn cookie_input(addr: Seq<u8>, bucket: u64) -> Seq<u8> {
    addr + bytes::le64(bucket)
}

/// The cookie of an address in a bucket of time.
pub open spec fn cookie_of(secret: Seq<u8>, addr: Seq<u8>, bucket: u64) -> Seq<u8> {
    digest::keyed_digest(secret, cookie_input(addr, bucket))
}

/// Whether a cookie is good at a time: it is that of the present bucket or of the one before.
pub open spec fn cookie_good(secret: Seq<u8>, addr: Seq<u8>, cookie: Seq<u8>, now: u64) -> bool {
    let bucket = (now / BUCKET_SECS) as u64;
    ||| cookie == cookie_of(secret, addr, bucket)
    ||| bucket > 0 && cookie == cookie_of(secret, addr, (bucket - 1) as u64)
}

/// Issues and checks cookies.
pub struct CookieFactory {
    secret: [u8; 32],
}

impl CookieFactory {
    /// The secret under which cookies are made.
    pub closed spec fn secret(&self) -> Seq<u8> {
        self.secret@
    }

    /// A factory with the given secret.
    pub fn new(secret: [u8; 32]) -> (f: Self)
        ensures
            f.secret() == secret@,
    {
        CookieFactory { secret }
    }

    /// The cookie for a client address at a time, in seconds.
    pub fn generate_at(&self, client_addr: &[u8], now: u64) -> (cookie: [u8; 32])
        ensures
            cookie@ == cookie_of(self.secret(), client_addr@, (now / BUCKET_SECS) as u64),
    {
        self.compute(client_addr, now / BUCKET_SECS)
    }

    /// Whether a cookie is good for a client address at a time, in seconds.
    pub fn verify_at(&self, client_addr: &[u8], cookie: &[u8; 32], now: u64) -> (good: bool)
        ensures
            good == cookie_good(self.secret(), client_addr@, cookie@, now),
    {
        let bucket: u64 = now / BUCKET_SECS;
        if bytes::same(&self.compute(client_addr, bucket), cookie) {
            return true;
        }
        bucket > 0 && bytes::same(&self.compute(client_addr, bucket - 1), cookie)
    }

    /// The cookie for a client address now.
    pub fn generate(&self, client_addr: &[u8]) -> (cookie: [u8; 32])
        ensures
            exists|now: u64|
                cookie@ == #[trigger] cookie_of(
                    self.secret(),
                    client_addr@,
                    (now / BUCKET_SECS) as u64,
                ),
    {
        let now: u64 = clock::unix_seconds();
        self.generate_at(client_addr, now)
    }

    /// Whether a cookie is good for a client address now.
    pub fn verify(&self, client_addr: &[u8], cookie: &[u8; 32]) -> (good: bool)
        ensures
            exists|now: u64|
                good == #[trigger] cookie_good(self.secret(), client_addr@, cookie@, now),
    {
        let now: u64 = clock::unix_seconds();
        self.verify_at(client_addr, cookie, now)
    }

    fn compute(&self, client_addr: &[u8], bucket: u64) -> (cookie: [u8; 32])
        ensures
            cookie@ == cookie_of(self.secret(), client_addr@, bucket),
    {
        let mut input: Vec<u8> = Vec::new();
        bytes::append(&mut input, client_addr);
        bytes::put_le64(&mut input, bucket);
        assert(input@ =~= cookie_input(client_addr@, bucket));
        digest::keyed_hash(&self.secret, &input)
    }
}

/// A cookie is good in its own bucket of time and in the next one.
pub proof fn law_cookie_stays_good(secret: Seq<u8>, addr: Seq<u8>, issued: u64, now: u64)
    requires
        issued <= now,
        now / BUCKET_SECS <= issued / BUCKET_SECS + 1,
    ensures
        cookie_good(
            secret,
            addr,
            cookie_of(secret, addr, (issued / BUCKET_SECS) as u64),
            now,
        ),
{
}

/// A cookie is good for as long as a bucket lasts, whenever it was issued.
pub proof fn law_cookie_lasts_a_bucket(secret: Seq<u8>, addr: Seq<u8>, issued: u64, now: u64)
    requires
        issued <= now <= issued + BUCKET_SECS,
    ensures
        cookie_good(
            secret,
            addr,
            cookie_of(secret, addr, (issued / BUCKET_SECS) as u64),
            now,
        ),
{
    law_cookie_stays_good(secret, addr, issued, now);
}

/// Two cookies are digests of the same text only if they are for one address and one bucket.
pub proof fn law_cookie_input_unique(a: Seq<u8>, b: Seq<u8>, s: u64, t: u64)
    requires
        cookie_input(a, s) == cookie_input(b, t),
    ensures
        a == b,
        s == t,
{
    let x = cookie_input(a, s);
    let y = cookie_input(b, t);
    assert(a.len() == x.len() - 8);
    assert(b.len() == y.len() - 8);
    assert(x.take(a.len() as int) =~= a);
    assert(y.take(b.len() as int) =~= b);
    assert(x.skip(a.len() as int) =~= bytes::le64(s));
    assert(y.skip(b.len() as int) =~= bytes::le64(t));
    bytes::law_le64_read_write(s);
    bytes::law_le64_read_write(t);
}

/// A cookie is good exactly if it is the one of the address in the present span of thirty seconds
/// or in the span before: the digest, under the secret, of the address and the number of the span.
pub proof fn law_cookie_good_exactly(secret: Seq<u8>, addr: Seq<u8>, cookie: Seq<u8>, now: u64)
    ensures
        cookie_good(secret, addr, cookie, now) <==> exists|issued: u64|
            now / 30 - issued / 30 <= 1 && issued / 30 <= now / 30 && cookie
                == #[trigger] cookie_of(secret, addr, (issued / 30) as u64),
        forall|span: u64| #[trigger]
            cookie_of(secret, addr, span) == digest::keyed_digest(secret, addr + bytes::le64(span)),
{
    let b = now / 30;
    if cookie_good(secret, addr, cookie, now) {
        if cookie == cookie_of(secret, addr, b as u64) {
            assert(cookie == cookie_of(secret, addr, (now / 30) as u64));
        } else {
            let issued = (now - 30) as u64;
            assert(issued / 30 == b - 1);
            assert(cookie == cookie_of(secret, addr, (issued / 30) as u64));
        }
    }
}

} // verus!
