//! The content-addressed result cache.
//!
//! A check request is serialized to canonical bytes and hashed to a
//! fixed-width key; the serialized response is stored under that key in an
//! embedded key/value database on disk. The database is modelled as a map
//! from keys to values, and every operation's contract is stated over that
//! map.

use vstd::prelude::*;

use crate::codec::{
    dec_response, decode_response, enc_request, enc_response, encode_request, encode_response,
    lemma_response_roundtrip, wf_response_v,
};
use crate::languagetool::{CheckRequest, CheckResponse, MatchV, RemoteError, RequestV};

verus! {

/// The embedded database's handle type, opaque to verification.
#[verifier::external_type_specification]
#[verifier::external_body]
pub struct ExSledDb(::sled::Db);

/// The embedded database's error type, opaque to verification.
#[verifier::external_type_specification]
#[verifier::external_body]
pub struct ExSledError(::sled::Error);

/// The key/value pairs that a database handle holds.
pub uninterp spec fn sled_contents(db: ::sled::Db) -> Map<Seq<u8>, Seq<u8>>;

/// The digest that the hash function assigns to a byte string.
pub uninterp spec fn sha256_of(data: Seq<u8>) -> Seq<u8>;

/// Relies on `sled::Config::{new, path, cache_capacity, flush_every_ms}`
/// and `open`: opens the store under `dir`, creating the directory when it
/// does not exist; the opened store holds whatever the directory held.
#[verifier::external_body]
fn open_db(dir: &str) -> Result<::sled::Db, ::sled::Error> {
    ::sled::Config::default().path(dir).cache_capacity(10_000_000_000).flush_every_ms(
        Some(1000),
    ).open()
}

/// Relies on `sled::Tree::get`, reached through `Db`'s deref: on success,
/// the value stored under the key, or `None` when the key is absent; the
/// store itself may fail instead.
#[verifier::external_body]
fn db_get(db: &::sled::Db, key: &[u8; 32]) -> (r: Result<Option<Vec<u8>>, ::sled::Error>)
    ensures
        r matches Ok(o) ==> match o {
            Some(v) => sled_contents(*db).contains_key(key@) && v@ == sled_contents(*db)[key@],
            None => !sled_contents(*db).contains_key(key@),
        },
{
    match db.get(key) {
        Ok(Some(iv)) => Ok(Some(iv.to_vec())),
        Ok(None) => Ok(None),
        Err(e) => Err(e),
    }
}

/// Relies on `sled::Tree::insert`, reached through `Db`'s deref: on
/// success the store holds the new pair and every other pair as before; a
/// failed insert promises nothing.
#[verifier::external_body]
fn db_insert(db: &mut ::sled::Db, key: &[u8; 32], value: &[u8]) -> (r: Result<
    (),
    ::sled::Error,
>)
    ensures
        r is Ok ==> sled_contents(*final(db)) == sled_contents(*old(db)).insert(key@, value@),
{
    match db.insert(key, value) {
        Ok(_) => Ok(()),
        Err(e) => Err(e),
    }
}

/// Relies on `sha2::Sha256` through `Digest::digest`: the 32-byte digest,
/// a function of the input bytes alone.
#[verifier::external_body]
fn sha256(data: &[u8]) -> (r: [u8; 32])
    ensures
        r@ == sha256_of(data@),
{
    <sha2::Sha256 as sha2::Digest>::digest(data).into()
}

/// Why a cache operation failed.
#[derive(Debug, Clone, Copy, PartialEq, Eq, Structural)]
pub enum CacheError {
    /// The backing store reported an error.
    Backend,
    /// A stored value does not deserialize: the entry is corrupt.
    Corrupt,
}

/// How a get-or-compute call obtained its value.
#[derive(Debug, Clone, Copy, PartialEq, Eq, Structural)]
pub enum CacheStatus {
    /// The value came from the cache; nothing was computed or written.
    Hit,
    /// The value was computed and written through to the cache.
    Stored,
    /// The value was computed, but the cache could not serve or keep it;
    /// caching was disabled for this invocation.
    Unstored,
}

/// The storage key of a request: the digest of its canonical serialized
/// form. Two requests share a key exactly when they serialize identically.
pub open spec fn request_key(r: RequestV) -> Seq<u8> {
    sha256_of(enc_request(r))
}

/// What a get-or-compute call guarantees about the store and its result.
pub open spec fn get_or_post(
    m_old: Map<Seq<u8>, Seq<u8>>,
    m_new: Map<Seq<u8>, Seq<u8>>,
    req: RequestV,
    resp: Seq<MatchV>,
    st: CacheStatus,
) -> bool {
    match st {
        CacheStatus::Hit => m_new == m_old && m_old.contains_key(request_key(req))
            && dec_response(m_old[request_key(req)]) == Some(resp),
        CacheStatus::Stored => m_new == m_old.insert(request_key(req), enc_response(resp)),
        CacheStatus::Unstored => true,
    }
}

/// The cache store: an embedded database addressed by request digests.
pub struct SledCacheStore {
    db: ::sled::Db,
}

impl View for SledCacheStore {
    type V = Map<Seq<u8>, Seq<u8>>;

    closed spec fn view(&self) -> Map<Seq<u8>, Seq<u8>> {
        sled_contents(self.db)
    }
}

impl SledCacheStore {
    /// Opens (or creates) the cache store in the directory `dir`.
    pub fn new(dir: &str) -> Result<SledCacheStore, CacheError> {
        match open_db(dir) {
            Ok(db) => Ok(SledCacheStore { db }),
            Err(_) => Err(CacheError::Backend),
        }
    }

    /// The fixed-width digest under which a serialized key is stored.
    pub fn hashed_key(key: &Vec<u8>) -> (r: [u8; 32])
        ensures
            r@ == sha256_of(key@),
    {
        sha256(key.as_slice())
    }

    /// Looks a value up by its hashed key.
    pub fn get_hashed_key_raw(&self, hashed_key: [u8; 32]) -> (r: Result<
        Option<Vec<u8>>,
        CacheError,
    >)
        ensures
            r matches Ok(o) ==> match o {
                Some(v) => self@.contains_key(hashed_key@) && v@ == self@[hashed_key@],
                None => !self@.contains_key(hashed_key@),
            },
    {
        match db_get(&self.db, &hashed_key) {
            Ok(o) => Ok(o),
            Err(_) => Err(CacheError::Backend),
        }
    }

    /// Stores a value under its hashed key.
    pub fn set_hashed_key_raw(&mut self, hashed_key: [u8; 32], value: &Vec<u8>) -> (r: Result<
        (),
        CacheError,
    >)
        ensures
            r is Ok ==> final(self)@ == old(self)@.insert(hashed_key@, value@),
    {
        match db_insert(&mut self.db, &hashed_key, value.as_slice()) {
            Ok(()) => Ok(()),
            Err(_) => Err(CacheError::Backend),
        }
    }

    /// Looks a value up by its unhashed key.
    pub fn get_raw(&self, key: &Vec<u8>) -> (r: Result<Option<Vec<u8>>, CacheError>)
        ensures
            r matches Ok(o) ==> match o {
                Some(v) => self@.contains_key(sha256_of(key@)) && v@ == self@[sha256_of(key@)],
                None => !self@.contains_key(sha256_of(key@)),
            },
    {
        let h = Self::hashed_key(key);
        self.get_hashed_key_raw(h)
    }

    /// Stores a value under its unhashed key.
    pub fn set_raw(&mut self, key: &Vec<u8>, value: &Vec<u8>) -> (r: Result<(), CacheError>)
        ensures
            r is Ok ==> final(self)@ == old(self)@.insert(sha256_of(key@), value@),
    {
        let h = Self::hashed_key(key);
        self.set_hashed_key_raw(h, value)
    }

    /// The cached response for `req`, if a well-formed one is stored.
    pub fn try_get(&self, req: &CheckRequest) -> (r: Result<Option<CheckResponse>, CacheError>)
        ensures
            r matches Ok(o) ==> match o {
                Some(resp) => self@.contains_key(request_key(req@)) && dec_response(
                    self@[request_key(req@)],
                ) == Some(resp@),
                None => !self@.contains_key(request_key(req@)),
            },
    {
        let enc = encode_request(req);
        match self.get_raw(&enc) {
            Ok(Some(bytes)) => match decode_response(&bytes) {
                Some(resp) => Ok(Some(resp)),
                None => Err(CacheError::Corrupt),
            },
            Ok(None) => Ok(None),
            Err(e) => Err(e),
        }
    }

    /// Whether a response is cached for `req`, without computing anything.
    pub fn hits(&self, req: &CheckRequest) -> (r: Result<bool, CacheError>)
        ensures
            r matches Ok(b) ==> b == self@.contains_key(request_key(req@)),
    {
        let enc = encode_request(req);
        match self.get_raw(&enc) {
            Ok(Some(_)) => Ok(true),
            Ok(None) => Ok(false),
            Err(e) => Err(e),
        }
    }

    /// Computes a fresh response for `req` and writes it through to the
    /// cache, overwriting any stored one. The result reports whether the
    /// write took: a store that cannot keep the value does not fail the
    /// computation.
    pub fn set_and_get<F: FnOnce(CheckRequest) -> Result<CheckResponse, RemoteError>>(
        &mut self,
        req: CheckRequest,
        f: F,
    ) -> (r: Result<(CheckResponse, CacheStatus), RemoteError>)
        requires
            call_requires(f, (req,)),
        ensures
            match r {
                Ok(p) => {
                    &&& call_ensures(f, (req,), Ok(p.0))
                    &&& p.1 != CacheStatus::Hit
                    &&& get_or_post(old(self)@, final(self)@, req@, p.0@, p.1)
                },
                Err(e) => call_ensures(f, (req,), Err(e)) && final(self)@ == old(self)@,
            },
    {
        let enc = encode_request(&req);
        let ghost rv = req@;
        let resp = match f(req) {
            Ok(resp) => resp,
            Err(e) => {
                return Err(e);
            },
        };
        let bytes = encode_response(&resp);
        let h = Self::hashed_key(&enc);
        match self.set_hashed_key_raw(h, &bytes) {
            Ok(()) => Ok((resp, CacheStatus::Stored)),
            Err(_) => Ok((resp, CacheStatus::Unstored)),
        }
    }

    /// The response for `req`: the cached one on a hit, a freshly computed
    /// and stored one on a miss. A cache that cannot be read disables
    /// caching for this invocation and falls through to direct compute.
    pub fn get_or<F: FnOnce(CheckRequest) -> Result<CheckResponse, RemoteError>>(
        &mut self,
        req: CheckRequest,
        f: F,
    ) -> (r: Result<(CheckResponse, CacheStatus), RemoteError>)
        requires
            call_requires(f, (req,)),
        ensures
            match r {
                Ok(p) => {
                    &&& get_or_post(old(self)@, final(self)@, req@, p.0@, p.1)
                    &&& p.1 != CacheStatus::Hit ==> call_ensures(f, (req,), Ok(p.0))
                    &&& p.1 == CacheStatus::Hit ==> final(self)@ == old(self)@
                },
                Err(e) => call_ensures(f, (req,), Err(e)) && final(self)@ == old(self)@,
            },
    {
        match self.try_get(&req) {
            Ok(Some(resp)) => Ok((resp, CacheStatus::Hit)),
            Ok(None) => self.set_and_get(req, f),
            Err(_) => {
                // The cache cannot be read: compute directly, and do not
                // write, so that a failing store cannot also fail the run.
                match f(req) {
                    Ok(resp) => Ok((resp, CacheStatus::Unstored)),
                    Err(e) => Err(e),
                }
            },
        }
    }
}

/// Get-or-compute is idempotent under single-threaded use: once a call has
/// cached its answer (by hit or by store), a later identical request that
/// finds the cache readable is answered from the cache — the compute
/// function is not invoked again — with the first call's value, and the
/// store is left unchanged.
pub proof fn lemma_get_or_compute_once(
    m0: Map<Seq<u8>, Seq<u8>>,
    m1: Map<Seq<u8>, Seq<u8>>,
    m2: Map<Seq<u8>, Seq<u8>>,
    req: RequestV,
    r1: Seq<MatchV>,
    r2: Seq<MatchV>,
    st1: CacheStatus,
)
    requires
        wf_response_v(r1),
        st1 != CacheStatus::Unstored,
        get_or_post(m0, m1, req, r1, st1),
        get_or_post(m1, m2, req, r2, CacheStatus::Hit),
    ensures
        r2 == r1,
        m2 == m1,
{
    let k = request_key(req);
    match st1 {
        CacheStatus::Hit => {
        },
        CacheStatus::Stored => {
            lemma_response_roundtrip(r1);
            assert(m1[k] == enc_response(r1));
        },
        CacheStatus::Unstored => {
        },
    }
}

} // verus!
