//! The Qdrant sink's endpoints and how its HTTP replies are judged; the
//! requests themselves are sent by the caller.
use vstd::prelude::*;
use crate::error::{RagloomError, RagloomErrorKind};
use crate::state::failed::{strip_slashes_end, strip_trailing_slashes};
use crate::text::{chars_of, owned, str_eq, string_from_range};

verus! {

/// Name for the host that `reqwest::Url::parse` finds in a URL (`None` when
/// the text does not parse or has no host).
pub uninterp spec fn url_host_of(url: Seq<char>) -> Option<Seq<char>>;

/// Calls `reqwest::Url::parse` and `Url::host_str`; the host is a function
/// of the URL text alone.
#[verifier::external_body]
fn url_host(url: &str) -> (h: Option<String>)
    ensures
        match h {
            Some(s) => url_host_of(url@) == Some(s@),
            None => url_host_of(url@) is None,
        },
{
    match reqwest::Url::parse(url) {
        Ok(u) => match u.host_str() {
            Some(host) => Some(host.to_string()),
            None => None,
        },
        Err(_) => None,
    }
}

/// A loopback host: `localhost`, `127.0.0.1` or `::1`.
pub open spec fn loopback(host: Option<Seq<char>>) -> bool {
    match host {
        Some(h) => h == "localhost"@ || h == "127.0.0.1"@ || h == "::1"@,
        None => false,
    }
}

/// Whether `host` is a loopback host.
pub fn is_loopback_host(host: &Option<String>) -> (r: bool)
    ensures
        r == loopback(match host {
            Some(s) => Some(s@),
            None => None,
        }),
{
    match host {
        Some(h) => str_eq(h.as_str(), "localhost") || str_eq(h.as_str(), "127.0.0.1") || str_eq(h.as_str(), "::1"),
        None => false,
    }
}

/// Whether requests to `url` bypass the HTTP proxy: exactly when the URL's
/// host is a loopback host.
pub fn should_bypass_proxy(url: &str) -> (r: bool)
    ensures
        r == loopback(url_host_of(url@)),
{
    let host = url_host(url);
    is_loopback_host(&host)
}

/// The base URL without trailing `/`.
fn trimmed_base(base_url: &str) -> (s: String)
    ensures
        s@ == strip_trailing_slashes(base_url@),
{
    let c = chars_of(base_url);
    let n = c.len();
    let m = strip_slashes_end(&c, n);
    proof {
        assert(c@.take(n as int) =~= base_url@);
        assert(c@.subrange(0, m as int) =~= c@.take(m as int));
    }
    string_from_range(&c, 0, m)
}

/// The URL of a collection.
pub open spec fn collection_url_spec(base_url: Seq<char>, collection: Seq<char>) -> Seq<char> {
    strip_trailing_slashes(base_url) + "/collections/"@ + collection
}

/// The URL of a collection: the base URL without trailing `/`, then
/// `/collections/` and the collection name.
pub fn collection_url(base_url: &str, collection: &str) -> (u: String)
    ensures
        u@ == collection_url_spec(base_url@, collection@),
{
    let mut u = trimmed_base(base_url);
    u.push_str("/collections/");
    u.push_str(collection);
    u
}

/// The URL that upserts points into a collection and waits for them.
pub fn upsert_url(base_url: &str, collection: &str) -> (u: String)
    ensures
        u@ == collection_url_spec(base_url@, collection@) + "/points?wait=true"@,
{
    let mut u = collection_url(base_url, collection);
    u.push_str("/points?wait=true");
    u
}

/// Settings of the Qdrant sink.
#[derive(Debug)]
pub struct QdrantConfig {
    pub base_url: String,
    pub collection: String,
    pub timeout: std::time::Duration,
}

impl Clone for QdrantConfig {
    fn clone(&self) -> (c: Self)
        ensures
            c == *self,
    {
        QdrantConfig { base_url: self.base_url.clone(), collection: self.collection.clone(), timeout: self.timeout }
    }
}

impl QdrantConfig {
    /// The URL of the configured collection, see [`collection_url`].
    pub fn collection_url(&self) -> (u: String)
        ensures
            u@ == collection_url_spec(self.base_url@, self.collection@),
    {
        collection_url(self.base_url.as_str(), self.collection.as_str())
    }

    /// The upsert URL of the configured collection, see [`upsert_url`].
    pub fn upsert_url(&self) -> (u: String)
        ensures
            u@ == collection_url_spec(self.base_url@, self.collection@) + "/points?wait=true"@,
    {
        upsert_url(self.base_url.as_str(), self.collection.as_str())
    }
}

/// What the status of a collection lookup says.
#[derive(Debug, Clone, Copy, PartialEq, Eq)]
pub enum Existence {
    Exists,
    Missing,
    Unexpected,
}

/// A 2xx status means the collection exists, 404 that it is missing; any
/// other status is unexpected.
pub fn existence_of(status: u16) -> (e: Existence)
    ensures
        200 <= status <= 299 ==> e == Existence::Exists,
        status == 404 ==> e == Existence::Missing,
        !(200 <= status <= 299) && status != 404 ==> e == Existence::Unexpected,
{
    if 200 <= status && status <= 299 {
        Existence::Exists
    } else if status == 404 {
        Existence::Missing
    } else {
        Existence::Unexpected
    }
}

/// A `Sink` error whose message is `a`, `url`, `b`, `status`, `c`, `body`
/// and `)`.
fn reply_error(a: &str, url: &str, b: &str, status: &str, c: &str, body: &str) -> (e: RagloomError)
    ensures
        e.kind == RagloomErrorKind::Sink,
        e.contexts@.len() == 1,
        e.contexts@[0]@ == a@ + url@ + b@ + status@ + c@ + body@ + ")"@,
{
    let mut m = owned(a);
    m.push_str(url);
    m.push_str(b);
    m.push_str(status);
    m.push_str(c);
    m.push_str(body);
    m.push_str(")");
    RagloomError::from_kind(RagloomErrorKind::Sink).with_context(m)
}

/// The error for an unexpected status of the existence check; `status` is
/// the rendered status, `body` the reply body.
pub fn existence_error(url: &str, status: &str, body: &str) -> (e: RagloomError)
    ensures
        e.kind == RagloomErrorKind::Sink,
        e.contexts@.len() == 1,
        e.contexts@[0]@ == "qdrant bootstrap existence-check returned unexpected status (url="@ + url@ + ", status="@
            + status@ + ", body="@ + body@ + ")"@,
{
    reply_error("qdrant bootstrap existence-check returned unexpected status (url=", url, ", status=", status, ", body=", body)
}

/// The error for a non-success status of the collection creation.
pub fn create_status_error(url: &str, status: &str, body: &str) -> (e: RagloomError)
    ensures
        e.kind == RagloomErrorKind::Sink,
        e.contexts@.len() == 1,
        e.contexts@[0]@ == "qdrant bootstrap create returned non-success status (url="@ + url@ + ", status="@ + status@
            + ", body="@ + body@ + ")"@,
{
    reply_error("qdrant bootstrap create returned non-success status (url=", url, ", status=", status, ", body=", body)
}

/// The error for a non-success status of an upsert.
pub fn upsert_status_error(url: &str, status: &str, body: &str) -> (e: RagloomError)
    ensures
        e.kind == RagloomErrorKind::Sink,
        e.contexts@.len() == 1,
        e.contexts@[0]@ == "qdrant upsert returned non-success status (url="@ + url@ + ", status="@ + status@
            + ", body="@ + body@ + ")"@,
{
    reply_error("qdrant upsert returned non-success status (url=", url, ", status=", status, ", body=", body)
}

/// `Ok` when the decoded reply of a collection creation reports `ok`;
/// otherwise a `Sink` error naming the reported status.
pub fn create_body_result(url: &str, body_status: &str) -> (r: Result<(), RagloomError>)
    ensures
        body_status@ == "ok"@ ==> r is Ok,
        body_status@ != "ok"@ ==> (r matches Err(e) && e.kind == RagloomErrorKind::Sink && e.contexts@.len() == 1
            && e.contexts@[0]@ == "qdrant bootstrap create returned non-ok status in body (url="@ + url@ + ", status="@
            + body_status@ + ")"@),
{
    if str_eq(body_status, "ok") {
        return Ok(());
    }
    let mut m = owned("qdrant bootstrap create returned non-ok status in body (url=");
    m.push_str(url);
    m.push_str(", status=");
    m.push_str(body_status);
    m.push_str(")");
    Err(RagloomError::from_kind(RagloomErrorKind::Sink).with_context(m))
}

/// `Ok` when the decoded reply of an upsert reports `ok`; otherwise a
/// `Sink` error naming the reported status.
pub fn upsert_body_result(url: &str, body_status: &str) -> (r: Result<(), RagloomError>)
    ensures
        body_status@ == "ok"@ ==> r is Ok,
        body_status@ != "ok"@ ==> (r matches Err(e) && e.kind == RagloomErrorKind::Sink && e.contexts@.len() == 1
            && e.contexts@[0]@ == "qdrant returned non-ok status in body (url="@ + url@ + ", status="@ + body_status@
            + ")"@),
{
    if str_eq(body_status, "ok") {
        return Ok(());
    }
    let mut m = owned("qdrant returned non-ok status in body (url=");
    m.push_str(url);
    m.push_str(", status=");
    m.push_str(body_status);
    m.push_str(")");
    Err(RagloomError::from_kind(RagloomErrorKind::Sink).with_context(m))
}

/// After a failed collection creation the collection is checked again: a
/// collection that now exists (created concurrently) is a success; otherwise
/// the creation error stands.
pub fn after_failed_create(create_error: RagloomError, recheck: Result<bool, RagloomError>) -> (r: Result<
    (),
    RagloomError,
>)
    ensures
        recheck == Ok::<bool, RagloomError>(true) ==> r is Ok,
        recheck != Ok::<bool, RagloomError>(true) ==> r == Err::<(), RagloomError>(create_error),
{
    match recheck {
        Ok(true) => Ok(()),
        _ => Err(create_error),
    }
}

} // verus!
