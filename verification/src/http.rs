//! Protocol version mapping, HTTP method tokens, and URL normalization.
//!
//! The protocol version is an enum in memory but is persisted as text; the
//! mapping between the two is the single seam where format drift is caught.
//! Encoding is total over the five tags, decoding rejects every string
//! outside the closed set.

use vstd::prelude::*;
use vstd::string::*;

use crate::command::{RetryOptions, SendOptions};
use crate::db::{
    contains_request, find_request_spec, lemma_find_pushed, retrive_resource_by_id, store_request,
    store_request_tr, store_response, store_response_tr, store_wf, Store, StoreV,
};
use crate::model::{
    decode_request_record, encode_request_record, lemma_request_round_trip, make_request,
    make_request_spec, opt_bytes_view, request_wf, Request, RequestV, TransportResponse,
    TransportResponseV,
};
use crate::ApibotError;

verus! {

/// The five protocol versions the client can speak.
#[derive(Clone, Copy, Debug, PartialEq, Eq, Structural)]
pub enum Version {
    Http09,
    Http10,
    Http11,
    Http2,
    Http3,
}

/// The exact string form each version tag is persisted as.
pub open spec fn version_tag(v: Version) -> Seq<char> {
    match v {
        Version::Http09 => "0.9"@,
        Version::Http10 => "1.0"@,
        Version::Http11 => "1.1"@,
        Version::Http2 => "2.0"@,
        Version::Http3 => "3.0"@,
    }
}

/// Decoding a stored version string: the five tags map back to their
/// versions, everything else is rejected, never coerced to a default.
pub open spec fn parse_version(s: Seq<char>) -> Result<Version, ApibotError> {
    if s == "0.9"@ {
        Ok(Version::Http09)
    } else if s == "1.0"@ {
        Ok(Version::Http10)
    } else if s == "1.1"@ {
        Ok(Version::Http11)
    } else if s == "2.0"@ {
        Ok(Version::Http2)
    } else if s == "3.0"@ {
        Ok(Version::Http3)
    } else {
        Err(ApibotError::UnknownProtocolVersion)
    }
}

/// Encode a version tag to its persisted string form.
pub fn from_http_version(version: Version) -> (r: String)
    ensures
        r@ == version_tag(version),
{
    match version {
        Version::Http09 => "0.9".to_owned(),
        Version::Http10 => "1.0".to_owned(),
        Version::Http11 => "1.1".to_owned(),
        Version::Http2 => "2.0".to_owned(),
        Version::Http3 => "3.0".to_owned(),
    }
}

/// Every version tag decodes back to itself: the mapping is bidirectional
/// and lossless over the closed set.
pub proof fn lemma_version_round_trip(v: Version)
    ensures
        parse_version(version_tag(v)) == Ok::<Version, ApibotError>(v),
{
    reveal_strlit("0.9");
    reveal_strlit("1.0");
    reveal_strlit("1.1");
    reveal_strlit("2.0");
    reveal_strlit("3.0");
    assert("0.9"@ != "1.0"@ && "0.9"@ != "1.1"@ && "0.9"@ != "2.0"@ && "0.9"@ != "3.0"@) by {
        assert("0.9"@[0] == '0' && "1.0"@[0] == '1' && "1.1"@[0] == '1' && "2.0"@[0] == '2'
            && "3.0"@[0] == '3');
        assert("0.9"@[2] == '9' && "1.0"@[2] == '0');
    }
    assert("1.0"@ != "1.1"@) by {
        assert("1.0"@[2] == '0' && "1.1"@[2] == '1');
    }
    assert("1.0"@ != "2.0"@ && "1.0"@ != "3.0"@ && "1.1"@ != "2.0"@ && "1.1"@ != "3.0"@
        && "2.0"@ != "3.0"@) by {
        assert("1.0"@[0] == '1' && "1.1"@[0] == '1' && "2.0"@[0] == '2' && "3.0"@[0] == '3');
    }
}

/// A decoded version pins the stored string down: success happens only on
/// the five defined tags, and only on the tag of the decoded version.
pub proof fn lemma_version_decode_exact(s: Seq<char>, v: Version)
    requires
        parse_version(s) == Ok::<Version, ApibotError>(v),
    ensures
        s == version_tag(v),
{
}

/// A character allowed in an HTTP token (method names are tokens).
pub open spec fn is_tchar(c: char) -> bool {
    ('a' <= c && c <= 'z') || ('A' <= c && c <= 'Z') || ('0' <= c && c <= '9') || c == '!' || c
        == '#' || c == '$' || c == '%' || c == '&' || c == '\'' || c == '*' || c == '+' || c == '-'
        || c == '.' || c == '^' || c == '_' || c == '`' || c == '|' || c == '~'
}

/// A syntactically valid HTTP method: a non-empty token.
pub open spec fn valid_method(s: Seq<char>) -> bool {
    s.len() > 0 && forall|i: int| 0 <= i < s.len() ==> is_tchar(#[trigger] s[i])
}

/// Check that a method string is a valid HTTP token.
pub fn is_valid_method(s: &str) -> (r: bool)
    ensures
        r == valid_method(s@),
{
    let n = s.unicode_len();
    if n == 0 {
        return false;
    }
    let mut i: usize = 0;
    while i < n
        invariant
            0 < n == s@.len(),
            0 <= i <= n,
            forall|j: int| 0 <= j < i ==> is_tchar(#[trigger] s@[j]),
        decreases n - i,
    {
        let c = s.get_char(i);
        let ok = ('a' <= c && c <= 'z') || ('A' <= c && c <= 'Z') || ('0' <= c && c <= '9') || c
            == '!' || c == '#' || c == '$' || c == '%' || c == '&' || c == '\'' || c == '*' || c
            == '+' || c == '-' || c == '.' || c == '^' || c == '_' || c == '`' || c == '|' || c
            == '~';
        if !ok {
            return false;
        }
        i = i + 1;
    }
    true
}

/// Whether a URL already carries an `http` scheme prefix; anything else is
/// auto-prefixed with `http://` at construction time.
pub open spec fn has_http_prefix(s: Seq<char>) -> bool {
    s.len() >= 4 && s.subrange(0, 4) == "http"@
}

/// The URL a request is built with: a bare host/path gains `http://`.
pub open spec fn normalize_url_spec(s: Seq<char>) -> Seq<char> {
    if has_http_prefix(s) {
        s
    } else {
        "http://"@ + s
    }
}

/// Prefix a URL with `http://` when it lacks an `http` scheme prefix.
pub fn normalize_url(url: String) -> (r: String)
    ensures
        r@ == normalize_url_spec(url@),
{
    proof {
        reveal_strlit("http");
        reveal_strlit("http://");
    }
    let n = url.as_str().unicode_len();
    if n >= 4 {
        let c0 = url.as_str().get_char(0);
        let c1 = url.as_str().get_char(1);
        let c2 = url.as_str().get_char(2);
        let c3 = url.as_str().get_char(3);
        if c0 == 'h' && c1 == 't' && c2 == 't' && c3 == 'p' {
            proof {
                assert(url@.subrange(0, 4) =~= "http"@);
            }
            return url;
        }
        proof {
            assert(url@.subrange(0, 4) != "http"@) by {
                if url@.subrange(0, 4) == "http"@ {
                    assert(url@.subrange(0, 4)[0] == 'h' && url@.subrange(0, 4)[1] == 't'
                        && url@.subrange(0, 4)[2] == 't' && url@.subrange(0, 4)[3] == 'p');
                }
            }
        }
        let mut r = String::from_str("http://");
        r.append(url.as_str());
        return r;
    }
    let mut r = String::from_str("http://");
    r.append(url.as_str());
    r
}

/// The normalized form always carries the prefix, and normalizing is the
/// identity on URLs that already carry it; a stored URL therefore passes
/// through decoding unchanged.
pub proof fn lemma_normalize_idempotent(s: Seq<char>)
    ensures
        has_http_prefix(normalize_url_spec(s)),
        has_http_prefix(s) ==> normalize_url_spec(s) == s,
{
    reveal_strlit("http");
    reveal_strlit("http://");
    if !has_http_prefix(s) {
        assert(("http://"@ + s).subrange(0, 4) =~= "http"@);
    }
}

/// A request persisted and ready to go over the wire: the surrounding
/// program performs the transport and hands the outcome back.
pub struct Dispatch {
    pub request_id: i64,
    pub request: Request,
}

/// The partition key every record currently carries.
pub fn default_namespace() -> (r: String)
    ensures
        r@ == "default"@,
{
    "default".to_owned()
}

/// Send, first half: build the request from its options and persist its
/// row before any dispatch, so a record of intent exists even if the
/// network call then fails. The timestamp is read from the clock; all
/// other row fields are pinned.
pub fn send(store: &mut Store, options: SendOptions) -> (r: Result<Dispatch, ApibotError>)
    requires
        old(store).wf(),
        old(store)@.next_request_id < i64::MAX,
    ensures
        final(store).wf(),
        match r {
            Ok(d) => {
                &&& make_request_spec(
                    options.url@,
                    options.method@,
                    crate::codec::pairs_view(options.headers@),
                    options.http,
                    opt_bytes_view(options.data),
                ) == Ok::<RequestV, ApibotError>(d.request@)
                &&& request_wf(d.request@)
                &&& d.request_id as int == old(store)@.next_request_id
                &&& exists|t: Seq<char>|
                    final(store)@ == #[trigger] store_request_tr(
                        old(store)@,
                        d.request@,
                        "default"@,
                        t,
                    )
            },
            Err(e) => final(store)@ == old(store)@ && make_request_spec(
                options.url@,
                options.method@,
                crate::codec::pairs_view(options.headers@),
                options.http,
                opt_bytes_view(options.data),
            ) == Err::<RequestV, ApibotError>(e),
        },
{
    let SendOptions { url, method, headers, http, data } = options;
    match make_request(url, method, headers, http, data) {
        Err(e) => Err(e),
        Ok(request) => {
            let created_at = crate::time::now();
            let ghost t = created_at@;
            let id = store_request(store, &request, default_namespace(), created_at);
            proof {
                assert(store@ == store_request_tr(old(store)@, request@, "default"@, t));
            }
            Ok(Dispatch { request_id: id, request })
        },
    }
}

/// The view of a transport outcome: a received response, or none when the
/// network call failed.
pub open spec fn opt_resp_view(o: Option<TransportResponse>) -> Option<TransportResponseV> {
    match o {
        Some(resp) => Some(resp@),
        None => None,
    }
}

/// What executing a dispatched request does to the store: a failed
/// transport leaves it untouched (the request row remains as evidence); a
/// received response is persisted in full under the owning request id.
pub open spec fn execute_request_tr(
    m: StoreV,
    request_id: int,
    outcome: Option<TransportResponseV>,
    received_at: Seq<char>,
) -> StoreV {
    match outcome {
        None => m,
        Some(resp) => store_response_tr(m, request_id, resp, "default"@, received_at),
    }
}

/// Send or retry, second half: take the transport outcome for a dispatched
/// request. A received response is persisted and its drained body handed
/// back for display; a transport failure is reported with nothing written,
/// and an id no row carries is refused before anything is written.
pub fn execute_request(store: &mut Store, request_id: i64, outcome: Option<TransportResponse>) -> (r:
    Result<Vec<u8>, ApibotError>)
    requires
        old(store).wf(),
        old(store)@.next_response_id < i64::MAX,
    ensures
        final(store).wf(),
        match r {
            Ok(body) => {
                &&& outcome matches Some(resp) && body@ == resp@.body
                &&& exists|j: int|
                    0 <= j < old(store)@.requests.len() && (#[trigger] old(
                        store,
                    )@.requests[j]).id == request_id as int
                &&& exists|t: Seq<char>|
                    final(store)@ == #[trigger] execute_request_tr(
                        old(store)@,
                        request_id as int,
                        opt_resp_view(outcome),
                        t,
                    )
            },
            Err(e) => {
                &&& final(store)@ == old(store)@
                &&& (e == ApibotError::TransportFailure || e == ApibotError::RequestNotFound)
                &&& (e == ApibotError::TransportFailure <==> outcome is None)
                &&& e == ApibotError::RequestNotFound ==> !(exists|j: int|
                    0 <= j < old(store)@.requests.len() && (#[trigger] old(
                        store,
                    )@.requests[j]).id == request_id as int)
            },
        },
{
    match outcome {
        None => Err(ApibotError::TransportFailure),
        Some(resp) => {
            if !contains_request(store, request_id) {
                return Err(ApibotError::RequestNotFound);
            }
            let received_at = crate::time::now();
            let ghost t = received_at@;
            let body = store_response(store, request_id, &resp, default_namespace(), received_at);
            proof {
                assert(store@ == execute_request_tr(
                    old(store)@,
                    request_id as int,
                    opt_resp_view(Some(resp)),
                    t,
                ));
            }
            Ok(body)
        },
    }
}

/// What a retry means: look the row up by its id — `RequestNotFound` when
/// no row carries it — and decode it back into an executable request.
pub open spec fn retry_spec(m: StoreV, id: int) -> Result<RequestV, ApibotError> {
    match find_request_spec(m.requests, id) {
        None => Err(ApibotError::RequestNotFound),
        Some(rec) => decode_request_record(rec),
    }
}

/// Retry, first half: reconstruct the stored request for re-dispatch. The
/// dispatch reuses the stored id: no new request row is created, and the
/// response received next is tied to the original id.
pub fn retry(store: &Store, options: RetryOptions) -> (r: Result<Dispatch, ApibotError>)
    ensures
        match r {
            Ok(d) => {
                &&& retry_spec(store@, options.request_id as int) == Ok::<RequestV, ApibotError>(
                    d.request@,
                )
                &&& d.request_id == options.request_id
                &&& request_wf(d.request@)
            },
            Err(e) => retry_spec(store@, options.request_id as int) == Err::<
                RequestV,
                ApibotError,
            >(e),
        },
{
    match retrive_resource_by_id(store, options.request_id) {
        None => Err(ApibotError::RequestNotFound),
        Some(rec) => match rec.to_request() {
            Err(e) => Err(e),
            Ok(request) => Ok(Dispatch { request_id: options.request_id, request }),
        },
    }
}

/// Persist-before-send: once the request row is written, it exists whatever
/// the transport then does — a failed dispatch changes nothing, so the row
/// remains as evidence of the attempted call, and no response row appears.
pub proof fn lemma_persist_before_send(
    m: StoreV,
    q: RequestV,
    namespace: Seq<char>,
    t1: Seq<char>,
    id: int,
    t2: Seq<char>,
)
    ensures
        ({
            let m1 = store_request_tr(m, q, namespace, t1);
            &&& m1.requests.len() == m.requests.len() + 1
            &&& m1.requests.last() == encode_request_record(q, namespace, m.next_request_id, t1)
            &&& execute_request_tr(m1, id, None, t2) == m1
            &&& execute_request_tr(m1, id, None, t2).responses == m.responses
        }),
{
}

/// Retry reuses the request id: after a send that produced request id `R`
/// and one response row, two retries of `R` leave the request table as it
/// was and three response rows in all, every one referencing `R`. Each
/// retry decodes the stored row back to exactly the request that was sent.
pub proof fn lemma_retry_reuses_request_id(
    m0: StoreV,
    q: RequestV,
    namespace: Seq<char>,
    r1: TransportResponseV,
    r2: TransportResponseV,
    r3: TransportResponseV,
    t1: Seq<char>,
    t2: Seq<char>,
    t3: Seq<char>,
    t4: Seq<char>,
)
    requires
        store_wf(m0),
        request_wf(q),
    ensures
        ({
            let rid = m0.next_request_id;
            let m1 = store_request_tr(m0, q, namespace, t1);
            let m2 = execute_request_tr(m1, rid, Some(r1), t2);
            let m3 = execute_request_tr(m2, rid, Some(r2), t3);
            let m4 = execute_request_tr(m3, rid, Some(r3), t4);
            &&& retry_spec(m2, rid) == Ok::<RequestV, ApibotError>(q)
            &&& retry_spec(m3, rid) == Ok::<RequestV, ApibotError>(q)
            &&& m4.requests == m1.requests
            &&& m4.requests.len() == m0.requests.len() + 1
            &&& m4.responses.len() == m0.responses.len() + 3
            &&& m4.responses[m0.responses.len() as int].request_id == rid
            &&& m4.responses[m0.responses.len() as int + 1].request_id == rid
            &&& m4.responses[m0.responses.len() as int + 2].request_id == rid
        }),
{
    let rid = m0.next_request_id;
    let rec = encode_request_record(q, namespace, rid, t1);
    let m1 = store_request_tr(m0, q, namespace, t1);
    assert(forall|j: int| 0 <= j < m0.requests.len() ==> (#[trigger] m0.requests[j]).id != rid);
    lemma_find_pushed(m0.requests, rec);
    assert(m1.requests == m0.requests.push(rec));
    lemma_request_round_trip(q, namespace, rid, t1);
    assert(find_request_spec(m1.requests, rid) == Some(rec));
}

} // verus!
