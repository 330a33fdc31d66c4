//! Durable record types and the request codec over them.
//!
//! A `RequestRecord` is the durable row a sent request becomes; a
//! `ResponseRecord` the row a received response becomes, tied to the
//! originating request id. Encoding a request into a row and decoding a row
//! back are exact inverses: the round-trip law at the end of this module.

use vstd::prelude::*;

use crate::codec::{
    clone_bytes, collapse, encode_header, lemma_collapse_identity, lemma_header_round_trip,
    pairs_view, parse_header, string_to_headers, unique_names,
};
use crate::command::parse_http_version;
use crate::http::{
    has_http_prefix, is_valid_method, lemma_normalize_idempotent, lemma_version_round_trip,
    normalize_url, normalize_url_spec, parse_version, valid_method, version_tag, Version,
};
use crate::ApibotError;

verus! {

/// The mathematical value of a stored request row.
pub struct RequestRecordV {
    pub id: int,
    pub created_at: Seq<char>,
    pub updated_at: Option<Seq<char>>,
    pub deleted_at: Option<Seq<char>>,
    pub namespace: Seq<char>,
    pub method: Seq<char>,
    pub version: Seq<char>,
    pub url: Seq<char>,
    pub header: Seq<u8>,
    pub body: Seq<u8>,
}

/// One durable row of the request table. `header` is the canonical JSON
/// object blob, `body` the raw payload (empty, never absent, when the
/// request carried none); both are bytes, converted to text only at the
/// storage boundary. `updated_at` and `deleted_at` are the soft-delete
/// markers: rows are never physically removed.
pub struct RequestRecord {
    pub id: i64,
    pub created_at: String,
    pub updated_at: Option<String>,
    pub deleted_at: Option<String>,
    pub namespace: String,
    pub method: String,
    pub version: String,
    pub url: String,
    pub header: Vec<u8>,
    pub body: Vec<u8>,
}

/// The view of an optional timestamp column.
pub open spec fn opt_view(o: Option<String>) -> Option<Seq<char>> {
    match o {
        Some(s) => Some(s@),
        None => None,
    }
}

impl View for RequestRecord {
    type V = RequestRecordV;

    open spec fn view(&self) -> RequestRecordV {
        RequestRecordV {
            id: self.id as int,
            created_at: self.created_at@,
            updated_at: opt_view(self.updated_at),
            deleted_at: opt_view(self.deleted_at),
            namespace: self.namespace@,
            method: self.method@,
            version: self.version@,
            url: self.url@,
            header: self.header@,
            body: self.body@,
        }
    }
}

/// The mathematical value of a stored response row.
pub struct ResponseRecordV {
    pub id: int,
    pub namespace: Seq<char>,
    pub request_id: int,
    pub status_code: int,
    pub header: Seq<u8>,
    pub body: Seq<u8>,
    pub received_at: Seq<char>,
    pub deleted_at: Option<Seq<char>>,
}

/// One durable row of the response table, referencing the request row it
/// answers. Responses are never replayed, so only encoding exists for them.
pub struct ResponseRecord {
    pub id: i64,
    pub namespace: String,
    pub request_id: i64,
    pub status_code: i32,
    pub header: Vec<u8>,
    pub body: Vec<u8>,
    pub received_at: String,
    pub deleted_at: Option<String>,
}

impl View for ResponseRecord {
    type V = ResponseRecordV;

    open spec fn view(&self) -> ResponseRecordV {
        ResponseRecordV {
            id: self.id as int,
            namespace: self.namespace@,
            request_id: self.request_id as int,
            status_code: self.status_code as int,
            header: self.header@,
            body: self.body@,
            received_at: self.received_at@,
            deleted_at: opt_view(self.deleted_at),
        }
    }
}

/// The mathematical value of an executable request.
pub struct RequestV {
    pub method: Seq<char>,
    pub url: Seq<char>,
    pub version: Version,
    pub headers: Seq<(Seq<u8>, Seq<u8>)>,
    pub body: Seq<u8>,
}

/// A fully built, not yet dispatched request: what the transport is handed
/// and what a stored row decodes back into.
pub struct Request {
    pub method: String,
    pub url: String,
    pub version: Version,
    pub headers: Vec<(Vec<u8>, Vec<u8>)>,
    pub body: Vec<u8>,
}

impl View for Request {
    type V = RequestV;

    open spec fn view(&self) -> RequestV {
        RequestV {
            method: self.method@,
            url: self.url@,
            version: self.version,
            headers: pairs_view(self.headers@),
            body: self.body@,
        }
    }
}

/// What construction guarantees of every request: a valid method token, a
/// URL carrying its scheme prefix, and one value per header name.
pub open spec fn request_wf(q: RequestV) -> bool {
    valid_method(q.method) && has_http_prefix(q.url) && unique_names(q.headers)
}

/// What a received response contributes to its row: status, headers, and
/// the fully drained body.
pub struct TransportResponseV {
    pub status_code: int,
    pub headers: Seq<(Seq<u8>, Seq<u8>)>,
    pub body: Seq<u8>,
}

/// A received response, read in full: the transport collaborator hands this
/// over after draining the body stream completely.
pub struct TransportResponse {
    pub status_code: u16,
    pub headers: Vec<(Vec<u8>, Vec<u8>)>,
    pub body: Vec<u8>,
}

impl View for TransportResponse {
    type V = TransportResponseV;

    open spec fn view(&self) -> TransportResponseV {
        TransportResponseV {
            status_code: self.status_code as int,
            headers: pairs_view(self.headers@),
            body: self.body@,
        }
    }
}

/// Building a request from user intent: the method must be a valid token;
/// the URL gains `http://` when it lacks an `http` prefix; duplicate header
/// names collapse, last write wins; an absent body becomes the empty body.
pub open spec fn make_request_spec(
    url: Seq<char>,
    method: Seq<char>,
    headers: Seq<(Seq<u8>, Seq<u8>)>,
    http_version: Version,
    data: Option<Seq<u8>>,
) -> Result<RequestV, ApibotError> {
    if !valid_method(method) {
        Err(ApibotError::InvalidMethod)
    } else {
        Ok(
            RequestV {
                method: method,
                url: normalize_url_spec(url),
                version: http_version,
                headers: collapse(headers),
                body: match data {
                    Some(d) => d,
                    None => Seq::empty(),
                },
            },
        )
    }
}

/// The view of an optional body argument.
pub open spec fn opt_bytes_view(o: Option<Vec<u8>>) -> Option<Seq<u8>> {
    match o {
        Some(d) => Some(d@),
        None => None,
    }
}

/// Build an executable request from its parts.
pub fn make_request(
    url: String,
    method: String,
    headers: Vec<(Vec<u8>, Vec<u8>)>,
    http_version: Version,
    data: Option<Vec<u8>>,
) -> (r: Result<Request, ApibotError>)
    ensures
        match r {
            Ok(q) => make_request_spec(
                url@,
                method@,
                pairs_view(headers@),
                http_version,
                opt_bytes_view(data),
            ) == Ok::<RequestV, ApibotError>(q@) && request_wf(q@),
            Err(e) => make_request_spec(
                url@,
                method@,
                pairs_view(headers@),
                http_version,
                opt_bytes_view(data),
            ) == Err::<RequestV, ApibotError>(e),
        },
{
    if !is_valid_method(method.as_str()) {
        return Err(ApibotError::InvalidMethod);
    }
    let nurl = normalize_url(url);
    let hs = crate::codec::collapse_headers(&headers);
    let body: Vec<u8> = match data {
        Some(d) => d,
        None => Vec::new(),
    };
    proof {
        lemma_normalize_idempotent(url@);
    }
    Ok(Request { method, url: nurl, version: http_version, headers: hs, body })
}

/// Encoding a built request into the row persisted for it, with the storage
/// assigned id and the creation timestamp.
pub open spec fn encode_request_record(
    q: RequestV,
    namespace: Seq<char>,
    id: int,
    created_at: Seq<char>,
) -> RequestRecordV {
    RequestRecordV {
        id: id,
        created_at: created_at,
        updated_at: None,
        deleted_at: None,
        namespace: namespace,
        method: q.method,
        version: version_tag(q.version),
        url: q.url,
        header: encode_header(q.headers),
        body: q.body,
    }
}

/// Encoding a received response into the row persisted for it.
pub open spec fn encode_response_record(
    resp: TransportResponseV,
    namespace: Seq<char>,
    id: int,
    request_id: int,
    received_at: Seq<char>,
) -> ResponseRecordV {
    ResponseRecordV {
        id: id,
        namespace: namespace,
        request_id: request_id,
        status_code: resp.status_code,
        header: encode_header(collapse(resp.headers)),
        body: resp.body,
        received_at: received_at,
        deleted_at: None,
    }
}

/// Decoding a stored row back into an executable request. The checks come
/// in a fixed order: a header blob that is not a canonical JSON object is a
/// malformed record; then the version string must lie in the closed set;
/// then the method must be a valid token; then the request is rebuilt
/// exactly as it was first built.
pub open spec fn decode_request_record(r: RequestRecordV) -> Result<RequestV, ApibotError> {
    match parse_header(r.header) {
        Err(e) => Err(e),
        Ok(hs) => match parse_version(r.version) {
            Err(e) => Err(e),
            Ok(v) => make_request_spec(r.url, r.method, hs, v, Some(r.body)),
        },
    }
}

impl RequestRecord {
    /// Rebuild the executable request this row was encoded from.
    pub fn to_request(&self) -> (r: Result<Request, ApibotError>)
        ensures
            match r {
                Ok(q) => decode_request_record(self@) == Ok::<RequestV, ApibotError>(q@)
                    && request_wf(q@),
                Err(e) => decode_request_record(self@) == Err::<RequestV, ApibotError>(e),
            },
    {
        let hs = match string_to_headers(&self.header) {
            Err(e) => {
                return Err(e);
            },
            Ok(hs) => hs,
        };
        let v = match parse_http_version(self.version.as_str()) {
            Err(e) => {
                return Err(e);
            },
            Ok(v) => v,
        };
        make_request(self.url.clone(), self.method.clone(), hs, v, Some(clone_bytes(&self.body)))
    }
}

/// Copy an optional timestamp column.
pub fn clone_opt_string(o: &Option<String>) -> (r: Option<String>)
    ensures
        opt_view(r) == opt_view(*o),
{
    match o {
        Some(s) => Some(s.clone()),
        None => None,
    }
}

impl RequestRecord {
    /// Copy this row.
    pub fn duplicate(&self) -> (r: RequestRecord)
        ensures
            r@ == self@,
    {
        RequestRecord {
            id: self.id,
            created_at: self.created_at.clone(),
            updated_at: clone_opt_string(&self.updated_at),
            deleted_at: clone_opt_string(&self.deleted_at),
            namespace: self.namespace.clone(),
            method: self.method.clone(),
            version: self.version.clone(),
            url: self.url.clone(),
            header: clone_bytes(&self.header),
            body: clone_bytes(&self.body),
        }
    }
}

impl ResponseRecord {
    /// Copy this row.
    pub fn duplicate(&self) -> (r: ResponseRecord)
        ensures
            r@ == self@,
    {
        ResponseRecord {
            id: self.id,
            namespace: self.namespace.clone(),
            request_id: self.request_id,
            status_code: self.status_code,
            header: clone_bytes(&self.header),
            body: clone_bytes(&self.body),
            received_at: self.received_at.clone(),
            deleted_at: clone_opt_string(&self.deleted_at),
        }
    }
}

/// Round-trip identity: a request that construction produced, encoded into
/// its row and decoded back, is returned unchanged — same method, URL,
/// version, header pairs, and body. Every well-formed request round-trips,
/// under any namespace, id, and timestamp.
pub proof fn lemma_request_round_trip(
    q: RequestV,
    namespace: Seq<char>,
    id: int,
    created_at: Seq<char>,
)
    requires
        request_wf(q),
    ensures
        decode_request_record(encode_request_record(q, namespace, id, created_at))
            == Ok::<RequestV, ApibotError>(q),
{
    let r = encode_request_record(q, namespace, id, created_at);
    lemma_header_round_trip(q.headers);
    lemma_version_round_trip(q.version);
    lemma_normalize_idempotent(q.url);
    lemma_collapse_identity(q.headers);
}

/// Empty-body normalization: a request built with no body carries the empty
/// body, and its row decodes back to the empty body — never an absent one.
pub proof fn lemma_empty_body_normalization(
    url: Seq<char>,
    method: Seq<char>,
    headers: Seq<(Seq<u8>, Seq<u8>)>,
    http_version: Version,
    namespace: Seq<char>,
    id: int,
    created_at: Seq<char>,
)
    requires
        valid_method(method),
    ensures
        ({
            let q = make_request_spec(url, method, headers, http_version, None)->Ok_0;
            &&& q.body == Seq::<u8>::empty()
            &&& decode_request_record(encode_request_record(q, namespace, id, created_at))
                matches Ok(d) && d.body == Seq::<u8>::empty()
        }),
{
    let q = make_request_spec(url, method, headers, http_version, None)->Ok_0;
    lemma_normalize_idempotent(url);
    crate::codec::lemma_collapse_unique(headers);
    lemma_request_round_trip(q, namespace, id, created_at);
}

} // verus!
