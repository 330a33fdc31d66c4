//! User commands: the values a parsed invocation carries, the small string
//! parsers behind them, and the dispatcher that turns a command into work
//! on the store.

use vstd::prelude::*;
use vstd::string::*;

use crate::codec::pairs_view;
use crate::db::{
    list_requests_spec, list_responses_spec, reqs_view, resps_view, retrive_requests,
    retrive_responses, store_request_tr, Store,
};
use crate::http::{parse_version, retry, retry_spec, send, Dispatch, Version};
use crate::model::{
    make_request_spec, opt_bytes_view, request_wf, RequestRecord, RequestV, ResponseRecord,
};
use crate::ApibotError;

verus! {

/// The kinds of stored resource a listing or description can name.
#[derive(Clone, Copy, Debug, PartialEq, Eq, Structural)]
pub enum ResourceType {
    Request,
    Response,
    Script,
}

/// What a resource-type word on the command line means.
pub open spec fn parse_resource_type_spec(s: Seq<char>) -> Option<ResourceType> {
    if s == "req"@ || s == "request"@ {
        Some(ResourceType::Request)
    } else if s == "resp"@ || s == "response"@ {
        Some(ResourceType::Response)
    } else if s == "script"@ {
        Some(ResourceType::Script)
    } else {
        None
    }
}

/// Parse a resource-type word; `None` is an unrecognized word, left to the
/// caller to report.
pub fn parse_resource_type(s: &str) -> (r: Option<ResourceType>)
    ensures
        r == parse_resource_type_spec(s@),
{
    let t = s.to_owned();
    if t == "req".to_owned() || t == "request".to_owned() {
        Some(ResourceType::Request)
    } else if t == "resp".to_owned() || t == "response".to_owned() {
        Some(ResourceType::Response)
    } else if t == "script".to_owned() {
        Some(ResourceType::Script)
    } else {
        None
    }
}

/// Parse a protocol-version word: exactly the five tags are accepted,
/// everything else is `UnknownProtocolVersion`.
pub fn parse_http_version(s: &str) -> (r: Result<Version, ApibotError>)
    ensures
        r == parse_version(s@),
{
    let t = s.to_owned();
    if t == "0.9".to_owned() {
        Ok(Version::Http09)
    } else if t == "1.0".to_owned() {
        Ok(Version::Http10)
    } else if t == "1.1".to_owned() {
        Ok(Version::Http11)
    } else if t == "2.0".to_owned() {
        Ok(Version::Http2)
    } else if t == "3.0".to_owned() {
        Ok(Version::Http3)
    } else {
        Err(ApibotError::UnknownProtocolVersion)
    }
}

/// No colon occurs among the first `n` characters.
pub open spec fn no_colon_before(s: Seq<char>, n: int) -> bool {
    forall|j: int| 0 <= j < n ==> s[j] != ':'
}

/// Split a `name:value` header argument at its first colon; `None` is an
/// argument without one, left to the caller to report.
pub fn parse_header(s: &str) -> (r: Option<(String, String)>)
    ensures
        match r {
            Some(p) => p.0@ + seq![':'] + p.1@ == s@ && no_colon_before(s@, p.0@.len() as int),
            None => no_colon_before(s@, s@.len() as int),
        },
{
    let n = s.unicode_len();
    let mut i: usize = 0;
    while i < n
        invariant
            0 <= i <= n == s@.len(),
            no_colon_before(s@, i as int),
        decreases n - i,
    {
        if s.get_char(i) == ':' {
            let k = s.substring_char(0, i).to_owned();
            let v = s.substring_char(i + 1, n).to_owned();
            proof {
                assert(k@ + seq![':'] + v@ =~= s@);
            }
            return Some((k, v));
        }
        i = i + 1;
    }
    None
}

/// The parts of a send invocation.
pub struct SendOptions {
    pub url: String,
    pub method: String,
    pub headers: Vec<(Vec<u8>, Vec<u8>)>,
    pub http: Version,
    pub data: Option<Vec<u8>>,
}

/// The parts of a list invocation.
pub struct ListOptions {
    pub resource_type: ResourceType,
    pub limit: u32,
}

/// The parts of a retry invocation.
pub struct RetryOptions {
    pub request_id: i64,
}

/// The parts of a describe invocation.
pub struct DescribeOptions {
    pub resource_type: ResourceType,
    pub request_id: i64,
}

/// One parsed invocation.
#[allow(inconsistent_fields)]
pub enum SubCommand {
    Send { options: SendOptions },
    List { options: ListOptions },
    Retry { options: RetryOptions },
    Describe { options: DescribeOptions },
}

/// What one dispatched command hands back: a request to put on the wire, a
/// listing, or the parts of a description to print.
pub enum Step {
    Dispatched(Dispatch),
    Requests(Vec<RequestRecord>),
    Responses(Vec<ResponseRecord>),
    Description { resource_type: ResourceType, request_id: i64 },
}

/// Dispatch one command against the store. A send persists the request row
/// and hands the built request back for transport; a retry reconstructs
/// the stored request under its original id; a listing reads rows under
/// the retrieval rule; a describe only echoes its arguments. Listing
/// scripts is not implemented and is excluded up front.
pub fn execute(store: &mut Store, cmd: SubCommand) -> (r: Result<Step, ApibotError>)
    requires
        old(store).wf(),
        old(store)@.next_request_id < i64::MAX,
        !(cmd matches SubCommand::List { options } && options.resource_type is Script),
    ensures
        final(store).wf(),
        match cmd {
            SubCommand::Send { options } => match r {
                Ok(step) => step matches Step::Dispatched(d) && ({
                    &&& make_request_spec(
                        options.url@,
                        options.method@,
                        pairs_view(options.headers@),
                        options.http,
                        opt_bytes_view(options.data),
                    ) == Ok::<RequestV, ApibotError>(d.request@)
                    &&& request_wf(d.request@)
                    &&& d.request_id as int == old(store)@.next_request_id
                    &&& exists|t: Seq<char>|
                        final(store)@ == #[trigger] store_request_tr(
                            old(store)@,
                            d.request@,
                            "default"@,
                            t,
                        )
                }),
                Err(e) => final(store)@ == old(store)@ && make_request_spec(
                    options.url@,
                    options.method@,
                    pairs_view(options.headers@),
                    options.http,
                    opt_bytes_view(options.data),
                ) == Err::<RequestV, ApibotError>(e),
            },
            SubCommand::List { options } => final(store)@ == old(store)@ && match r {
                Ok(step) => match options.resource_type {
                    ResourceType::Request => step matches Step::Requests(v) && reqs_view(v@)
                        == list_requests_spec(old(store)@.requests, options.limit as nat),
                    ResourceType::Response => step matches Step::Responses(v) && resps_view(v@)
                        == list_responses_spec(old(store)@.responses, options.limit as nat),
                    ResourceType::Script => false,
                },
                Err(_) => false,
            },
            SubCommand::Retry { options } => final(store)@ == old(store)@ && match r {
                Ok(step) => step matches Step::Dispatched(d) && ({
                    &&& retry_spec(old(store)@, options.request_id as int) == Ok::<
                        RequestV,
                        ApibotError,
                    >(d.request@)
                    &&& d.request_id == options.request_id
                    &&& request_wf(d.request@)
                }),
                Err(e) => retry_spec(old(store)@, options.request_id as int) == Err::<
                    RequestV,
                    ApibotError,
                >(e),
            },
            SubCommand::Describe { options } => final(store)@ == old(store)@ && match r {
                Ok(step) => step matches Step::Description { resource_type, request_id }
                    && resource_type == options.resource_type && request_id == options.request_id,
                Err(_) => false,
            },
        },
{
    match cmd {
        SubCommand::Send { options } => match send(store, options) {
            Ok(d) => Ok(Step::Dispatched(d)),
            Err(e) => Err(e),
        },
        SubCommand::List { options } => match options.resource_type {
            ResourceType::Request => Ok(Step::Requests(retrive_requests(store, options.limit))),
            ResourceType::Response => Ok(Step::Responses(retrive_responses(store, options.limit))),
            ResourceType::Script => vstd::pervasive::unreached(),
        },
        SubCommand::Retry { options } => match retry(store, options) {
            Ok(d) => Ok(Step::Dispatched(d)),
            Err(e) => Err(e),
        },
        SubCommand::Describe { options } => Ok(
            Step::Description {
                resource_type: options.resource_type,
                request_id: options.request_id,
            },
        ),
    }
}

} // verus!
