//! The storage image: the request and response tables and their rules.
//!
//! A `Store` is the in-memory image of the two tables the engine works on.
//! Ids are assigned by the store, strictly increasing with insertion, so
//! most-recent-first order is descending id order (creation timestamps are
//! taken once at insert, in that same order). Every response row references
//! an existing request row; soft-deleted rows stay in the store and are
//! excluded from listings (of both kinds, the one consistent policy) but
//! remain reachable by id.

use vstd::prelude::*;
use vstd::string::*;

use crate::codec::{clone_bytes, collapse_headers, headers_to_string};
use crate::http::from_http_version;
use crate::model::{
    encode_request_record, encode_response_record, Request, RequestRecord, RequestRecordV,
    RequestV, ResponseRecord, ResponseRecordV, TransportResponse, TransportResponseV,
};

verus! {

/// The file name of the storage database, placed under the app's home
/// directory by the surrounding program.
pub fn db_name() -> (r: String)
    ensures
        r@ == "apibot_db"@,
{
    "apibot_db".to_owned()
}

/// The path of the storage database under a given home directory.
pub fn path_to_db(home_dir: &str) -> (r: String)
    ensures
        r@ == home_dir@ + "/.apibot/apibot_db"@,
{
    let mut r = String::from_str(home_dir);
    r.append("/.apibot/apibot_db");
    r
}

/// The mathematical value of the store: the two table contents and the two
/// id counters.
pub struct StoreV {
    pub requests: Seq<RequestRecordV>,
    pub responses: Seq<ResponseRecordV>,
    pub next_request_id: int,
    pub next_response_id: int,
}

/// The views of a table's rows.
pub open spec fn reqs_view(v: Seq<RequestRecord>) -> Seq<RequestRecordV> {
    v.map_values(|r: RequestRecord| r@)
}

/// The views of a response table's rows.
pub open spec fn resps_view(v: Seq<ResponseRecord>) -> Seq<ResponseRecordV> {
    v.map_values(|r: ResponseRecord| r@)
}

/// What always holds of the store: ids are at least 1, strictly increasing
/// within each table, below the table's next id, and every response row
/// references an existing request row.
pub open spec fn store_wf(m: StoreV) -> bool {
    &&& 1 <= m.next_request_id
    &&& 1 <= m.next_response_id
    &&& forall|i: int|
        0 <= i < m.requests.len() ==> 1 <= (#[trigger] m.requests[i]).id < m.next_request_id
    &&& forall|i: int, j: int|
        0 <= i < j < m.requests.len() ==> (#[trigger] m.requests[i]).id < (
        #[trigger] m.requests[j]).id
    &&& forall|i: int|
        0 <= i < m.responses.len() ==> 1 <= (#[trigger] m.responses[i]).id < m.next_response_id
    &&& forall|i: int, j: int|
        0 <= i < j < m.responses.len() ==> (#[trigger] m.responses[i]).id < (
        #[trigger] m.responses[j]).id
    &&& forall|i: int|
        0 <= i < m.responses.len() ==> exists|j: int|
            0 <= j < m.requests.len() && (#[trigger] m.responses[i]).request_id == (
            #[trigger] m.requests[j]).id
}

/// The in-memory image of the storage tables the engine works on. The
/// surrounding program fills it from the database file row by row and
/// mirrors every insertion back to the file.
pub struct Store {
    pub requests: Vec<RequestRecord>,
    pub responses: Vec<ResponseRecord>,
    pub next_request_id: i64,
    pub next_response_id: i64,
}

impl View for Store {
    type V = StoreV;

    open spec fn view(&self) -> StoreV {
        StoreV {
            requests: reqs_view(self.requests@),
            responses: resps_view(self.responses@),
            next_request_id: self.next_request_id as int,
            next_response_id: self.next_response_id as int,
        }
    }
}

/// Persisting a request: its row, carrying the next request id, is appended
/// to the request table.
pub open spec fn store_request_tr(
    m: StoreV,
    q: RequestV,
    namespace: Seq<char>,
    created_at: Seq<char>,
) -> StoreV {
    StoreV {
        requests: m.requests.push(
            encode_request_record(q, namespace, m.next_request_id, created_at),
        ),
        responses: m.responses,
        next_request_id: m.next_request_id + 1,
        next_response_id: m.next_response_id,
    }
}

/// Persisting a response: its row, carrying the next response id and the
/// owning request id, is appended to the response table.
pub open spec fn store_response_tr(
    m: StoreV,
    request_id: int,
    resp: TransportResponseV,
    namespace: Seq<char>,
    received_at: Seq<char>,
) -> StoreV {
    StoreV {
        requests: m.requests,
        responses: m.responses.push(
            encode_response_record(resp, namespace, m.next_response_id, request_id, received_at),
        ),
        next_request_id: m.next_request_id,
        next_response_id: m.next_response_id + 1,
    }
}

impl Store {
    /// Whether the store invariant holds.
    pub open spec fn wf(&self) -> bool {
        store_wf(self@)
    }

    /// An empty store: what the bootstrapped database file starts as.
    pub fn new() -> (s: Store)
        ensures
            s.wf(),
            s@.requests == Seq::<RequestRecordV>::empty(),
            s@.responses == Seq::<ResponseRecordV>::empty(),
            s@.next_request_id == 1,
            s@.next_response_id == 1,
    {
        let s = Store {
            requests: Vec::new(),
            responses: Vec::new(),
            next_request_id: 1,
            next_response_id: 1,
        };
        proof {
            assert(s@.requests =~= Seq::<RequestRecordV>::empty());
            assert(s@.responses =~= Seq::<ResponseRecordV>::empty());
        }
        s
    }

    /// The id the next persisted request row will carry.
    pub fn request_id_counter(&self) -> (r: i64)
        ensures
            r as int == self@.next_request_id,
    {
        self.next_request_id
    }

    /// The id the next persisted response row will carry.
    pub fn response_id_counter(&self) -> (r: i64)
        ensures
            r as int == self@.next_response_id,
    {
        self.next_response_id
    }
}

/// Persist a request: encode it into its row under the given namespace and
/// creation timestamp, append the row, and hand back its assigned id.
pub fn store_request(
    store: &mut Store,
    request: &Request,
    namespace: String,
    created_at: String,
) -> (id: i64)
    requires
        old(store).wf(),
        old(store)@.next_request_id < i64::MAX,
    ensures
        final(store).wf(),
        final(store)@ == store_request_tr(old(store)@, request@, namespace@, created_at@),
        id as int == old(store)@.next_request_id,
{
    let id = store.next_request_id;
    let rec = RequestRecord {
        id,
        created_at,
        updated_at: None,
        deleted_at: None,
        namespace,
        method: request.method.clone(),
        version: from_http_version(request.version),
        url: request.url.clone(),
        header: headers_to_string(&request.headers),
        body: clone_bytes(&request.body),
    };
    proof {
        assert(reqs_view(store.requests@.push(rec)) =~= reqs_view(store.requests@).push(rec@));
    }
    store.requests.push(rec);
    store.next_request_id = id + 1;
    proof {
        assert(store@ =~~= store_request_tr(old(store)@, request@, namespace@, created_at@));
        let m = store@;
        let m0 = old(store)@;
        assert(m.requests.len() == m0.requests.len() + 1);
        assert(m.requests[m0.requests.len() as int].id == m0.next_request_id);
        assert(forall|i: int|
            0 <= i < m0.requests.len() ==> m.requests[i] == #[trigger] m0.requests[i]);
        assert(forall|i: int|
            0 <= i < m0.responses.len() ==> m.responses[i] == #[trigger] m0.responses[i]);
        assert forall|i: int| 0 <= i < m.responses.len() implies exists|j: int|
            0 <= j < m.requests.len() && (#[trigger] m.responses[i]).request_id == (
            #[trigger] m.requests[j]).id by {
            let j0 = choose|j: int|
                0 <= j < m0.requests.len() && (#[trigger] m0.requests[j]).id
                    == m0.responses[i].request_id;
            assert(0 <= j0 < m.requests.len() && m.responses[i].request_id == m.requests[j0].id);
        }
    }
    id
}

/// Persist a response under its owning request id: encode it into its row
/// (headers collapsed as always, body stored in full) and hand the drained
/// body back for display. The owning request row must exist; a response is
/// only ever written as a consequence of executing it.
pub fn store_response(
    store: &mut Store,
    request_id: i64,
    resp: &TransportResponse,
    namespace: String,
    received_at: String,
) -> (body: Vec<u8>)
    requires
        old(store).wf(),
        old(store)@.next_response_id < i64::MAX,
        exists|j: int|
            0 <= j < old(store)@.requests.len() && (#[trigger] old(store)@.requests[j]).id
                == request_id as int,
    ensures
        final(store).wf(),
        final(store)@ == store_response_tr(
            old(store)@,
            request_id as int,
            resp@,
            namespace@,
            received_at@,
        ),
        body@ == resp@.body,
{
    let id = store.next_response_id;
    let hs = collapse_headers(&resp.headers);
    let rec = ResponseRecord {
        id,
        namespace,
        request_id,
        status_code: resp.status_code as i32,
        header: headers_to_string(&hs),
        body: clone_bytes(&resp.body),
        received_at,
        deleted_at: None,
    };
    proof {
        assert(resps_view(store.responses@.push(rec)) =~= resps_view(store.responses@).push(rec@));
    }
    store.responses.push(rec);
    store.next_response_id = id + 1;
    proof {
        assert(store@ =~~= store_response_tr(
            old(store)@,
            request_id as int,
            resp@,
            namespace@,
            received_at@,
        ));
        let m = store@;
        let m0 = old(store)@;
        assert(m.requests == m0.requests);
        assert forall|i: int| 0 <= i < m.responses.len() implies exists|j: int|
            0 <= j < m.requests.len() && (#[trigger] m.responses[i]).request_id == (
            #[trigger] m.requests[j]).id by {
            if i < m0.responses.len() {
                assert(m.responses[i] == m0.responses[i]);
                let j0 = choose|j: int|
                    0 <= j < m0.requests.len() && (#[trigger] m0.requests[j]).id
                        == m0.responses[i].request_id;
                assert(0 <= j0 < m.requests.len() && m.responses[i].request_id
                    == m.requests[j0].id);
            } else {
                assert(m.responses[i].request_id == request_id as int);
                let j0 = choose|j: int|
                    0 <= j < m0.requests.len() && (#[trigger] m0.requests[j]).id
                        == request_id as int;
                assert(0 <= j0 < m.requests.len() && m.responses[i].request_id
                    == m.requests[j0].id);
            }
        }
    }
    clone_bytes(&resp.body)
}

/// Rebuild one request row loaded from the database file; rows must arrive
/// in ascending id order. A row whose id is out of order or out of range is
/// refused and the store left unchanged.
pub fn load_request(store: &mut Store, rec: RequestRecord) -> (ok: bool)
    requires
        old(store).wf(),
    ensures
        final(store).wf(),
        rec@.id >= old(store)@.next_request_id && rec@.id < i64::MAX ==> ok && final(store)@
            == (StoreV {
            requests: old(store)@.requests.push(rec@),
            next_request_id: rec@.id + 1,
            ..old(store)@
        }),
        !(rec@.id >= old(store)@.next_request_id && rec@.id < i64::MAX) ==> !ok && final(store)@
            == old(store)@,
{
    if rec.id >= store.next_request_id && rec.id < i64::MAX {
        let ghost recv = rec@;
        proof {
            assert(reqs_view(store.requests@.push(rec)) =~= reqs_view(store.requests@).push(rec@));
        }
        store.next_request_id = rec.id + 1;
        store.requests.push(rec);
        proof {
            let m = store@;
            let m0 = old(store)@;
            assert(m.requests =~= m0.requests.push(recv));
            assert(forall|i: int|
                0 <= i < m0.requests.len() ==> m.requests[i] == #[trigger] m0.requests[i]);
            assert(forall|i: int|
                0 <= i < m0.responses.len() ==> m.responses[i] == #[trigger] m0.responses[i]);
            assert forall|i: int| 0 <= i < m.responses.len() implies exists|j: int|
                0 <= j < m.requests.len() && (#[trigger] m.responses[i]).request_id == (
                #[trigger] m.requests[j]).id by {
                let j0 = choose|j: int|
                    0 <= j < m0.requests.len() && (#[trigger] m0.requests[j]).id
                        == m0.responses[i].request_id;
                assert(0 <= j0 < m.requests.len() && m.responses[i].request_id
                    == m.requests[j0].id);
            }
            assert(m =~~= (StoreV {
                requests: m0.requests.push(recv),
                next_request_id: recv.id + 1,
                ..m0
            }));
        }
        true
    } else {
        false
    }
}

/// Rebuild one response row loaded from the database file; rows must
/// arrive in ascending id order and reference a loaded request row.
pub fn load_response(store: &mut Store, rec: ResponseRecord) -> (ok: bool)
    requires
        old(store).wf(),
    ensures
        final(store).wf(),
        ({
            let fits = rec@.id >= old(store)@.next_response_id && rec@.id < i64::MAX && exists|
                j: int,
            |
                0 <= j < old(store)@.requests.len() && (#[trigger] old(store)@.requests[j]).id
                    == rec@.request_id;
            if fits {
                ok && final(store)@ == (StoreV {
                    responses: old(store)@.responses.push(rec@),
                    next_response_id: rec@.id + 1,
                    ..old(store)@
                })
            } else {
                !ok && final(store)@ == old(store)@
            }
        }),
{
    let referenced = contains_request(store, rec.request_id);
    if rec.id >= store.next_response_id && rec.id < i64::MAX && referenced {
        let ghost recv = rec@;
        proof {
            assert(resps_view(store.responses@.push(rec)) =~= resps_view(store.responses@).push(
                rec@,
            ));
        }
        store.next_response_id = rec.id + 1;
        store.responses.push(rec);
        proof {
            let m = store@;
            let m0 = old(store)@;
            assert(m.responses =~= m0.responses.push(recv));
            assert(m.requests == m0.requests);
            assert(forall|i: int|
                0 <= i < m0.responses.len() ==> m.responses[i] == #[trigger] m0.responses[i]);
            assert forall|i: int| 0 <= i < m.responses.len() implies exists|j: int|
                0 <= j < m.requests.len() && (#[trigger] m.responses[i]).request_id == (
                #[trigger] m.requests[j]).id by {
                if i < m0.responses.len() {
                    let j0 = choose|j: int|
                        0 <= j < m0.requests.len() && (#[trigger] m0.requests[j]).id
                            == m0.responses[i].request_id;
                    assert(0 <= j0 < m.requests.len() && m.responses[i].request_id
                        == m.requests[j0].id);
                } else {
                    assert(m.responses[i] == recv);
                    let j0 = choose|j: int|
                        0 <= j < m0.requests.len() && (#[trigger] m0.requests[j]).id
                            == recv.request_id;
                    assert(0 <= j0 < m.requests.len() && m.responses[i].request_id
                        == m.requests[j0].id);
                }
            }
            assert(m =~~= (StoreV {
                responses: m0.responses.push(recv),
                next_response_id: recv.id + 1,
                ..m0
            }));
        }
        true
    } else {
        false
    }
}

/// The listing rule: newest rows first (descending id, which is insertion
/// and creation order), soft-deleted rows excluded, at most `limit` rows.
pub open spec fn list_requests_spec(rs: Seq<RequestRecordV>, limit: nat) -> Seq<RequestRecordV>
    decreases rs.len(),
{
    if rs.len() == 0 || limit == 0 {
        Seq::empty()
    } else if rs.last().deleted_at is None {
        seq![rs.last()] + list_requests_spec(rs.drop_last(), (limit - 1) as nat)
    } else {
        list_requests_spec(rs.drop_last(), limit)
    }
}

/// The same listing rule for response rows.
pub open spec fn list_responses_spec(rs: Seq<ResponseRecordV>, limit: nat) -> Seq<ResponseRecordV>
    decreases rs.len(),
{
    if rs.len() == 0 || limit == 0 {
        Seq::empty()
    } else if rs.last().deleted_at is None {
        seq![rs.last()] + list_responses_spec(rs.drop_last(), (limit - 1) as nat)
    } else {
        list_responses_spec(rs.drop_last(), limit)
    }
}

/// List stored requests, most recent first, soft-deleted rows excluded,
/// at most `limit` rows; an empty listing is not an error.
pub fn retrive_requests(store: &Store, limit: u32) -> (r: Vec<RequestRecord>)
    ensures
        reqs_view(r@) == list_requests_spec(store@.requests, limit as nat),
{
    let ghost rs = store@.requests;
    let mut out: Vec<RequestRecord> = Vec::new();
    let mut i: usize = store.requests.len();
    proof {
        assert(rs.take(i as int) =~= rs);
    }
    while i > 0 && out.len() < limit as usize
        invariant
            0 <= i <= store.requests@.len(),
            rs == store@.requests,
            out@.len() <= limit,
            reqs_view(out@) + list_requests_spec(rs.take(i as int), (limit - out@.len()) as nat)
                == list_requests_spec(rs, limit as nat),
        decreases i,
    {
        let rec = &store.requests[i - 1];
        proof {
            assert(rs.take(i as int).last() == rs[i - 1]);
            assert(rs.take(i as int).drop_last() =~= rs.take(i - 1));
            assert(rs[i - 1] == store.requests@[i - 1]@);
        }
        if rec.deleted_at.is_none() {
            let d = rec.duplicate();
            proof {
                let k = (limit - out@.len()) as nat;
                assert(list_requests_spec(rs.take(i as int), k) == seq![rs[i - 1]]
                    + list_requests_spec(rs.take(i - 1), (k - 1) as nat));
                assert(reqs_view(out@.push(d)) =~= reqs_view(out@).push(rs[i - 1]));
                assert(reqs_view(out@).push(rs[i - 1]) + list_requests_spec(
                    rs.take(i - 1),
                    (k - 1) as nat,
                ) =~= reqs_view(out@) + (seq![rs[i - 1]] + list_requests_spec(
                    rs.take(i - 1),
                    (k - 1) as nat,
                )));
            }
            out.push(d);
        }
        i = i - 1;
    }
    proof {
        if i == 0 {
            assert(rs.take(0) =~= Seq::<RequestRecordV>::empty());
            assert(list_requests_spec(rs.take(0), (limit - out@.len()) as nat)
                =~= Seq::<RequestRecordV>::empty());
        } else {
            assert(out@.len() == limit);
            assert(list_requests_spec(rs.take(i as int), 0) =~= Seq::<RequestRecordV>::empty());
        }
        assert(reqs_view(out@) + Seq::<RequestRecordV>::empty() =~= reqs_view(out@));
    }
    out
}

/// List stored responses under the same rule.
pub fn retrive_responses(store: &Store, limit: u32) -> (r: Vec<ResponseRecord>)
    ensures
        resps_view(r@) == list_responses_spec(store@.responses, limit as nat),
{
    let ghost rs = store@.responses;
    let mut out: Vec<ResponseRecord> = Vec::new();
    let mut i: usize = store.responses.len();
    proof {
        assert(rs.take(i as int) =~= rs);
    }
    while i > 0 && out.len() < limit as usize
        invariant
            0 <= i <= store.responses@.len(),
            rs == store@.responses,
            out@.len() <= limit,
            resps_view(out@) + list_responses_spec(rs.take(i as int), (limit - out@.len()) as nat)
                == list_responses_spec(rs, limit as nat),
        decreases i,
    {
        let rec = &store.responses[i - 1];
        proof {
            assert(rs.take(i as int).last() == rs[i - 1]);
            assert(rs.take(i as int).drop_last() =~= rs.take(i - 1));
            assert(rs[i - 1] == store.responses@[i - 1]@);
        }
        if rec.deleted_at.is_none() {
            let d = rec.duplicate();
            proof {
                let k = (limit - out@.len()) as nat;
                assert(list_responses_spec(rs.take(i as int), k) == seq![rs[i - 1]]
                    + list_responses_spec(rs.take(i - 1), (k - 1) as nat));
                assert(resps_view(out@.push(d)) =~= resps_view(out@).push(rs[i - 1]));
                assert(resps_view(out@).push(rs[i - 1]) + list_responses_spec(
                    rs.take(i - 1),
                    (k - 1) as nat,
                ) =~= resps_view(out@) + (seq![rs[i - 1]] + list_responses_spec(
                    rs.take(i - 1),
                    (k - 1) as nat,
                )));
            }
            out.push(d);
        }
        i = i - 1;
    }
    proof {
        if i == 0 {
            assert(rs.take(0) =~= Seq::<ResponseRecordV>::empty());
            assert(list_responses_spec(rs.take(0), (limit - out@.len()) as nat)
                =~= Seq::<ResponseRecordV>::empty());
        } else {
            assert(out@.len() == limit);
            assert(list_responses_spec(rs.take(i as int), 0) =~= Seq::<ResponseRecordV>::empty());
        }
        assert(resps_view(out@) + Seq::<ResponseRecordV>::empty() =~= resps_view(out@));
    }
    out
}

/// The get-by-id rule: the first row carrying the id, soft-deleted or not
/// (a soft-deleted request stays reachable for retry).
pub open spec fn find_request_spec(rs: Seq<RequestRecordV>, id: int) -> Option<RequestRecordV>
    decreases rs.len(),
{
    if rs.len() == 0 {
        None
    } else if rs[0].id == id {
        Some(rs[0])
    } else {
        find_request_spec(rs.drop_first(), id)
    }
}

/// What a found row means: it carries the id and sits in the table; a miss
/// means no row carries the id.
pub proof fn lemma_find_characterizes(rs: Seq<RequestRecordV>, id: int)
    ensures
        find_request_spec(rs, id) matches Some(rec) ==> rec.id == id && exists|j: int|
            0 <= j < rs.len() && #[trigger] rs[j] == rec,
        find_request_spec(rs, id) is None ==> forall|j: int|
            0 <= j < rs.len() ==> (#[trigger] rs[j]).id != id,
    decreases rs.len(),
{
    if rs.len() == 0 {
    } else if rs[0].id == id {
        assert(rs[0] == rs[0]);
    } else {
        lemma_find_characterizes(rs.drop_first(), id);
        match find_request_spec(rs, id) {
            Some(rec) => {
                let j0 = choose|j: int|
                    0 <= j < rs.drop_first().len() && #[trigger] rs.drop_first()[j] == rec;
                assert(rs[j0 + 1] == rec);
            },
            None => {
                assert(forall|j: int|
                    1 <= j < rs.len() ==> (#[trigger] rs[j]) == rs.drop_first()[j - 1]);
            },
        }
    }
}

/// A fresh row appended behind rows with smaller ids is found by its id.
pub proof fn lemma_find_pushed(rs: Seq<RequestRecordV>, rec: RequestRecordV)
    requires
        forall|j: int| 0 <= j < rs.len() ==> (#[trigger] rs[j]).id != rec.id,
    ensures
        find_request_spec(rs.push(rec), rec.id) == Some(rec),
    decreases rs.len(),
{
    if rs.len() == 0 {
        assert(rs.push(rec)[0] == rec);
    } else {
        assert(rs.push(rec)[0] == rs[0]);
        assert(rs.push(rec).drop_first() =~= rs.drop_first().push(rec));
        assert(forall|j: int|
            0 <= j < rs.drop_first().len() ==> (#[trigger] rs.drop_first()[j]) == rs[j + 1]);
        lemma_find_pushed(rs.drop_first(), rec);
    }
}

/// Fetch the one row carrying an id, or nothing.
pub fn retrive_resource_by_id(store: &Store, id: i64) -> (r: Option<RequestRecord>)
    ensures
        match r {
            Some(rec) => find_request_spec(store@.requests, id as int) == Some(rec@),
            None => find_request_spec(store@.requests, id as int) is None,
        },
{
    let ghost rs = store@.requests;
    let mut i: usize = 0;
    proof {
        assert(rs.skip(0) =~= rs);
    }
    while i < store.requests.len()
        invariant
            0 <= i <= store.requests@.len(),
            rs == store@.requests,
            find_request_spec(rs, id as int) == find_request_spec(rs.skip(i as int), id as int),
        decreases store.requests@.len() - i,
    {
        proof {
            assert(rs.skip(i as int)[0] == rs[i as int]);
            assert(rs[i as int] == store.requests@[i as int]@);
            assert(rs.skip(i as int).drop_first() =~= rs.skip(i + 1));
        }
        if store.requests[i].id == id {
            return Some(store.requests[i].duplicate());
        }
        i = i + 1;
    }
    proof {
        assert(rs.skip(i as int).len() == 0);
    }
    None
}

/// Whether some request row carries the id.
pub fn contains_request(store: &Store, id: i64) -> (r: bool)
    ensures
        r == exists|j: int|
            0 <= j < store@.requests.len() && (#[trigger] store@.requests[j]).id == id as int,
{
    let found = retrive_resource_by_id(store, id);
    proof {
        lemma_find_characterizes(store@.requests, id as int);
        match find_request_spec(store@.requests, id as int) {
            Some(rec) => {
                let j0 = choose|j: int|
                    0 <= j < store@.requests.len() && #[trigger] store@.requests[j] == rec;
                assert(store@.requests[j0].id == id as int);
            },
            None => {},
        }
    }
    found.is_some()
}

/// Every listed row is a stored row.
proof fn lemma_list_requests_members(rs: Seq<RequestRecordV>, limit: nat)
    ensures
        forall|k: int|
            0 <= k < list_requests_spec(rs, limit).len() ==> exists|j: int|
                0 <= j < rs.len() && #[trigger] list_requests_spec(rs, limit)[k] == rs[j],
    decreases rs.len(),
{
    let l = list_requests_spec(rs, limit);
    if rs.len() == 0 || limit == 0 {
    } else if rs.last().deleted_at is None {
        lemma_list_requests_members(rs.drop_last(), (limit - 1) as nat);
        let tail = list_requests_spec(rs.drop_last(), (limit - 1) as nat);
        assert forall|k: int| 0 <= k < l.len() implies exists|j: int|
            0 <= j < rs.len() && #[trigger] l[k] == rs[j] by {
            if k == 0 {
                assert(l[0] == rs[rs.len() - 1]);
            } else {
                assert(l[k] == tail[k - 1]);
                let j0 = choose|j: int| 0 <= j < rs.drop_last().len() && #[trigger] tail[k - 1] == rs.drop_last()[j];
                assert(l[k] == rs[j0]);
            }
        }
    } else {
        lemma_list_requests_members(rs.drop_last(), limit);
        let tail = list_requests_spec(rs.drop_last(), limit);
        assert forall|k: int| 0 <= k < l.len() implies exists|j: int|
            0 <= j < rs.len() && #[trigger] l[k] == rs[j] by {
            let j0 = choose|j: int| 0 <= j < rs.drop_last().len() && #[trigger] tail[k] == rs.drop_last()[j];
            assert(l[k] == rs[j0]);
        }
    }
}

/// Limit and ordering: a listing holds at most `limit` rows, strictly
/// ordered newest first (descending id, which is descending creation
/// order), and only rows that are not soft-deleted.
pub proof fn lemma_limit_and_ordering(rs: Seq<RequestRecordV>, limit: nat)
    requires
        forall|i: int, j: int|
            0 <= i < j < rs.len() ==> (#[trigger] rs[i]).id < (#[trigger] rs[j]).id,
    ensures
        list_requests_spec(rs, limit).len() <= limit,
        forall|k1: int, k2: int|
            0 <= k1 < k2 < list_requests_spec(rs, limit).len() ==> (#[trigger] list_requests_spec(
                rs,
                limit,
            )[k1]).id > (#[trigger] list_requests_spec(rs, limit)[k2]).id,
        forall|k: int|
            0 <= k < list_requests_spec(rs, limit).len() ==> (#[trigger] list_requests_spec(
                rs,
                limit,
            )[k]).deleted_at is None,
    decreases rs.len(),
{
    let l = list_requests_spec(rs, limit);
    if rs.len() == 0 || limit == 0 {
    } else {
        assert(forall|i: int, j: int|
            0 <= i < j < rs.drop_last().len() ==> (#[trigger] rs.drop_last()[i]).id < (
            #[trigger] rs.drop_last()[j]).id);
        if rs.last().deleted_at is None {
            lemma_limit_and_ordering(rs.drop_last(), (limit - 1) as nat);
            lemma_list_requests_members(rs.drop_last(), (limit - 1) as nat);
            let tail = list_requests_spec(rs.drop_last(), (limit - 1) as nat);
            assert forall|k1: int, k2: int| 0 <= k1 < k2 < l.len() implies (#[trigger] l[k1]).id > (
            #[trigger] l[k2]).id by {
                if k1 == 0 {
                    assert(l[0] == rs.last());
                    assert(l[k2] == tail[k2 - 1]);
                    let j0 = choose|j: int|
                        0 <= j < rs.drop_last().len() && #[trigger] tail[k2 - 1]
                            == rs.drop_last()[j];
                    assert(rs[j0].id < rs.last().id);
                } else {
                    assert(l[k1] == tail[k1 - 1] && l[k2] == tail[k2 - 1]);
                }
            }
            assert forall|k: int| 0 <= k < l.len() implies (#[trigger] l[k]).deleted_at
                is None by {
                if k > 0 {
                    assert(l[k] == tail[k - 1]);
                }
            }
        } else {
            lemma_limit_and_ordering(rs.drop_last(), limit);
        }
    }
}

/// Soft-delete exclusion, both halves: a soft-deleted request row never
/// appears in a listing of any limit, yet stays retrievable by its id, so
/// retry still reaches it.
pub proof fn lemma_soft_delete_exclusion(rs: Seq<RequestRecordV>, limit: nat, i: int)
    requires
        forall|i1: int, j1: int|
            0 <= i1 < j1 < rs.len() ==> (#[trigger] rs[i1]).id < (#[trigger] rs[j1]).id,
        0 <= i < rs.len(),
    ensures
        rs[i].deleted_at is Some ==> forall|k: int|
            0 <= k < list_requests_spec(rs, limit).len() ==> #[trigger] list_requests_spec(
                rs,
                limit,
            )[k] != rs[i],
        find_request_spec(rs, rs[i].id) == Some(rs[i]),
    decreases rs.len(),
{
    lemma_limit_and_ordering(rs, limit);
    if rs[i].deleted_at is Some {
        assert(forall|k: int|
            0 <= k < list_requests_spec(rs, limit).len() ==> (#[trigger] list_requests_spec(
                rs,
                limit,
            )[k]).deleted_at is None);
    }
    if i == 0 {
    } else {
        assert(rs[0].id < rs[i].id);
        assert(forall|i1: int, j1: int|
            0 <= i1 < j1 < rs.drop_first().len() ==> (#[trigger] rs.drop_first()[i1]).id < (
            #[trigger] rs.drop_first()[j1]).id);
        lemma_soft_delete_exclusion(rs.drop_first(), limit, i - 1);
        assert(rs.drop_first()[i - 1] == rs[i]);
    }
}

/// A newer live row displaces the oldest: listing after an append is the
/// new row followed by the old listing cut to one less.
pub proof fn lemma_newer_displaces(rs: Seq<RequestRecordV>, rec: RequestRecordV, limit: nat)
    requires
        limit >= 1,
        rec.deleted_at is None,
    ensures
        list_requests_spec(rs.push(rec), limit) == seq![rec] + list_requests_spec(
            rs,
            (limit - 1) as nat,
        ),
{
    assert(rs.push(rec).last() == rec);
    assert(rs.push(rec).drop_last() =~= rs);
}

/// A listing under a smaller limit is a pointwise prefix of the listing
/// under a larger one: shrinking the limit only cuts rows off the old end,
/// so with `lemma_newer_displaces` an append under a full listing keeps
/// all but the oldest listed row.
pub proof fn lemma_list_prefix(rs: Seq<RequestRecordV>, k1: nat, k2: nat)
    requires
        k1 <= k2,
    ensures
        list_requests_spec(rs, k1).len() <= list_requests_spec(rs, k2).len(),
        forall|i: int|
            0 <= i < list_requests_spec(rs, k1).len() ==> #[trigger] list_requests_spec(
                rs,
                k1,
            )[i] == list_requests_spec(rs, k2)[i],
    decreases rs.len(),
{
    let l1 = list_requests_spec(rs, k1);
    let l2 = list_requests_spec(rs, k2);
    if rs.len() == 0 || k1 == 0 {
    } else if rs.last().deleted_at is None {
        lemma_list_prefix(rs.drop_last(), (k1 - 1) as nat, (k2 - 1) as nat);
        let t1 = list_requests_spec(rs.drop_last(), (k1 - 1) as nat);
        let t2 = list_requests_spec(rs.drop_last(), (k2 - 1) as nat);
        assert forall|i: int| 0 <= i < l1.len() implies #[trigger] l1[i] == l2[i] by {
            if i > 0 {
                assert(l1[i] == t1[i - 1] && l2[i] == t2[i - 1]);
            }
        }
    } else {
        lemma_list_prefix(rs.drop_last(), k1, k2);
    }
}

/// Every listed response row is a stored row.
proof fn lemma_list_responses_members(rs: Seq<ResponseRecordV>, limit: nat)
    ensures
        forall|k: int|
            0 <= k < list_responses_spec(rs, limit).len() ==> exists|j: int|
                0 <= j < rs.len() && #[trigger] list_responses_spec(rs, limit)[k] == rs[j],
    decreases rs.len(),
{
    let l = list_responses_spec(rs, limit);
    if rs.len() == 0 || limit == 0 {
    } else if rs.last().deleted_at is None {
        lemma_list_responses_members(rs.drop_last(), (limit - 1) as nat);
        let tail = list_responses_spec(rs.drop_last(), (limit - 1) as nat);
        assert forall|k: int| 0 <= k < l.len() implies exists|j: int|
            0 <= j < rs.len() && #[trigger] l[k] == rs[j] by {
            if k == 0 {
                assert(l[0] == rs[rs.len() - 1]);
            } else {
                assert(l[k] == tail[k - 1]);
                let j0 = choose|j: int| 0 <= j < rs.drop_last().len() && #[trigger] tail[k - 1] == rs.drop_last()[j];
                assert(l[k] == rs[j0]);
            }
        }
    } else {
        lemma_list_responses_members(rs.drop_last(), limit);
        let tail = list_responses_spec(rs.drop_last(), limit);
        assert forall|k: int| 0 <= k < l.len() implies exists|j: int|
            0 <= j < rs.len() && #[trigger] l[k] == rs[j] by {
            let j0 = choose|j: int| 0 <= j < rs.drop_last().len() && #[trigger] tail[k] == rs.drop_last()[j];
            assert(l[k] == rs[j0]);
        }
    }
}

/// Limit and ordering for response listings: at most `limit` rows, strictly
/// newest first, only rows that are not soft-deleted.
pub proof fn lemma_response_limit_and_ordering(rs: Seq<ResponseRecordV>, limit: nat)
    requires
        forall|i: int, j: int|
            0 <= i < j < rs.len() ==> (#[trigger] rs[i]).id < (#[trigger] rs[j]).id,
    ensures
        list_responses_spec(rs, limit).len() <= limit,
        forall|k1: int, k2: int|
            0 <= k1 < k2 < list_responses_spec(rs, limit).len() ==> (#[trigger] list_responses_spec(
                rs,
                limit,
            )[k1]).id > (#[trigger] list_responses_spec(rs, limit)[k2]).id,
        forall|k: int|
            0 <= k < list_responses_spec(rs, limit).len() ==> (#[trigger] list_responses_spec(
                rs,
                limit,
            )[k]).deleted_at is None,
    decreases rs.len(),
{
    let l = list_responses_spec(rs, limit);
    if rs.len() == 0 || limit == 0 {
    } else {
        assert(forall|i: int, j: int|
            0 <= i < j < rs.drop_last().len() ==> (#[trigger] rs.drop_last()[i]).id < (
            #[trigger] rs.drop_last()[j]).id);
        if rs.last().deleted_at is None {
            lemma_response_limit_and_ordering(rs.drop_last(), (limit - 1) as nat);
            lemma_list_responses_members(rs.drop_last(), (limit - 1) as nat);
            let tail = list_responses_spec(rs.drop_last(), (limit - 1) as nat);
            assert forall|k1: int, k2: int| 0 <= k1 < k2 < l.len() implies (#[trigger] l[k1]).id > (
            #[trigger] l[k2]).id by {
                if k1 == 0 {
                    assert(l[0] == rs.last());
                    assert(l[k2] == tail[k2 - 1]);
                    let j0 = choose|j: int|
                        0 <= j < rs.drop_last().len() && #[trigger] tail[k2 - 1]
                            == rs.drop_last()[j];
                    assert(rs[j0].id < rs.last().id);
                } else {
                    assert(l[k1] == tail[k1 - 1] && l[k2] == tail[k2 - 1]);
                }
            }
            assert forall|k: int| 0 <= k < l.len() implies (#[trigger] l[k]).deleted_at
                is None by {
                if k > 0 {
                    assert(l[k] == tail[k - 1]);
                }
            }
        } else {
            lemma_response_limit_and_ordering(rs.drop_last(), limit);
        }
    }
}

} // verus!
