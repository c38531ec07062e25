//! Network requests: folding request, response and failure events into one
//! record per request, in first-seen order, and the text table.
use crate::text::{dec, owned, push_all, push_str, str_eq, string_from_chars, to_lowercase, to_lowercase_spec, u64_dec};
use vstd::prelude::*;

verus! {

/// A network protocol event, as far as the request records go.
pub enum NetworkEvent {
    /// `Network.requestWillBeSent` (method `GET` and type `Other` when absent).
    RequestWillBeSent { request_id: String, url: String, method: String, resource_type: String },
    /// `Network.responseReceived` (status 0 when absent).
    ResponseReceived { request_id: String, status: u64, status_text: String },
    /// `Network.loadingFailed` (error text `failed` when absent).
    LoadingFailed { request_id: String, error_text: String },
    /// Any other event.
    Other,
}

/// Where a request stands.
#[derive(Clone, Copy, Debug, PartialEq, Eq, Structural)]
pub enum RequestStatus {
    Pending,
    Code(u64),
    Failed,
}

/// One request's record.
pub struct NetworkRequest {
    pub request_id: String,
    pub url: String,
    pub method: String,
    pub resource_type: String,
    pub status: RequestStatus,
    pub status_text: Option<String>,
    pub error: Option<String>,
}

/// The view of a record: (id, url, method, type, status, status text, error).
pub open spec fn req_view(r: NetworkRequest) -> (
    Seq<char>,
    Seq<char>,
    Seq<char>,
    Seq<char>,
    RequestStatus,
    Option<Seq<char>>,
    Option<Seq<char>>,
) {
    (
        r.request_id@,
        r.url@,
        r.method@,
        r.resource_type@,
        r.status,
        match r.status_text {
            Some(s) => Some(s@),
            None => None,
        },
        match r.error {
            Some(s) => Some(s@),
            None => None,
        },
    )
}

pub type ReqView = (Seq<char>, Seq<char>, Seq<char>, Seq<char>, RequestStatus, Option<Seq<char>>, Option<Seq<char>>);

/// The position of request `id` among the records.
#[verifier::opaque]
pub open spec fn record_index(recs: Seq<ReqView>, id: Seq<char>) -> Option<int> {
    if exists|i: int| 0 <= i < recs.len() && recs[i].0 == id {
        Some(choose|i: int| 0 <= i < recs.len() && recs[i].0 == id)
    } else {
        None
    }
}

/// Request ids are distinct.
pub open spec fn ids_distinct(recs: Seq<ReqView>) -> bool {
    forall|i: int, j: int| 0 <= i < j < recs.len() ==> (#[trigger] recs[i]).0 != (#[trigger] recs[j]).0
}

/// The records after one more event: a new request starts its record
/// afresh (in place, for a redirect that reuses the id, or at the end); a
/// response or a failure updates the record of a known request and is
/// dropped otherwise.
pub open spec fn apply_event(recs: Seq<ReqView>, e: NetworkEvent) -> Seq<ReqView> {
    match e {
        NetworkEvent::RequestWillBeSent { request_id, url, method, resource_type } => {
            let rec = (request_id@, url@, method@, resource_type@, RequestStatus::Pending, None, None);
            match record_index(recs, request_id@) {
                Some(i) => recs.update(i, rec),
                None => recs.push(rec),
            }
        },
        NetworkEvent::ResponseReceived { request_id, status, status_text } => match record_index(
            recs,
            request_id@,
        ) {
            Some(i) => {
                let r = recs[i];
                recs.update(i, (r.0, r.1, r.2, r.3, RequestStatus::Code(status), Some(status_text@), r.6))
            },
            None => recs,
        },
        NetworkEvent::LoadingFailed { request_id, error_text } => match record_index(recs, request_id@) {
            Some(i) => {
                let r = recs[i];
                recs.update(i, (r.0, r.1, r.2, r.3, RequestStatus::Failed, r.5, Some(error_text@)))
            },
            None => recs,
        },
        NetworkEvent::Other => recs,
    }
}

/// The records after the first `k` events.
pub open spec fn records_after(events: Seq<NetworkEvent>, k: nat) -> Seq<ReqView>
    decreases k,
{
    if k == 0 {
        Seq::empty()
    } else {
        apply_event(records_after(events, (k - 1) as nat), events[k - 1])
    }
}

/// A record passes the type filter when the filter is empty or holds its
/// resource type, both lowercased.
pub open spec fn type_passes(filter_lower: Seq<Seq<char>>, rtype: Seq<char>) -> bool {
    filter_lower.len() == 0 || filter_lower.contains(to_lowercase_spec(rtype))
}

/// The requests a batch of events describes, in first-seen order, kept by
/// the (case-insensitive) type filter.
pub open spec fn network_spec(events: Seq<NetworkEvent>, filter: Seq<String>) -> Seq<ReqView> {
    let lower = filter.map_values(|f: String| to_lowercase_spec(f@));
    records_after(events, events.len() as nat).filter(|r: ReqView| type_passes(lower, r.3))
}

proof fn lemma_record_index(recs: Seq<ReqView>, id: Seq<char>, i: int)
    requires
        ids_distinct(recs),
        0 <= i < recs.len(),
        recs[i].0 == id,
    ensures
        record_index(recs, id) == Some(i),
{
    reveal(record_index);
    let w = choose|w: int| 0 <= w < recs.len() && recs[w].0 == id;
    if w < i {
        assert(recs[w].0 != recs[i].0);
    } else if w > i {
        assert(recs[i].0 != recs[w].0);
    }
}

proof fn lemma_record_index_none(recs: Seq<ReqView>, id: Seq<char>)
    requires
        forall|i: int| 0 <= i < recs.len() ==> recs[i].0 != id,
    ensures
        record_index(recs, id) is None,
{
    reveal(record_index);
}

proof fn lemma_record_index_some(recs: Seq<ReqView>, id: Seq<char>)
    ensures
        record_index(recs, id) matches Some(i) ==> 0 <= i < recs.len() && recs[i].0 == id,
        record_index(recs, id) is None ==> forall|i: int| 0 <= i < recs.len() ==> recs[i].0 != id,
{
    reveal(record_index);
}

/// No request has two records.
proof fn lemma_records_ids_distinct(events: Seq<NetworkEvent>, k: nat)
    requires
        k <= events.len(),
    ensures
        ids_distinct(records_after(events, k)),
    decreases k,
{
    if k > 0 {
        lemma_records_ids_distinct(events, (k - 1) as nat);
        let before = records_after(events, (k - 1) as nat);
        let after = records_after(events, k);
        let id = match events[k - 1] {
            NetworkEvent::RequestWillBeSent { request_id, .. } => request_id@,
            NetworkEvent::ResponseReceived { request_id, .. } => request_id@,
            NetworkEvent::LoadingFailed { request_id, .. } => request_id@,
            NetworkEvent::Other => Seq::empty(),
        };
        lemma_record_index_some(before, id);
        assert forall|a: int, b: int| 0 <= a < b < after.len() implies (#[trigger] after[a]).0 != (
        #[trigger] after[b]).0 by {
            if b < before.len() {
                assert(after[a].0 == before[a].0);
                assert(after[b].0 == before[b].0);
            }
        }
    }
}

/// A request sent again under an id already recorded (a redirect) starts
/// that record afresh in its place: the record, at the same position,
/// holds the new URL, method and resource type and is pending again, and
/// every other record stays as it was.
pub proof fn lemma_redirect_restarts_record_in_place(events: Seq<NetworkEvent>, k: int, i: int)
    requires
        0 <= k < events.len(),
        events[k] is RequestWillBeSent,
        0 <= i < records_after(events, k as nat).len(),
        records_after(events, k as nat)[i].0 == events[k]->RequestWillBeSent_request_id@,
    ensures
        ({
            let before = records_after(events, k as nat);
            let after = records_after(events, (k + 1) as nat);
            &&& after.len() == before.len()
            &&& after[i] == (
                events[k]->RequestWillBeSent_request_id@,
                events[k]->RequestWillBeSent_url@,
                events[k]->method@,
                events[k]->resource_type@,
                RequestStatus::Pending,
                None::<Seq<char>>,
                None::<Seq<char>>,
            )
            &&& forall|j: int| 0 <= j < before.len() && j != i ==> #[trigger] after[j] == before[j]
        }),
{
    let before = records_after(events, k as nat);
    lemma_records_ids_distinct(events, k as nat);
    lemma_record_index(before, events[k]->RequestWillBeSent_request_id@, i);
}

/// A request sent under a new id gets a pending record of its own after
/// all the earlier ones, which stay as they were.
pub proof fn lemma_new_request_appended(events: Seq<NetworkEvent>, k: int)
    requires
        0 <= k < events.len(),
        events[k] is RequestWillBeSent,
        forall|i: int|
            0 <= i < records_after(events, k as nat).len() ==> (#[trigger] records_after(events, k as nat)[i]).0
                != events[k]->RequestWillBeSent_request_id@,
    ensures
        ({
            let before = records_after(events, k as nat);
            let after = records_after(events, (k + 1) as nat);
            &&& after.len() == before.len() + 1
            &&& after[before.len() as int] == (
                events[k]->RequestWillBeSent_request_id@,
                events[k]->RequestWillBeSent_url@,
                events[k]->method@,
                events[k]->resource_type@,
                RequestStatus::Pending,
                None::<Seq<char>>,
                None::<Seq<char>>,
            )
            &&& forall|j: int| 0 <= j < before.len() ==> #[trigger] after[j] == before[j]
        }),
{
    lemma_record_index_none(records_after(events, k as nat), events[k]->RequestWillBeSent_request_id@);
}

/// The position of request `id`.
fn find_record(recs: &Vec<NetworkRequest>, id: &str) -> (r: Option<usize>)
    requires
        ids_distinct(recs@.map_values(|q: NetworkRequest| req_view(q))),
    ensures
        match r {
            Some(i) => i < recs@.len() && record_index(recs@.map_values(|q: NetworkRequest| req_view(q)), id@)
                == Some(i as int) && recs@[i as int].request_id@ == id@,
            None => record_index(recs@.map_values(|q: NetworkRequest| req_view(q)), id@) is None,
        },
{
    let ghost v = recs@.map_values(|q: NetworkRequest| req_view(q));
    let mut i: usize = 0;
    while i < recs.len()
        invariant
            v == recs@.map_values(|q: NetworkRequest| req_view(q)),
            ids_distinct(v),
            0 <= i <= recs@.len(),
            forall|j: int| 0 <= j < i ==> v[j].0 != id@,
        decreases recs@.len() - i,
    {
        if str_eq(recs[i].request_id.as_str(), id) {
            proof {
                lemma_record_index(v, id@, i as int);
            }
            return Some(i);
        }
        i = i + 1;
    }
    proof {
        lemma_record_index_none(v, id@);
    }
    None
}

fn opt_clone(o: &Option<String>) -> (r: Option<String>)
    ensures
        match (r, *o) {
            (Some(a), Some(b)) => a@ == b@,
            (None, None) => true,
            _ => false,
        },
{
    match o {
        Some(s) => Some(owned(s.as_str())),
        None => None,
    }
}

/// Folds a batch of events into request records, in first-seen order.
fn fold_network_events(events: &Vec<NetworkEvent>) -> (r: Vec<NetworkRequest>)
    ensures
        r@.map_values(|q: NetworkRequest| req_view(q)) == records_after(events@, events@.len() as nat),
        ids_distinct(r@.map_values(|q: NetworkRequest| req_view(q))),
{
    let mut recs: Vec<NetworkRequest> = Vec::new();
    let mut i: usize = 0;
    while i < events.len()
        invariant
            0 <= i <= events@.len(),
            recs@.map_values(|q: NetworkRequest| req_view(q)) == records_after(events@, i as nat),
            ids_distinct(recs@.map_values(|q: NetworkRequest| req_view(q))),
        decreases events@.len() - i,
    {
        let ghost before = recs@.map_values(|q: NetworkRequest| req_view(q));
        match &events[i] {
            NetworkEvent::RequestWillBeSent { request_id, url, method, resource_type } => {
                let rec = NetworkRequest {
                    request_id: owned(request_id.as_str()),
                    url: owned(url.as_str()),
                    method: owned(method.as_str()),
                    resource_type: owned(resource_type.as_str()),
                    status: RequestStatus::Pending,
                    status_text: None,
                    error: None,
                };
                match find_record(&recs, request_id.as_str()) {
                    Some(p) => {
                        recs.set(p, rec);
                        proof {
                            let after = recs@.map_values(|q: NetworkRequest| req_view(q));
                            assert(after =~= before.update(p as int, req_view(recs@[p as int])));
                            assert forall|a: int, b: int| 0 <= a < b < after.len() implies (#[trigger] after[a]).0 != (#[trigger] after[b]).0 by {
                                assert(before[a].0 != before[b].0);
                                assert(after[a].0 == before[a].0);
                                assert(after[b].0 == before[b].0);
                            }
                        }
                    },
                    None => {
                        recs.push(rec);
                        proof {
                            reveal(record_index);
                            let after = recs@.map_values(|q: NetworkRequest| req_view(q));
                            assert(after =~= before.push(req_view(recs@[before.len() as int])));
                            assert forall|a: int, b: int| 0 <= a < b < after.len() implies (#[trigger] after[a]).0 != (#[trigger] after[b]).0 by {
                                if b == before.len() {
                                    assert(after[a] == before[a]);
                                } else {
                                    assert(after[a] == before[a]);
                                    assert(after[b] == before[b]);
                                }
                            }
                        }
                    },
                }
            },
            NetworkEvent::ResponseReceived { request_id, status, status_text } => {
                match find_record(&recs, request_id.as_str()) {
                    Some(p) => {
                        let old_rec = &recs[p];
                        let rec = NetworkRequest {
                            request_id: owned(old_rec.request_id.as_str()),
                            url: owned(old_rec.url.as_str()),
                            method: owned(old_rec.method.as_str()),
                            resource_type: owned(old_rec.resource_type.as_str()),
                            status: RequestStatus::Code(*status),
                            status_text: Some(owned(status_text.as_str())),
                            error: opt_clone(&old_rec.error),
                        };
                        recs.set(p, rec);
                        proof {
                            let after = recs@.map_values(|q: NetworkRequest| req_view(q));
                            assert(after =~= before.update(p as int, req_view(recs@[p as int])));
                            assert forall|a: int, b: int| 0 <= a < b < after.len() implies (#[trigger] after[a]).0 != (#[trigger] after[b]).0 by {
                                assert(before[a].0 != before[b].0);
                                assert(after[a].0 == before[a].0);
                                assert(after[b].0 == before[b].0);
                            }
                        }
                    },
                    None => {},
                }
            },
            NetworkEvent::LoadingFailed { request_id, error_text } => {
                match find_record(&recs, request_id.as_str()) {
                    Some(p) => {
                        let old_rec = &recs[p];
                        let rec = NetworkRequest {
                            request_id: owned(old_rec.request_id.as_str()),
                            url: owned(old_rec.url.as_str()),
                            method: owned(old_rec.method.as_str()),
                            resource_type: owned(old_rec.resource_type.as_str()),
                            status: RequestStatus::Failed,
                            status_text: opt_clone(&old_rec.status_text),
                            error: Some(owned(error_text.as_str())),
                        };
                        recs.set(p, rec);
                        proof {
                            let after = recs@.map_values(|q: NetworkRequest| req_view(q));
                            assert(after =~= before.update(p as int, req_view(recs@[p as int])));
                            assert forall|a: int, b: int| 0 <= a < b < after.len() implies (#[trigger] after[a]).0 != (#[trigger] after[b]).0 by {
                                assert(before[a].0 != before[b].0);
                                assert(after[a].0 == before[a].0);
                                assert(after[b].0 == before[b].0);
                            }
                        }
                    },
                    None => {},
                }
            },
            NetworkEvent::Other => {},
        }
        proof {
            assert(recs@.map_values(|q: NetworkRequest| req_view(q)) =~= records_after(events@, (i + 1) as nat));
        }
        i = i + 1;
    }
    recs
}

/// The request records of a batch of events, in first-seen order, kept by
/// the case-insensitive type filter (see `network_spec`).
pub fn process_network_events(events: &Vec<NetworkEvent>, type_filter: &Vec<String>) -> (r: Vec<NetworkRequest>)
    ensures
        r@.map_values(|q: NetworkRequest| req_view(q)) == network_spec(events@, type_filter@),
{
    let ghost lower_spec = type_filter@.map_values(|f: String| to_lowercase_spec(f@));
    let mut lower: Vec<String> = Vec::new();
    let mut k: usize = 0;
    while k < type_filter.len()
        invariant
            0 <= k <= type_filter@.len(),
            lower@.map_values(|s: String| s@) == lower_spec.take(k as int),
            lower_spec == type_filter@.map_values(|f: String| to_lowercase_spec(f@)),
        decreases type_filter@.len() - k,
    {
        let ghost lb = lower@;
        let low = to_lowercase(type_filter[k].as_str());
        let ghost lv = low@;
        lower.push(low);
        proof {
            assert(lower_spec[k as int] == lv);
            assert(lower@.map_values(|s: String| s@) =~= lb.map_values(|s: String| s@).push(lv));
            assert(lower@.map_values(|s: String| s@) =~= lower_spec.take(k + 1));
        }
        k = k + 1;
    }
    proof {
        assert(lower_spec.take(type_filter@.len() as int) =~= lower_spec);
    }
    let recs = fold_network_events(events);
    let ghost all = recs@.map_values(|q: NetworkRequest| req_view(q));
    let mut rest = recs;
    let mut rev: Vec<NetworkRequest> = Vec::new();
    let n = rest.len();
    while rest.len() > 0
        invariant
            all.len() == n,
            rest@.len() + rev@.len() == n,
            rest@.map_values(|q: NetworkRequest| req_view(q)) == all.take(rest@.len() as int),
            forall|j: int| 0 <= j < rev@.len() ==> req_view(#[trigger] rev@[j]) == all[n - 1 - j],
            all == records_after(events@, events@.len() as nat),
        decreases rest@.len(),
    {
        let ghost l = rest@.len();
        let ghost rb = rest@;
        match rest.pop() {
            Some(x) => {
                proof {
                    assert(rb.map_values(|q: NetworkRequest| req_view(q))[l - 1] == req_view(rb[l - 1]));
                    assert(all.take(l as int)[l - 1] == all[l - 1]);
                    assert(req_view(x) == all[l - 1]);
                }
                rev.push(x);
                proof {
                    assert(rest@.map_values(|q: NetworkRequest| req_view(q)) =~= all.take(l - 1));
                }
            },
            None => {},
        }
    }
    let mut out: Vec<NetworkRequest> = Vec::new();
    let mut taken: usize = 0;
    while rev.len() > 0
        invariant
            all.len() == n,
            taken + rev@.len() == n,
            forall|j: int| 0 <= j < rev@.len() ==> req_view(#[trigger] rev@[j]) == all[n - 1 - j],
            out@.map_values(|q: NetworkRequest| req_view(q)) == all.take(taken as int).filter(|r: ReqView| type_passes(lower_spec, r.3)),
            lower@.map_values(|s: String| s@) == lower_spec,
            lower_spec == type_filter@.map_values(|f: String| to_lowercase_spec(f@)),
            all == records_after(events@, events@.len() as nat),
        decreases rev@.len(),
    {
        let ghost l = rev@.len();
        match rev.pop() {
            Some(x) => {
                proof {
                    assert(req_view(x) == all[taken as int]);
                    assert(all.take(taken + 1) =~= all.take(taken as int).push(all[taken as int]));
                    all.take(taken as int).lemma_filter_push(all[taken as int], |r: ReqView| type_passes(lower_spec, r.3));
                }
                let passes = if lower.len() == 0 {
                    true
                } else {
                    let t = to_lowercase(x.resource_type.as_str());
                    let mut found = false;
                    let mut j: usize = 0;
                    while j < lower.len() && !found
                        invariant
                            0 <= j <= lower@.len(),
                            lower@.map_values(|s: String| s@) == lower_spec,
                            found == exists|m: int| 0 <= m < j && lower_spec[m] == t@,
                        decreases lower@.len() - j,
                    {
                        if str_eq(lower[j].as_str(), t.as_str()) {
                            proof {
                                assert(lower_spec[j as int] == lower@[j as int]@);
                            }
                            found = true;
                        }
                        j = j + 1;
                    }
                    proof {
                        if found {
                            let m = choose|m: int| 0 <= m < j && lower_spec[m] == t@;
                            assert(lower_spec.contains(t@));
                        } else {
                            assert(j == lower@.len());
                            if lower_spec.contains(t@) {
                                let m = choose|m: int| 0 <= m < lower_spec.len() && lower_spec[m] == t@;
                                assert(0 <= m < j);
                            }
                        }
                    }
                    found
                };
                proof {
                    assert(lower_spec.len() == lower@.len());
                    assert(passes == type_passes(lower_spec, req_view(x).3));
                }
                let ghost before = out@.map_values(|q: NetworkRequest| req_view(q));
                if passes {
                    out.push(x);
                }
                proof {
                    assert(out@.map_values(|q: NetworkRequest| req_view(q)) =~= all.take(taken + 1).filter(|r: ReqView| type_passes(lower_spec, r.3)));
                }
                taken = taken + 1;
            },
            None => {},
        }
    }
    proof {
        assert(all.take(n as int) =~= all);
    }
    out
}

/// `s` padded with spaces to `width` characters (`{:<width}`).
pub open spec fn pad_right(s: Seq<char>, width: nat) -> Seq<char> {
    if s.len() >= width {
        s
    } else {
        s + Seq::new((width - s.len()) as nat, |i: int| ' ')
    }
}

fn push_padded(v: &mut Vec<char>, s: &[char], width: usize)
    ensures
        final(v)@ == old(v)@ + pad_right(s@, width as nat),
{
    push_all(v, s);
    let mut k: usize = s.len();
    while k < width
        invariant
            s@.len() <= k || k == s@.len(),
            k <= width || k == s@.len(),
            v@ == old(v)@ + s@ + Seq::new((if k >= s@.len() { k - s@.len() } else { 0 }) as nat, |i: int| ' '),
        decreases width - k,
    {
        v.push(' ');
        proof {
            assert(v@ =~= old(v)@ + s@ + Seq::new((k + 1 - s@.len()) as nat, |i: int| ' '));
        }
        k = k + 1;
    }
    proof {
        if s@.len() >= width {
            assert(v@ =~= old(v)@ + s@);
        } else {
            assert(v@ =~= old(v)@ + pad_right(s@, width as nat));
        }
    }
}

/// The status column: the code, `failed`, or `?` while pending.
pub open spec fn status_text(s: RequestStatus) -> Seq<char> {
    match s {
        RequestStatus::Code(c) => dec(c as nat),
        RequestStatus::Failed => "failed"@,
        RequestStatus::Pending => "?"@,
    }
}

/// One table row per request.
pub open spec fn network_rows(rs: Seq<NetworkRequest>) -> Seq<char>
    decreases rs.len(),
{
    if rs.len() == 0 {
        Seq::empty()
    } else {
        let r = rs.last();
        network_rows(rs.drop_last()) + pad_right(status_text(r.status), 8) + seq![' '] + pad_right(r.method@, 6)
            + seq![' '] + r.url@ + seq!['\n']
    }
}

/// The header: `STATUS`, `METHOD`, `URL`, then a rule of 72 dashes.
pub open spec fn network_header() -> Seq<char> {
    pad_right("STATUS"@, 8) + seq![' '] + pad_right("METHOD"@, 6) + seq![' '] + "URL"@ + seq!['\n']
        + Seq::new(72, |i: int| '-') + seq!['\n']
}

/// The text table of network requests.
pub fn format_network_text(requests: &Vec<NetworkRequest>) -> (r: String)
    ensures
        r@ == (if requests@.len() == 0 {
            "No network requests collected."@
        } else {
            network_header() + network_rows(requests@)
        }),
{
    if requests.len() == 0 {
        return owned("No network requests collected.");
    }
    let mut v: Vec<char> = Vec::new();
    let h1 = crate::text::chars_of("STATUS");
    let h2 = crate::text::chars_of("METHOD");
    push_padded(&mut v, h1.as_slice(), 8);
    v.push(' ');
    push_padded(&mut v, h2.as_slice(), 6);
    v.push(' ');
    push_str(&mut v, "URL");
    v.push('\n');
    let ghost head = v@;
    let mut d: usize = 0;
    while d < 72
        invariant
            0 <= d <= 72,
            v@ == head + Seq::new(d as nat, |i: int| '-'),
        decreases 72 - d,
    {
        v.push('-');
        proof {
            assert(v@ =~= head + Seq::new((d + 1) as nat, |i: int| '-'));
        }
        d = d + 1;
    }
    v.push('\n');
    proof {
        assert(v@ =~= network_header());
    }
    let mut i: usize = 0;
    while i < requests.len()
        invariant
            0 <= i <= requests@.len(),
            v@ == network_header() + network_rows(requests@.take(i as int)),
        decreases requests@.len() - i,
    {
        let r = &requests[i];
        let st: Vec<char> = match r.status {
            RequestStatus::Code(c) => u64_dec(c),
            RequestStatus::Failed => crate::text::chars_of("failed"),
            RequestStatus::Pending => crate::text::chars_of("?"),
        };
        let m = crate::text::chars_of(r.method.as_str());
        push_padded(&mut v, st.as_slice(), 8);
        v.push(' ');
        push_padded(&mut v, m.as_slice(), 6);
        v.push(' ');
        push_str(&mut v, r.url.as_str());
        v.push('\n');
        proof {
            assert(requests@.take(i + 1).drop_last() =~= requests@.take(i as int));
            assert(v@ =~= network_header() + network_rows(requests@.take(i + 1)));
        }
        i = i + 1;
    }
    proof {
        assert(requests@.take(requests@.len() as int) =~= requests@);
    }
    string_from_chars(v.as_slice())
}

} // verus!
