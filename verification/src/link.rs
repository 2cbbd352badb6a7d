use vstd::prelude::*;

use crate::error::{ConversionError, EngineError};
use crate::partitions::{
    calculate_rows, calculate_segmentations, partition_of_row, row_counts, Partitions, PartitionsV,
};
use crate::layout::sum;
use crate::query::{views_of, Query, QueryResult, QueryResultV, QueryRow, QueryRowV, QueryV};

verus! {

#[verifier::external_type_specification]
#[verifier::external_body]
#[verifier::reject_recursive_types(T)]
pub struct ExSender<T>(crossbeam_channel::Sender<T>);

#[verifier::external_type_specification]
#[verifier::external_body]
#[verifier::reject_recursive_types(T)]
pub struct ExReceiver<T>(crossbeam_channel::Receiver<T>);

/// Relies on crossbeam_channel::unbounded: returns the two endpoints of one
/// connected channel of unbounded capacity.
#[verifier::external_body]
fn channel_endpoints<T>() -> (crossbeam_channel::Sender<T>, crossbeam_channel::Receiver<T>) {
    crossbeam_channel::unbounded()
}

/// Relies on crossbeam_channel::Sender::send: on an unbounded channel it
/// fails only when every receiver is gone, and the error carries the message
/// back unchanged.
#[verifier::external_body]
fn channel_send<T>(sender: &crossbeam_channel::Sender<T>, msg: T) -> (r: Result<(), T>)
    ensures
        r matches Err(m) ==> m == msg,
{
    sender.send(msg).map_err(|e| e.0)
}

/// Relies on crossbeam_channel::Receiver::try_recv: a non-blocking poll.
/// `Ok(Some)` carries a waiting message, `Ok(None)` means the channel is
/// empty, and the error means every sender is gone and the channel is
/// drained. What a successful poll yields depends on the sending side, so
/// nothing is promised of the value.
#[verifier::external_body]
fn channel_try_recv<T>(receiver: &crossbeam_channel::Receiver<T>) -> (r: Result<Option<T>, ()>) {
    match receiver.try_recv() {
        Ok(message) => Ok(Some(message)),
        Err(crossbeam_channel::TryRecvError::Empty) => Ok(None),
        Err(crossbeam_channel::TryRecvError::Disconnected) => Err(()),
    }
}

/// What the worker sends back for one request: the query it executed, the
/// caller's context unchanged, and the rows converted for the query's
/// declared kind.
#[derive(Debug)]
pub enum Response<Context: Send + 'static> {
    Grouped(Query, Context, Partitions),
    Normal(Query, Context, Vec<QueryRow>),
    Other(Query, Context, Vec<String>),
}

/// The scalar values carried by distinct-value rows, concatenated in row
/// order; rows of other shapes contribute nothing.
pub open spec fn other_values(rows: Seq<QueryResultV>) -> Seq<Seq<char>>
    decreases rows.len(),
{
    if rows.len() == 0 {
        Seq::empty()
    } else {
        other_values(rows.drop_last()) + (match rows.last() {
            QueryResultV::Other(vs) => vs,
            _ => Seq::empty(),
        })
    }
}

/// First-occurrence deduplication: keep each value once, at the position of
/// its first appearance.
pub open spec fn dedup(s: Seq<Seq<char>>) -> Seq<Seq<char>>
    decreases s.len(),
{
    if s.len() == 0 {
        Seq::empty()
    } else {
        let rest = dedup(s.drop_last());
        if rest.contains(s.last()) {
            rest
        } else {
            rest.push(s.last())
        }
    }
}

/// Whether one of the collected values equals `s`.
fn contains_string(vals: &Vec<String>, s: &String) -> (r: bool)
    ensures
        r == views_of(vals@).contains(s@),
{
    let mut i: usize = 0;
    while i < vals.len()
        invariant
            i <= vals@.len(),
            forall|j: int| 0 <= j < i as int ==> views_of(vals@)[j] != s@,
        decreases vals@.len() - i,
    {
        if vals[i] == *s {
            proof {
                assert(views_of(vals@)[i as int] == s@);
            }
            return true;
        }
        i += 1;
    }
    false
}

/// Flatten a distinct-value scan into one list of values without duplicates,
/// keeping first occurrences in order. A row of any other shape means the
/// store broke the query contract.
pub fn calculate_other(result: &[QueryResult]) -> (r: Result<Vec<String>, ConversionError>)
    ensures
        r is Ok <==> (forall|i: int| 0 <= i < result@.len() ==> (#[trigger] result@[i])@
            is Other),
        r matches Ok(vals) ==> views_of(vals@) == dedup(other_values(views_of(result@))),
        r matches Err(e) ==> e == ConversionError::UnexpectedShape,
{
    let mut out: Vec<String> = Vec::new();
    let mut i: usize = 0;
    proof {
        assert(views_of(result@).take(0) =~= Seq::<QueryResultV>::empty());
    }
    while i < result.len()
        invariant
            i <= result@.len(),
            forall|j: int| 0 <= j < i as int ==> (#[trigger] result@[j])@ is Other,
            views_of(out@) == dedup(other_values(views_of(result@).take(i as int))),
        decreases result@.len() - i,
    {
        let row_vals = match &result[i] {
            QueryResult::Other(vs) => vs,
            _ => {
                return Err(ConversionError::UnexpectedShape);
            },
        };
        let ghost processed = other_values(views_of(result@).take(i as int));
        proof {
            assert(processed + views_of(row_vals@).take(0) =~= processed);
        }
        let mut k: usize = 0;
        while k < row_vals.len()
            invariant
                k <= row_vals@.len(),
                result@[i as int]@ == QueryResultV::Other(views_of(row_vals@)),
                processed == other_values(views_of(result@).take(i as int)),
                views_of(out@) == dedup(processed + views_of(row_vals@).take(k as int)),
            decreases row_vals@.len() - k,
        {
            let ghost before = processed + views_of(row_vals@).take(k as int);
            let ghost after = processed + views_of(row_vals@).take(k as int + 1);
            proof {
                assert(after.drop_last() =~= before);
                assert(after.last() == views_of(row_vals@)[k as int]);
            }
            let v = &row_vals[k];
            if !contains_string(&out, v) {
                out.push(v.clone());
            }
            k += 1;
        }
        proof {
            let next = views_of(result@).take(i as int + 1);
            assert(next.drop_last() =~= views_of(result@).take(i as int));
            assert(next.last() == result@[i as int]@);
            assert(processed + views_of(row_vals@).take(row_vals@.len() as int) =~= other_values(
                next,
            ));
        }
        i += 1;
    }
    proof {
        assert(views_of(result@).take(result@.len() as int) =~= views_of(result@));
    }
    Ok(out)
}

/// The raw row carried by a flat-projection result row.
pub open spec fn normal_row_of(r: QueryResultV) -> QueryRowV
    recommends
        r is Normal,
{
    match r {
        QueryResultV::Normal(row) => row,
        _ => QueryRowV { values: Seq::empty() },
    }
}

/// The worker-side conversion for one executed request: turn the store's
/// rows into the response matching the query's declared kind, carrying the
/// caller's context through unchanged.
pub fn process_request<Context: Send + 'static>(
    query: Query,
    context: Context,
    rows: &[QueryResult],
) -> (r: Result<Response<Context>, ConversionError>)
    ensures
        query is Grouped ==> (r is Ok <==> ((forall|i: int| 0 <= i < rows@.len()
            ==> (#[trigger] rows@[i])@ is Grouped) && sum(row_counts(views_of(rows@)))
            <= u64::MAX)),
        query is Normal ==> (r is Ok <==> (forall|i: int| 0 <= i < rows@.len()
            ==> (#[trigger] rows@[i])@ is Normal)),
        query is Other ==> (r is Ok <==> (forall|i: int| 0 <= i < rows@.len()
            ==> (#[trigger] rows@[i])@ is Other)),
        r matches Ok(resp) ==> match resp {
            Response::Grouped(q, c, p) => {
                &&& query is Grouped
                &&& q == query
                &&& c == context
                &&& p@ == (PartitionsV {
                    items: views_of(rows@).map_values(|x: QueryResultV| partition_of_row(x)),
                    selected: None,
                })
            },
            Response::Normal(q, c, out) => {
                &&& query is Normal
                &&& q == query
                &&& c == context
                &&& views_of(out@) == views_of(rows@).map_values(
                    |x: QueryResultV| normal_row_of(x),
                )
            },
            Response::Other(q, c, vals) => {
                &&& query is Other
                &&& q == query
                &&& c == context
                &&& views_of(vals@) == dedup(other_values(views_of(rows@)))
            },
        },
        r matches Err(e) ==> (e == ConversionError::UnexpectedShape || e
            == ConversionError::CountOverflow),
{
    match &query {
        Query::Grouped { .. } => match calculate_segmentations(rows) {
            Ok(p) => {
                proof {
                    assert(p@.items =~= views_of(rows@).map_values(
                        |x: QueryResultV| partition_of_row(x),
                    ));
                }
                Ok(Response::Grouped(query, context, p))
            },
            Err(e) => Err(e),
        },
        Query::Normal { .. } => match calculate_rows(rows) {
            Ok(out) => {
                proof {
                    assert(views_of(out@) =~= views_of(rows@).map_values(
                        |x: QueryResultV| normal_row_of(x),
                    ));
                }
                Ok(Response::Normal(query, context, out))
            },
            Err(e) => Err(e),
        },
        Query::Other { .. } => match calculate_other(rows) {
            Ok(vals) => Ok(Response::Other(query, context, vals)),
            Err(e) => Err(e),
        },
    }
}

/// The non-blocking bridge between the navigation layer and its background
/// worker: a request channel out, a response channel in, and a counter of
/// requests whose responses are still outstanding, so the caller always
/// knows whether work is pending even while a result sits between the two
/// channels.
#[verifier::reject_recursive_types(Context)]
pub struct Link<Context: Send + 'static> {
    input_sender: crossbeam_channel::Sender<(Query, Context)>,
    output_receiver: crossbeam_channel::Receiver<Result<Response<Context>, EngineError>>,
    request_counter: usize,
    requests: Ghost<Seq<(QueryV, Context)>>,
    received: Ghost<int>,
}

impl<Context: Send + 'static> Link<Context> {
    /// Every request handed to the worker so far, oldest first: the query
    /// and the caller's context, exactly as they went into the channel.
    pub closed spec fn sent_requests(&self) -> Seq<(QueryV, Context)> {
        self.requests@
    }

    /// How many requests were handed to the worker so far.
    pub open spec fn sent_count(&self) -> int {
        self.sent_requests().len() as int
    }

    /// How many responses were successfully received so far.
    pub closed spec fn received_count(&self) -> int {
        self.received@
    }

    /// The counter as the caller sees it.
    pub closed spec fn in_flight(&self) -> int {
        self.request_counter as int
    }

    /// The in-flight bookkeeping is consistent: no more responses than
    /// requests, and the counter is exactly their difference.
    pub closed spec fn wf(&self) -> bool {
        &&& 0 <= self.received@ <= self.requests@.len()
        &&& self.request_counter == self.requests@.len() - self.received@
    }

    /// Law: the in-flight counter never under-reports — it always equals the
    /// number of requests sent minus the number of responses successfully
    /// received, and is never negative.
    pub proof fn lemma_in_flight_counter(&self)
        requires
            self.wf(),
        ensures
            self.in_flight() == self.sent_count() - self.received_count(),
            self.in_flight() >= 0,
    {
    }

    /// A fresh link plus the worker's two endpoints: the receiver the worker
    /// takes requests from and the sender it pushes responses into.
    pub fn new() -> (r: (
        Link<Context>,
        crossbeam_channel::Receiver<(Query, Context)>,
        crossbeam_channel::Sender<Result<Response<Context>, EngineError>>,
    ))
        ensures
            r.0.wf(),
            r.0.sent_requests() == Seq::<(QueryV, Context)>::empty(),
            r.0.received_count() == 0,
            r.0.in_flight() == 0,
    {
        let (input_sender, work_receiver) = channel_endpoints();
        let (work_sender, output_receiver) = channel_endpoints();
        let link = Link {
            input_sender,
            output_receiver,
            request_counter: 0,
            requests: Ghost(Seq::empty()),
            received: Ghost(0),
        };
        (link, work_receiver, work_sender)
    }

    /// Enqueue one request for the worker. The counter is raised before the
    /// send so the link never looks idle while the request is on its way; it
    /// stays raised if the worker is gone, since no response will come.
    pub fn request(&mut self, query: Query, context: Context) -> (r: Result<(), EngineError>)
        requires
            old(self).wf(),
            old(self).in_flight() < usize::MAX,
        ensures
            final(self).wf(),
            final(self).sent_requests() == old(self).sent_requests().push((query@, context)),
            final(self).received_count() == old(self).received_count(),
            final(self).in_flight() == old(self).in_flight() + 1,
            r matches Err(e) ==> e == EngineError::ChannelClosed,
    {
        let ghost entry = (query@, context);
        self.request_counter = self.request_counter + 1;
        proof {
            self.requests@ = self.requests@.push(entry);
        }
        match channel_send(&self.input_sender, (query, context)) {
            Ok(()) => Ok(()),
            Err(_) => Err(EngineError::ChannelClosed),
        }
    }

    /// Poll for one response without blocking. Nothing waiting is not an
    /// error; a drained channel whose worker is gone is `ChannelClosed`,
    /// fatal for this link. The counter drops only after a response was
    /// actually taken, never speculatively; an error the worker reported is
    /// handed through unchanged and keeps the counter, since its request
    /// never completed into a usable response.
    pub fn receive(&mut self) -> (r: Result<Option<Response<Context>>, EngineError>)
        requires
            old(self).wf(),
        ensures
            final(self).wf(),
            final(self).sent_requests() == old(self).sent_requests(),
            r matches Ok(Some(_)) && old(self).in_flight() > 0 ==> (final(self).received_count()
                == old(self).received_count() + 1 && final(self).in_flight() == old(
                self,
            ).in_flight() - 1),
            r matches Ok(Some(_)) && old(self).in_flight() == 0 ==> *final(self) == *old(self),
            r matches Ok(None) ==> *final(self) == *old(self),
            r is Err ==> *final(self) == *old(self),
    {
        match channel_try_recv(&self.output_receiver) {
            Ok(None) => Ok(None),
            Ok(Some(Ok(response))) => {
                if self.request_counter > 0 {
                    self.request_counter = self.request_counter - 1;
                    proof {
                        self.received@ = self.received@ + 1;
                    }
                }
                Ok(Some(response))
            },
            Ok(Some(Err(e))) => Err(e),
            Err(()) => Err(EngineError::ChannelClosed),
        }
    }

    /// Whether a request is still being computed or queued. Never reports
    /// idle while a response is outstanding.
    pub fn is_processing(&self) -> (r: bool)
        ensures
            r == (self.in_flight() > 0),
    {
        self.request_counter > 0
    }

    /// The number of requests whose responses are still outstanding.
    pub fn request_counter(&self) -> (r: usize)
        ensures
            r == self.in_flight(),
    {
        self.request_counter
    }
}

} // verus!
