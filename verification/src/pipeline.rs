use vstd::prelude::*;

use crate::codec::{decode, encode, spec_decode, spec_encode};
use crate::dataset::TabularDataset;
use crate::errors::EtlError;

verus! {

/// Identifies a source or destination object in storage: a bucket and an
/// opaque key. Immutable once constructed.
pub struct ObjectLocator {
    pub bucket: String,
    pub key: String,
}

impl ObjectLocator {
    /// A field-for-field copy.
    pub fn duplicate(&self) -> (r: ObjectLocator)
        ensures
            r.bucket@ == self.bucket@,
            r.key@ == self.key@,
    {
        ObjectLocator { bucket: self.bucket.clone(), key: self.key.clone() }
    }
}

/// A trigger event: the records of objects reported created, in order.
/// Only the first record is processed; an event with none is a no-op.
pub struct TriggerEvent {
    pub records: Vec<ObjectLocator>,
}

/// The work one invocation has to do: which object to read and where the
/// result goes.
pub struct InvocationPlan {
    pub source: ObjectLocator,
    pub destination: ObjectLocator,
}

/// The terminal outcome of an invocation, produced exactly once.
pub enum InvocationResult {
    /// The pipeline completed. `destination` is absent only for the
    /// empty-event no-op, which writes nothing.
    Success { request_id: String, destination: Option<ObjectLocator>, message: String },
    /// A stage failed; every later stage was skipped.
    Failure { error: EtlError, message: String },
}

/// What the host must perform next; the storage calls are the only
/// effects of an invocation.
pub enum Action {
    /// Write `payload` to `destination`, overwriting it entirely, then
    /// report the outcome through `on_stored`.
    Store { destination: ObjectLocator, payload: Vec<u8> },
    /// The invocation is complete without a write.
    Finish { result: InvocationResult },
}

// ---------------------------------------------------------------------------
// Output-key derivation.
// ---------------------------------------------------------------------------

/// The destination key derived from a source key: the key itself, or a
/// fixed nonempty key for the empty source key. Total and pure, so
/// re-invocation for the same source object hits the same destination.
pub open spec fn spec_derive_key(k: Seq<char>) -> Seq<char> {
    if k.len() == 0 {
        "output"@
    } else {
        k
    }
}

/// Derive the destination key for a source key.
pub fn derive_key(source_key: &str) -> (r: String)
    ensures
        r@ == spec_derive_key(source_key@),
        r@.len() > 0,
{
    if source_key.unicode_len() == 0 {
        proof {
            reveal_strlit("output");
        }
        "output".to_owned()
    } else {
        source_key.to_owned()
    }
}

/// Key derivation is total and never yields an empty key; being a
/// function of the key alone, equal keys always derive equal results.
pub proof fn lemma_derive_key_nonempty(k: Seq<char>)
    ensures
        spec_derive_key(k).len() > 0,
{
    if k.len() == 0 {
        reveal_strlit("output");
    }
}

// ---------------------------------------------------------------------------
// Transform stage.
// ---------------------------------------------------------------------------

/// The transform stage: the sole business-logic seam between fetch and
/// store. It takes exclusive ownership of the dataset. The reference
/// behavior is the identity transformation, stated exactly so the
/// orchestration around it never needs to change.
pub fn transform(data: TabularDataset) -> (out: TabularDataset)
    ensures
        out == data,
{
    data
}

// ---------------------------------------------------------------------------
// The content pipeline between the storage calls.
// ---------------------------------------------------------------------------

/// What one invocation does to the fetched bytes: decode, transform
/// (identity), encode. `None` exactly when decoding fails.
pub open spec fn spec_pipeline(p: Seq<u8>) -> Option<Seq<u8>> {
    match spec_decode(p) {
        None => None,
        Some(m) => Some(spec_encode(m)),
    }
}

/// Decode a fetched payload, transform the dataset, and encode the
/// result. Fails exactly when decoding fails, and with that error; no
/// stage runs after a failed one.
pub fn process_payload(payload: &[u8]) -> (r: Result<Vec<u8>, EtlError>)
    ensures
        match r {
            Ok(out) => spec_pipeline(payload@) == Some(out@),
            Err(e) => spec_pipeline(payload@) is None && e == EtlError::MalformedInput,
        },
{
    match decode(payload) {
        Err(e) => Err(e),
        Ok(d) => {
            let d2 = transform(d);
            Ok(encode(&d2))
        },
    }
}

// ---------------------------------------------------------------------------
// Orchestration decisions, one per suspension point. The host performs
// the storage calls and feeds their outcomes back.
// ---------------------------------------------------------------------------

/// Decide the work of an invocation from the trigger event: `None`
/// exactly for an event with no records (a success, and no storage call
/// follows from it); otherwise the first record's object is the source
/// and the destination is the output bucket under the derived key.
pub fn plan_invocation(event: &TriggerEvent, output_bucket: &str) -> (p: Option<InvocationPlan>)
    ensures
        (p is Some) == (event.records@.len() > 0),
        p matches Some(plan) ==> {
            &&& plan.source.bucket@ == event.records@[0].bucket@
            &&& plan.source.key@ == event.records@[0].key@
            &&& plan.destination.bucket@ == output_bucket@
            &&& plan.destination.key@ == spec_derive_key(event.records@[0].key@)
            &&& plan.destination.key@.len() > 0
        },
{
    if event.records.len() == 0 {
        None
    } else {
        let first = &event.records[0];
        let source = first.duplicate();
        let destination = ObjectLocator {
            bucket: output_bucket.to_owned(),
            key: derive_key(first.key.as_str()),
        };
        Some(InvocationPlan { source, destination })
    }
}

/// Decide what follows the fetch. A failed fetch finishes with exactly
/// that error and no write happens; a fetched payload goes through the
/// content pipeline, whose output is written to the planned destination,
/// and whose failure finishes the invocation with it.
pub fn on_fetched(plan: InvocationPlan, fetched: Result<Vec<u8>, EtlError>) -> (a: Action)
    ensures
        fetched matches Err(e) ==> (a matches Action::Finish { result }
            && result matches InvocationResult::Failure { error, .. } && error == e),
        fetched matches Ok(p) ==> match spec_pipeline(p@) {
            Some(out) => a matches Action::Store { destination, payload } && payload@ == out
                && destination == plan.destination,
            None => a matches Action::Finish { result }
                && result matches InvocationResult::Failure { error, .. }
                && error == EtlError::MalformedInput,
        },
{
    match fetched {
        Err(e) => Action::Finish {
            result: InvocationResult::Failure { error: e, message: e.describe().to_owned() },
        },
        Ok(p) => match process_payload(p.as_slice()) {
            Err(e) => Action::Finish {
                result: InvocationResult::Failure { error: e, message: e.describe().to_owned() },
            },
            Ok(out) => Action::Store { destination: plan.destination, payload: out },
        },
    }
}

/// Decide the final result from the write outcome: success reports the
/// destination written; a failed write finishes with exactly that error.
pub fn on_stored(
    destination: ObjectLocator,
    stored: Result<(), EtlError>,
    request_id: &str,
) -> (r: InvocationResult)
    ensures
        stored is Ok ==> (r matches InvocationResult::Success {
            request_id: rid,
            destination: d,
            ..
        } && rid@ == request_id@ && d == Some(destination)),
        stored matches Err(e) ==> (r matches InvocationResult::Failure { error, .. } && error
            == e),
{
    match stored {
        Ok(()) => InvocationResult::Success {
            request_id: request_id.to_owned(),
            destination: Some(destination),
            message: "pipeline completed".to_owned(),
        },
        Err(e) => InvocationResult::Failure { error: e, message: e.describe().to_owned() },
    }
}

/// The result for an event with no records: a success that names no
/// destination, since nothing was fetched, transformed or written.
pub fn empty_event_result(request_id: &str) -> (r: InvocationResult)
    ensures
        r matches InvocationResult::Success { request_id: rid, destination: d, .. }
            && rid@ == request_id@ && d is None,
{
    InvocationResult::Success {
        request_id: request_id.to_owned(),
        destination: None,
        message: "empty event: nothing to process".to_owned(),
    }
}

// ---------------------------------------------------------------------------
// Idempotence of the whole invocation at the storage layer.
// ---------------------------------------------------------------------------

/// The effect of one invocation on the store, as a map from (bucket, key)
/// to content: if the source object exists and the pipeline succeeds on
/// its content, the destination afterwards holds the pipeline's output,
/// overwritten entirely; on any failure nothing is written.
pub open spec fn invocation_effect(
    store: Map<(Seq<char>, Seq<char>), Seq<u8>>,
    source: (Seq<char>, Seq<char>),
    destination: (Seq<char>, Seq<char>),
) -> Map<(Seq<char>, Seq<char>), Seq<u8>> {
    if store.contains_key(source) {
        match spec_pipeline(store[source]) {
            Some(out) => store.insert(destination, out),
            None => store,
        }
    } else {
        store
    }
}

/// Idempotence: invoking the pipeline twice for the same source object
/// leaves the store exactly as one invocation does — the transform is
/// deterministic and the writer overwrites the destination entirely.
/// This holds even when the destination is the source itself, because
/// the pipeline's output decodes back to the very dataset it encodes.
pub proof fn lemma_invocation_idempotent(
    store: Map<(Seq<char>, Seq<char>), Seq<u8>>,
    source: (Seq<char>, Seq<char>),
    destination: (Seq<char>, Seq<char>),
)
    ensures
        invocation_effect(invocation_effect(store, source, destination), source, destination)
            == invocation_effect(store, source, destination),
{
    let s1 = invocation_effect(store, source, destination);
    if store.contains_key(source) {
        match spec_decode(store[source]) {
            None => {},
            Some(m) => {
                let out = spec_encode(m);
                assert(s1 == store.insert(destination, out));
                if source == destination {
                    assert(s1[source] == out);
                    crate::codec::lemma_round_trip(m);
                    assert(spec_pipeline(out) == Some(out));
                    assert(s1.insert(destination, out) =~= s1);
                } else {
                    assert(s1[source] == store[source]);
                    assert(s1.insert(destination, out) =~= s1);
                }
            },
        }
    }
}

} // verus!
