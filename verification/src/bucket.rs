//! Making sure the bucket of an S3-compatible chunk store exists before it
//! is used: the decisions, one event at a time. The requests themselves are
//! the application's part.
use vstd::prelude::*;

verus! {

/// What happened last while making sure of the bucket.
#[derive(Clone, Copy, Debug, PartialEq, Eq, Structural)]
pub enum BucketEvent {
    /// The check starts.
    Start,
    /// The bucket was found.
    Found,
    /// The service answered that the bucket does not exist.
    NotFound,
    /// Asking for the bucket failed otherwise.
    LookupFailed,
    /// The bucket was created.
    Created,
    /// Creating the bucket failed.
    CreateFailed,
}

/// What to do next.
#[derive(Clone, Copy, Debug, PartialEq, Eq, Structural)]
pub enum BucketAction {
    /// Ask whether the bucket exists.
    LookUp,
    /// Create the bucket.
    Create,
    /// The bucket is there: go on.
    Proceed,
    /// Report the failure.
    Fail,
}

/// The next action, and whether the bucket is known to be ready from now
/// on. Only a bucket this store created is remembered as ready; a bucket
/// found is looked up again next time.
pub open spec fn bucket_step_spec(ready: bool, event: BucketEvent) -> (BucketAction, bool) {
    match event {
        BucketEvent::Start => if ready { (BucketAction::Proceed, ready) } else { (BucketAction::LookUp, ready) },
        BucketEvent::Found => (BucketAction::Proceed, ready),
        BucketEvent::NotFound => (BucketAction::Create, ready),
        BucketEvent::LookupFailed => (BucketAction::Fail, ready),
        BucketEvent::Created => (BucketAction::Proceed, true),
        BucketEvent::CreateFailed => (BucketAction::Fail, ready),
    }
}

/// Decides the next step of making sure of the bucket.
pub fn bucket_step(ready: bool, event: BucketEvent) -> (r: (BucketAction, bool))
    ensures
        r == bucket_step_spec(ready, event),
        !ready && event == BucketEvent::Start ==> r.0 == BucketAction::LookUp,
        event == BucketEvent::NotFound ==> r.0 == BucketAction::Create,
        r.0 == BucketAction::Proceed ==> ready || event == BucketEvent::Found || event == BucketEvent::Created,
        r.1 ==> ready || event == BucketEvent::Created,
{
    match event {
        BucketEvent::Start => if ready { (BucketAction::Proceed, ready) } else { (BucketAction::LookUp, ready) },
        BucketEvent::Found => (BucketAction::Proceed, ready),
        BucketEvent::NotFound => (BucketAction::Create, ready),
        BucketEvent::LookupFailed => (BucketAction::Fail, ready),
        BucketEvent::Created => (BucketAction::Proceed, true),
        BucketEvent::CreateFailed => (BucketAction::Fail, ready),
    }
}

/// A store goes on only with a bucket it knows: one not known ready looks
/// the bucket up when the check starts, creates it when it is not found,
/// and proceeds only once the bucket was found or created; only creating
/// the bucket makes it known ready.
pub proof fn lemma_bucket_checked_before_use(ready: bool, event: BucketEvent)
    ensures
        bucket_step_spec(false, BucketEvent::Start).0 == BucketAction::LookUp,
        bucket_step_spec(ready, BucketEvent::NotFound).0 == BucketAction::Create,
        bucket_step_spec(false, event).0 == BucketAction::Proceed ==> event == BucketEvent::Found || event == BucketEvent::Created,
        !ready && bucket_step_spec(ready, event).1 ==> event == BucketEvent::Created,
        bucket_step_spec(ready, event).0 == BucketAction::Fail ==> event == BucketEvent::LookupFailed || event == BucketEvent::CreateFailed,
{
}

/// Once a store has created its bucket it never asks for it again, and
/// a store's readiness never goes back.
pub proof fn lemma_ready_is_kept(ready: bool, event: BucketEvent)
    ensures
        ready ==> bucket_step_spec(ready, event).1,
        ready && event == BucketEvent::Start ==> bucket_step_spec(ready, event).0 == BucketAction::Proceed,
        event == BucketEvent::Created ==> bucket_step_spec(ready, event).1,
{
}

} // verus!
