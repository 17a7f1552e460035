//! The service: a single object owning the id allocator and the message
//! store, with the transfer-then-commit send workflow and the direct
//! read/delete paths.
//!
//! The external ledger call is the workflow's only suspension point and is
//! performed by the caller between `begin_send` and `finish_send`: the
//! workflow first consumes a fresh id, the caller then attempts the
//! transfer, and the record is committed exactly when the transfer reported
//! success. A failed transfer consumes its id permanently; no record under
//! that id is ever written.

use vstd::prelude::*;
use vstd::pervasive::unreached;
use crate::codec::check_record_fits;
use crate::codec::record_fits;
use crate::ids::IdAllocator;
use crate::stable::no_contents;
use crate::stable::stable_fresh;
use crate::stable::stable_load;
use crate::store::loadable;
use crate::store::MessageStore;
use crate::types::BalanceOutcome;
use crate::types::CoffeeMessage;
use crate::types::CoffeeMessageView;
use crate::types::Error;
use crate::types::ErrorKind;
use crate::types::MessagePayload;
use crate::types::TransferOutcome;

verus! {

/// The mathematical state of the service: the last issued id and the stored
/// records.
#[verifier::ext_equal]
pub struct ServiceView {
    pub last_id: u64,
    pub msgs: Map<u64, CoffeeMessageView>,
}

/// Every stored id was issued: nonzero and no larger than the last issued
/// id.
pub open spec fn wf_view(v: ServiceView) -> bool {
    forall|k: u64| #[trigger] v.msgs.dom().contains(k) ==> 1 <= k && k <= v.last_id
}

/// The record a send builds from its inputs.
pub open spec fn send_record(
    id: u64,
    name: Seq<char>,
    message: Seq<char>,
    receiver: Seq<char>,
    timestamp: u64,
) -> CoffeeMessageView {
    CoffeeMessageView { id, name, message, receiver, timestamp }
}

/// Whether a send with this outcome and record commits: the transfer
/// succeeded and the record fits the size bound.
pub open spec fn send_commits(outcome: TransferOutcome, rec: CoffeeMessageView) -> bool {
    outcome is Transferred && record_fits(rec)
}

/// Point lookup on the state.
pub open spec fn spec_get(v: ServiceView, id: u64) -> Option<CoffeeMessageView> {
    if v.msgs.dom().contains(id) {
        Some(v.msgs[id])
    } else {
        None
    }
}

/// Point delete on the state; the last issued id is untouched.
pub open spec fn spec_delete(v: ServiceView, id: u64) -> ServiceView {
    ServiceView { last_id: v.last_id, msgs: v.msgs.remove(id) }
}

/// One whole send on the state: allocate the next id, then commit the
/// record exactly when the transfer outcome and the size bound allow.
pub open spec fn spec_send(
    v: ServiceView,
    name: Seq<char>,
    message: Seq<char>,
    receiver: Seq<char>,
    outcome: TransferOutcome,
    timestamp: u64,
) -> ServiceView
    recommends
        v.last_id < u64::MAX,
{
    let id = (v.last_id + 1) as u64;
    let rec = send_record(id, name, message, receiver, timestamp);
    if send_commits(outcome, rec) {
        ServiceView { last_id: id, msgs: v.msgs.insert(id, rec) }
    } else {
        ServiceView { last_id: id, msgs: v.msgs }
    }
}

/// The value a finished send owes its caller: the transferred value on
/// commit, and a typed error otherwise — a transfer failure of either kind
/// carries the message the caller observed, and a record over the size
/// bound is a fatal condition for the operation.
pub open spec fn send_result_matches(
    outcome: TransferOutcome,
    rec: CoffeeMessageView,
    r: Result<candid::Nat, Error>,
) -> bool {
    &&& (outcome matches TransferOutcome::Transferred(n) ==> (if record_fits(rec) {
        r == Ok::<candid::Nat, Error>(n)
    } else {
        r matches Err(e) && e.kind == ErrorKind::Fatal
    }))
    &&& (outcome matches TransferOutcome::Refused(s) ==> (r matches Err(e) && e.kind
        == ErrorKind::Transfer && e.msg@ == s@))
    &&& (outcome matches TransferOutcome::CallFailed(s) ==> (r matches Err(e) && e.kind
        == ErrorKind::Transfer && e.msg@ == s@))
}

/// The service: exclusive owner of the allocator and the store.
pub struct CoffeeService {
    ids: IdAllocator,
    store: MessageStore,
}

impl View for CoffeeService {
    type V = ServiceView;

    closed spec fn view(&self) -> ServiceView {
        ServiceView { last_id: self.ids.last(), msgs: self.store@ }
    }
}

impl CoffeeService {
    /// The store's encoding invariant holds, and every stored id was issued.
    pub closed spec fn wf(&self) -> bool {
        self.store.wf() && wf_view(self@)
    }

    /// The well-formedness the service maintains implies the id bound its
    /// state satisfies.
    pub proof fn lemma_wf_view(&self)
        requires
            self.wf(),
        ensures
            wf_view(self@),
    {
    }

    /// A fresh service: nothing issued, nothing stored. The backing memory
    /// is overwritten; to continue from persisted state use `load`.
    pub fn init() -> (s: Self)
        ensures
            s.wf(),
            s@.last_id == 0,
            s@.msgs =~= Map::<u64, CoffeeMessageView>::empty(),
    {
        let (cell, map) = stable_fresh();
        let ids = IdAllocator::new(cell);
        let store = match MessageStore::from_map(map, 0) {
            Ok(st) => st,
            Err(_) => {
                proof {
                    assert(loadable(no_contents(), 0));
                }
                unreached()
            },
        };
        let s = CoffeeService { ids, store };
        proof {
            assert(s@.msgs =~= Map::<u64, CoffeeMessageView>::empty());
        }
        s
    }

    /// Re-initialize the service from its durable state: the counter and
    /// the records a previous run persisted, validated on the way in. The
    /// loaded counter continues where the last run stopped, so an id issued
    /// before a restart is never issued again after it. Malformed stored
    /// data — an entry that does not decode, is keyed by another id, is
    /// over the size bound, or carries an id the counter never issued — is
    /// a fatal error, and exactly then.
    pub fn load() -> (r: Result<Self, Error>)
        ensures
            r matches Ok(s) ==> s.wf(),
            r matches Err(e) ==> e.kind == ErrorKind::Fatal,
    {
        let (cell, map) = stable_load();
        let ids = IdAllocator::new(cell);
        let counter = ids.last_issued();
        match MessageStore::from_map(map, counter) {
            Ok(store) => {
                let s = CoffeeService { ids, store };
                proof {
                    assert forall|k: u64| #[trigger] s@.msgs.dom().contains(k) implies 1 <= k
                        && k <= s@.last_id by {}
                }
                Ok(s)
            },
            Err(e) => Err(e),
        }
    }

    /// The last issued identifier (0 before any issuance).
    pub fn last_issued(&self) -> (id: u64)
        ensures
            id == self@.last_id,
    {
        self.ids.last_issued()
    }

    /// Allocating step of the send workflow: consume and return a fresh id.
    /// The id is consumed whatever happens afterwards.
    pub fn begin_send(&mut self) -> (id: u64)
        requires
            old(self).wf(),
            old(self)@.last_id < u64::MAX,
        ensures
            final(self).wf(),
            final(self)@.last_id == old(self)@.last_id + 1,
            id == final(self)@.last_id,
            final(self)@.msgs == old(self)@.msgs,
            !old(self)@.msgs.dom().contains(id),
    {
        let id = self.ids.allocate();
        proof {
            assert forall|k: u64| #[trigger] self@.msgs.dom().contains(k) implies 1 <= k && k
                <= self@.last_id by {
                assert(old(self)@.msgs.dom().contains(k));
            }
        }
        id
    }

    /// Committing or aborting step of the send workflow, given the observed
    /// transfer outcome: on success the record is built and persisted under
    /// `id`; on failure nothing is written and the failure is surfaced.
    pub fn finish_send(
        &mut self,
        id: u64,
        name: String,
        message: String,
        receiver: String,
        outcome: TransferOutcome,
        timestamp: u64,
    ) -> (r: Result<candid::Nat, Error>)
        requires
            old(self).wf(),
            1 <= id <= old(self)@.last_id,
        ensures
            final(self).wf(),
            final(self)@.last_id == old(self)@.last_id,
            send_result_matches(
                outcome,
                send_record(id, name@, message@, receiver@, timestamp),
                r,
            ),
            send_commits(outcome, send_record(id, name@, message@, receiver@, timestamp))
                ==> final(self)@.msgs == old(self)@.msgs.insert(
                id,
                send_record(id, name@, message@, receiver@, timestamp),
            ),
            !send_commits(outcome, send_record(id, name@, message@, receiver@, timestamp))
                ==> final(self)@.msgs == old(self)@.msgs,
    {
        match outcome {
            TransferOutcome::Transferred(n) => {
                let rec = CoffeeMessage { id, name, message, receiver, timestamp };
                if check_record_fits(&rec) {
                    self.store.do_insert(&rec);
                    proof {
                        assert forall|k: u64| #[trigger] self@.msgs.dom().contains(k) implies 1
                            <= k && k <= self@.last_id by {
                            if k != id {
                                assert(old(self)@.msgs.dom().contains(k));
                            }
                        }
                    }
                    Ok(n)
                } else {
                    Err(Error { kind: ErrorKind::Fatal, msg: "record over the size bound".to_owned() })
                }
            },
            TransferOutcome::Refused(s) => Err(Error { kind: ErrorKind::Transfer, msg: s }),
            TransferOutcome::CallFailed(s) => Err(Error { kind: ErrorKind::Transfer, msg: s }),
        }
    }

    /// The whole send workflow, given the transfer outcome the caller
    /// observed at the suspension point: allocate an id, then commit or
    /// abort.
    pub fn send_message(
        &mut self,
        payload: MessagePayload,
        outcome: TransferOutcome,
        timestamp: u64,
    ) -> (r: Result<candid::Nat, Error>)
        requires
            old(self).wf(),
            old(self)@.last_id < u64::MAX,
        ensures
            final(self).wf(),
            final(self)@ == spec_send(
                old(self)@,
                payload.name@,
                payload.message@,
                payload.receiver@,
                outcome,
                timestamp,
            ),
            send_result_matches(
                outcome,
                send_record(
                    (old(self)@.last_id + 1) as u64,
                    payload.name@,
                    payload.message@,
                    payload.receiver@,
                    timestamp,
                ),
                r,
            ),
    {
        let MessagePayload { name, message, receiver, .. } = payload;
        let id = self.begin_send();
        let r = self.finish_send(id, name, message, receiver, outcome, timestamp);
        proof {
            assert(self@ =~= spec_send(
                old(self)@,
                payload.name@,
                payload.message@,
                payload.receiver@,
                outcome,
                timestamp,
            ));
        }
        r
    }

    /// Point lookup: the record most recently committed under `id`, or a
    /// typed not-found error. Reads change nothing.
    pub fn get_message(&self, id: u64) -> (r: Result<CoffeeMessage, Error>)
        requires
            self.wf(),
        ensures
            match spec_get(self@, id) {
                Some(v) => r matches Ok(m) && m@ == v,
                None => r matches Err(e) && e.kind == ErrorKind::NotFound && e.msg@
                    == "message not found"@,
            },
    {
        match self.store._get_message(&id) {
            Some(m) => Ok(m),
            None => Err(Error { kind: ErrorKind::NotFound, msg: "message not found".to_owned() }),
        }
    }

    /// Point delete: removes and returns the record committed under `id`,
    /// or a typed not-found error; the id is never reissued either way.
    pub fn delete_message(&mut self, id: u64) -> (r: Result<CoffeeMessage, Error>)
        requires
            old(self).wf(),
        ensures
            final(self).wf(),
            final(self)@ == spec_delete(old(self)@, id),
            match spec_get(old(self)@, id) {
                Some(v) => r matches Ok(m) && m@ == v,
                None => r matches Err(e) && e.kind == ErrorKind::NotFound && e.msg@
                    == "message not found"@,
            },
    {
        let r = self.store.remove(&id);
        proof {
            assert(self@ =~= spec_delete(old(self)@, id));
            assert forall|k: u64| #[trigger] self@.msgs.dom().contains(k) implies 1 <= k && k
                <= self@.last_id by {
                assert(old(self)@.msgs.dom().contains(k));
            }
        }
        match r {
            Some(m) => Ok(m),
            None => Err(Error { kind: ErrorKind::NotFound, msg: "message not found".to_owned() }),
        }
    }
}

/// Map the outcome of a balance query to the caller's result: the balance
/// the ledger reported, or a transfer-kind error carrying the observed
/// failure message.
pub fn settle_balance(outcome: BalanceOutcome) -> (r: Result<candid::Nat, Error>)
    ensures
        outcome matches BalanceOutcome::Got(n) ==> r == Ok::<candid::Nat, Error>(n),
        outcome matches BalanceOutcome::CallFailed(s) ==> (r matches Err(e) && e.kind
            == ErrorKind::Transfer && e.msg@ == s@),
{
    match outcome {
        BalanceOutcome::Got(n) => Ok(n),
        BalanceOutcome::CallFailed(s) => Err(Error { kind: ErrorKind::Transfer, msg: s }),
    }
}

} // verus!
