//! Laws of the service over whole histories of operations: what a sequence
//! of sends and deletes does to the set of stored ids, and how identifier
//! allocation behaves across the lifetime of the store.

use vstd::prelude::*;
use crate::service::send_commits;
use crate::service::send_record;
use crate::service::spec_delete;
use crate::service::spec_get;
use crate::service::spec_send;
use crate::service::wf_view;
use crate::service::ServiceView;
use crate::types::TransferOutcome;

verus! {

/// One send request: the inputs of the record it would commit and the
/// outcome its transfer call produced.
pub struct SendRequest {
    pub name: Seq<char>,
    pub message: Seq<char>,
    pub receiver: Seq<char>,
    pub outcome: TransferOutcome,
    pub timestamp: u64,
}

/// One operation applied to the service's state.
pub enum Event {
    Send(SendRequest),
    Delete(u64),
}

/// The state after one event.
pub open spec fn step(v: ServiceView, e: Event) -> ServiceView {
    match e {
        Event::Send(s) => spec_send(v, s.name, s.message, s.receiver, s.outcome, s.timestamp),
        Event::Delete(id) => spec_delete(v, id),
    }
}

/// The state after a whole history of events, applied in order.
pub open spec fn run(v: ServiceView, es: Seq<Event>) -> ServiceView
    decreases es.len(),
{
    if es.len() == 0 {
        v
    } else {
        run(step(v, es[0]), es.skip(1))
    }
}

/// The id the event at position `i` is allocated when the history `es` runs
/// from state `v`.
pub open spec fn alloc_id(v: ServiceView, es: Seq<Event>, i: int) -> u64 {
    (run(v, es.take(i)).last_id + 1) as u64
}

/// Whether an event is a send that commits a record under `id`.
pub open spec fn event_commits(e: Event, id: u64) -> bool {
    e matches Event::Send(s) && send_commits(
        s.outcome,
        send_record(id, s.name, s.message, s.receiver, s.timestamp),
    )
}

/// Whether every event of the history is a send.
pub open spec fn all_sends(es: Seq<Event>) -> bool {
    forall|i: int| 0 <= i < es.len() ==> es[i] is Send
}

/// The ids allocated to the events of `es` that commit, when the first
/// event is allocated `base + 1`, the second `base + 2`, and so on.
pub open spec fn committed_ids(base: u64, es: Seq<Event>) -> Set<u64> {
    Set::new(
        |id: u64|
            exists|i: int|
                0 <= i < es.len() && id == base + i + 1 && #[trigger] event_commits(es[i], id),
    )
}

/// The last issued id never decreases, and a history of `n` events raises
/// it by at most `n`.
pub proof fn lemma_run_bounds(v: ServiceView, es: Seq<Event>)
    requires
        v.last_id + es.len() <= u64::MAX,
    ensures
        v.last_id <= run(v, es).last_id <= v.last_id + es.len(),
    decreases es.len(),
{
    if es.len() > 0 {
        lemma_run_bounds(step(v, es[0]), es.skip(1));
    }
}

/// Well-formedness (every stored id was issued) is preserved by every
/// history.
pub proof fn lemma_run_wf(v: ServiceView, es: Seq<Event>)
    requires
        wf_view(v),
        v.last_id + es.len() <= u64::MAX,
    ensures
        wf_view(run(v, es)),
    decreases es.len(),
{
    if es.len() > 0 {
        let v1 = step(v, es[0]);
        assert forall|k: u64| #[trigger] v1.msgs.dom().contains(k) implies 1 <= k && k
            <= v1.last_id by {
            if !v.msgs.dom().contains(k) {
                // The only key an event can add is the one a send commits.
                assert(k == v.last_id + 1);
            }
        }
        lemma_run_wf(v1, es.skip(1));
    }
}

/// Running a history extended by one event is running the history, then the
/// event.
pub proof fn lemma_run_push(v: ServiceView, es: Seq<Event>, e: Event)
    ensures
        run(v, es.push(e)) == step(run(v, es), e),
    decreases es.len(),
{
    if es.len() == 0 {
        assert(es.push(e)[0] == e);
        assert(es.push(e).skip(1) =~= Seq::<Event>::empty());
        assert(run(v, es.push(e)) == run(step(v, e), es.push(e).skip(1)));
        assert(run(step(v, e), es.push(e).skip(1)) == step(v, e));
    } else {
        assert(es.push(e)[0] == es[0]);
        assert(es.push(e).skip(1) =~= es.skip(1).push(e));
        lemma_run_push(step(v, es[0]), es.skip(1), e);
    }
}

/// The state after `j + 1` events is the state after `j` events, stepped by
/// the event at `j`.
pub proof fn lemma_run_take_snoc(v: ServiceView, es: Seq<Event>, j: int)
    requires
        0 <= j < es.len(),
    ensures
        run(v, es.take(j + 1)) == step(run(v, es.take(j)), es[j]),
{
    assert(es.take(j + 1) =~= es.take(j).push(es[j]));
    lemma_run_push(v, es.take(j), es[j]);
}

/// An id below the last issued one that is absent from the store stays
/// absent across any one event: a send only ever writes a strictly fresher
/// id, and a delete only removes.
pub proof fn lemma_step_preserves_absent(v: ServiceView, e: Event, id: u64)
    requires
        !v.msgs.dom().contains(id),
        id <= v.last_id,
        e is Send ==> v.last_id < u64::MAX,
    ensures
        !step(v, e).msgs.dom().contains(id),
        id <= step(v, e).last_id,
{
}

/// For all histories of sends: the resulting set of stored ids is exactly
/// the initial set together with the ids allocated to the sends whose
/// transfer succeeded (and whose record fits), each send with a distinct
/// fresh id; the last issued id advances by one per send.
pub proof fn lemma_sends_commit_exactly(v: ServiceView, es: Seq<Event>)
    requires
        wf_view(v),
        all_sends(es),
        v.last_id + es.len() <= u64::MAX,
    ensures
        run(v, es).last_id == v.last_id + es.len(),
        run(v, es).msgs.dom() =~= v.msgs.dom() + committed_ids(v.last_id, es),
        v.msgs.dom().disjoint(committed_ids(v.last_id, es)),
    decreases es.len(),
{
    if es.len() == 0 {
        assert(committed_ids(v.last_id, es) =~= Set::<u64>::empty());
        assert(v.msgs.dom() + committed_ids(v.last_id, es) =~= v.msgs.dom());
    } else {
        let v1 = step(v, es[0]);
        let id0 = (v.last_id + 1) as u64;
        assert(es[0] is Send);
        assert forall|k: u64| #[trigger] v1.msgs.dom().contains(k) implies 1 <= k && k
            <= v1.last_id by {
            if !v.msgs.dom().contains(k) {
                assert(k == id0);
            }
        }
        assert forall|i: int| 0 <= i < es.skip(1).len() implies es.skip(1)[i] is Send by {
            assert(es.skip(1)[i] == es[i + 1]);
        }
        lemma_sends_commit_exactly(v1, es.skip(1));

        let left = committed_ids(v.last_id, es);
        let right = committed_ids(id0, es.skip(1));
        assert forall|id: u64| left.contains(id) implies (v1.msgs.dom().contains(id)
            || right.contains(id)) by {
            let i = choose|i: int|
                0 <= i < es.len() && id == v.last_id + i + 1 && #[trigger] event_commits(
                    es[i],
                    id,
                );
            if i == 0 {
                assert(event_commits(es[0], id0));
            } else {
                assert(es.skip(1)[i - 1] == es[i]);
                assert(0 <= i - 1 < es.skip(1).len() && id == id0 + (i - 1) + 1
                    && event_commits(es.skip(1)[i - 1], id));
            }
        }
        assert forall|id: u64| right.contains(id) implies left.contains(id) by {
            let i = choose|i: int|
                0 <= i < es.skip(1).len() && id == id0 + i + 1 && #[trigger] event_commits(
                    es.skip(1)[i],
                    id,
                );
            assert(es.skip(1)[i] == es[i + 1]);
            assert(0 <= i + 1 < es.len() && id == v.last_id + (i + 1) + 1 && event_commits(
                es[i + 1],
                id,
            ));
        }
        if event_commits(es[0], id0) {
            assert(left.contains(id0)) by {
                assert(0 <= 0 < es.len() && id0 == v.last_id + 0 + 1 && event_commits(
                    es[0],
                    id0,
                ));
            }
            assert(v1.msgs.dom() =~= v.msgs.dom().insert(id0));
        } else {
            assert(v1.msgs == v.msgs);
            assert forall|id: u64| left.contains(id) implies right.contains(id) by {
                let i = choose|i: int|
                    0 <= i < es.len() && id == v.last_id + i + 1 && #[trigger] event_commits(
                        es[i],
                        id,
                    );
                assert(i != 0);
                assert(es.skip(1)[i - 1] == es[i]);
                assert(0 <= i - 1 < es.skip(1).len() && id == id0 + (i - 1) + 1
                    && event_commits(es.skip(1)[i - 1], id));
            }
        }
        assert(run(v, es).msgs.dom() =~= v.msgs.dom() + left);
        assert forall|id: u64| left.contains(id) implies !v.msgs.dom().contains(id) by {
            let i = choose|i: int|
                0 <= i < es.len() && id == v.last_id + i + 1 && #[trigger] event_commits(
                    es[i],
                    id,
                );
        }
    }
}

/// If the send at position `i` of a history does not commit — its transfer
/// failed, or its record was over the size bound — then the id it consumed
/// is absent from the store after every later point of the history.
pub proof fn lemma_failed_send_never_stored(v: ServiceView, es: Seq<Event>, i: int, j: int)
    requires
        wf_view(v),
        v.last_id + es.len() <= u64::MAX,
        0 <= i < es.len(),
        es[i] is Send,
        !event_commits(es[i], alloc_id(v, es, i)),
        i < j <= es.len(),
    ensures
        !run(v, es.take(j)).msgs.dom().contains(alloc_id(v, es, i)),
        alloc_id(v, es, i) <= run(v, es.take(j)).last_id,
    decreases j,
{
    let id = alloc_id(v, es, i);
    let vi = run(v, es.take(i));
    assert(es.take(i).len() == i);
    lemma_run_bounds(v, es.take(i));
    lemma_run_wf(v, es.take(i));
    if j == i + 1 {
        lemma_run_take_snoc(v, es, i);
        assert(step(vi, es[i]).msgs == vi.msgs);
        assert(!vi.msgs.dom().contains(id));
    } else {
        lemma_failed_send_never_stored(v, es, i, j - 1);
        lemma_run_take_snoc(v, es, j - 1);
        let vp = run(v, es.take(j - 1));
        assert(es.take(j - 1).len() == j - 1);
        lemma_run_bounds(v, es.take(j - 1));
        lemma_step_preserves_absent(vp, es[j - 1], id);
    }
}

/// Identifier allocation is strictly increasing across the lifetime of the
/// store: a later send of any history is allocated a strictly larger id
/// than an earlier one, so no id is ever returned twice.
pub proof fn lemma_ids_strictly_increasing(v: ServiceView, es: Seq<Event>, i: int, j: int)
    requires
        v.last_id + es.len() <= u64::MAX,
        0 <= i < j < es.len(),
        es[i] is Send,
        es[j] is Send,
    ensures
        alloc_id(v, es, i) < alloc_id(v, es, j),
{
    lemma_run_bounds(v, es.take(i));
    assert(es.take(i).len() == i);
    lemma_run_take_snoc(v, es, i);
    assert(run(v, es.take(i + 1)).last_id == alloc_id(v, es, i));
    lemma_run_last_monotone(v, es, i + 1, j);
    lemma_run_bounds(v, es.take(j));
    assert(es.take(j).len() == j);
}

/// The last issued id never decreases from one prefix of a history to a
/// longer one.
pub proof fn lemma_run_last_monotone(v: ServiceView, es: Seq<Event>, a: int, b: int)
    requires
        v.last_id + es.len() <= u64::MAX,
        0 <= a <= b <= es.len(),
    ensures
        run(v, es.take(a)).last_id <= run(v, es.take(b)).last_id,
    decreases b - a,
{
    if a < b {
        lemma_run_last_monotone(v, es, a, b - 1);
        lemma_run_take_snoc(v, es, b - 1);
        lemma_run_bounds(v, es.take(b - 1));
        assert(es.take(b - 1).len() == b - 1);
    }
}

/// Identifiers never repeat across a restart: re-initialization from
/// durable state yields a counter at least as large as every id issued
/// before — the counter is durable and never decremented — and from any such
/// state every id a later send allocates is strictly greater than every id
/// issued earlier.
pub proof fn lemma_no_reissue_after_reload(v: ServiceView, es: Seq<Event>, c: u64, i: int)
    requires
        c <= v.last_id,
        v.last_id + es.len() <= u64::MAX,
        0 <= i < es.len(),
        es[i] is Send,
    ensures
        alloc_id(v, es, i) > c,
{
    lemma_run_bounds(v, es.take(i));
    assert(es.take(i).len() == i);
}

/// Deleting an id leaves nothing to get under it: a get after a delete
/// yields absence, and a second delete of the same id finds nothing — while
/// every other id's record is untouched.
pub proof fn lemma_delete_then_get(v: ServiceView, id: u64)
    ensures
        spec_get(spec_delete(v, id), id) is None,
        spec_get(spec_delete(spec_delete(v, id), id), id) is None,
        forall|k: u64| k != id ==> spec_get(spec_delete(v, id), k) == spec_get(v, k),
{
}

} // verus!
