//! What holds of the resolve worker across its steps.

use crate::error::Error;
use crate::helpers::Named;
use crate::resolver::{
    answered, answers_with, dispatch_actions, dispatched_slots, finish_actions, finished_slots,
    starts, Action, Slot, WorkerMessage,
};
use crate::run::{message_key, step_actions};
use vstd::prelude::*;

verus! {

/// Whether the provider of `k` is running.
pub open spec fn running<W, I>(slots: Map<u64, Named<Slot<W, I>>>, k: u64) -> bool {
    slots.contains_key(k) && slots[k].value is Running
}

/// The requests that wait for the provider of `k`, oldest first.
pub open spec fn waiting<W, I>(slots: Map<u64, Named<Slot<W, I>>>, k: u64) -> Seq<W> {
    if running(slots, k) {
        slots[k].value->Running_0
    } else {
        Seq::empty()
    }
}

/// The service types whose providers `actions` start.
pub open spec fn started<W, I, P>(actions: Seq<Action<W, I, P>>) -> Set<u64> {
    Set::new(
        |k: u64|
            exists|i: int|
                0 <= i < actions.len() && #[trigger] actions[i] is StartProvider
                    && actions[i]->StartProvider_type_info.value == k,
    )
}

/// `in_flight` is exactly the set of service types whose providers run.
pub open spec fn in_flight_matches<W, I>(
    slots: Map<u64, Named<Slot<W, I>>>,
    in_flight: Set<u64>,
) -> bool {
    forall|k: u64| #[trigger] in_flight.contains(k) <==> running(slots, k)
}

/// Replies to `txs`, in order, are answered to exactly `txs`.
pub(crate) proof fn lemma_answered_replies<W, I, P>(actions: Seq<Action<W, I, P>>, txs: Seq<W>)
    requires
        actions.len() == txs.len(),
        forall|i: int|
            0 <= i < actions.len() ==> #[trigger] actions[i] is Reply && actions[i]->Reply_tx
                == txs[i],
    ensures
        answered(actions) == txs,
    decreases actions.len(),
{
    if actions.len() > 0 {
        lemma_answered_replies(actions.drop_last(), txs.drop_last());
        assert(actions[actions.len() - 1] is Reply);
        assert(txs.drop_last().push(txs.last()) =~= txs);
    }
}

/// No request is lost or answered twice by a dispatch: the request is either
/// answered or queued after the requests that already wait for its service
/// type, and the slots of all other service types stay as they were.
pub proof fn lemma_dispatch_keeps_every_request<W, I: Clone, P: Clone>(
    slots: Map<u64, Named<Slot<W, I>>>,
    providers: Map<u64, Named<P>>,
    type_info: Named<u64>,
    tx: W,
    actions: Seq<Action<W, I, P>>,
)
    requires
        dispatch_actions(slots, providers, type_info, tx, actions),
    ensures
        waiting(dispatched_slots(slots, providers, type_info, tx), type_info.value) + answered(
            actions,
        ) == waiting(slots, type_info.value).push(tx),
        dispatched_slots(slots, providers, type_info, tx).remove(type_info.value) == slots.remove(
            type_info.value,
        ),
{
    reveal_with_fuel(answered, 2);
    let k = type_info.value;
    let post = dispatched_slots(slots, providers, type_info, tx);
    if actions.len() == 1 {
        assert(actions.drop_last() =~= Seq::<Action<W, I, P>>::empty());
    }
    if slots.contains_key(k) {
        match slots[k].value {
            Slot::Running(w) => {
                assert(waiting(post, k) + answered(actions) =~= w.push(tx));
            },
            Slot::Resolved(_) => {
                assert(waiting(post, k) + answered(actions) =~= seq![tx]);
            },
        }
    } else if providers.contains_key(k) {
        assert(waiting(post, k) + answered(actions) =~= seq![tx]);
    } else {
        assert(waiting(post, k) + answered(actions) =~= seq![tx]);
    }
    assert(post.remove(k) =~= slots.remove(k));
}

/// When a provider finishes, every request that waited for it is answered,
/// oldest first, none is left waiting for that service type, and the slots of
/// all other service types stay as they were.
pub proof fn lemma_finish_answers_every_waiting_request<W, I: Clone, P>(
    slots: Map<u64, Named<Slot<W, I>>>,
    type_info: Named<u64>,
    result: Result<I, Error>,
    actions: Seq<Action<W, I, P>>,
)
    requires
        running(slots, type_info.value),
        finish_actions(waiting(slots, type_info.value), result, actions),
    ensures
        answered(actions) == waiting(slots, type_info.value),
        waiting(finished_slots(slots, type_info, result), type_info.value) == Seq::<W>::empty(),
        finished_slots(slots, type_info, result).remove(type_info.value) == slots.remove(
            type_info.value,
        ),
{
    let k = type_info.value;
    let w = waiting(slots, k);
    assert forall|i: int| 0 <= i < actions.len() implies #[trigger] actions[i] is Reply
        && actions[i]->Reply_tx == w[i] by {
        match result {
            Ok(instance) => {
                assert(answers_with(actions[i], w[i], instance));
            },
            Err(e) => {
                assert(actions[i] == Action::<W, I, P>::Reply { tx: w[i], result: Err(e) });
            },
        }
    }
    lemma_answered_replies(actions, w);
    assert(finished_slots(slots, type_info, result).remove(k) =~= slots.remove(k));
}

/// A dispatch starts a provider only for a service type that has no slot, so
/// never one that runs or has resolved; if `in_flight` was the set of running
/// providers, it is afterwards joined by exactly the providers started.
pub proof fn lemma_dispatch_starts_no_second_provider<W, I: Clone, P: Clone>(
    slots: Map<u64, Named<Slot<W, I>>>,
    providers: Map<u64, Named<P>>,
    type_info: Named<u64>,
    tx: W,
    actions: Seq<Action<W, I, P>>,
    in_flight: Set<u64>,
)
    requires
        in_flight_matches(slots, in_flight),
        dispatch_actions(slots, providers, type_info, tx, actions),
    ensures
        forall|k: u64| #[trigger] started(actions).contains(k) ==> !slots.contains_key(k),
        in_flight_matches(
            dispatched_slots(slots, providers, type_info, tx),
            in_flight.union(started(actions)),
        ),
{
    let k = type_info.value;
    let post = dispatched_slots(slots, providers, type_info, tx);
    if !slots.contains_key(k) && providers.contains_key(k) {
        assert(actions[0] is StartProvider);
        assert(started(actions) =~= set![k]);
    } else {
        assert(started(actions) =~= Set::<u64>::empty()) by {
            if slots.contains_key(k) {
            } else {
                assert(actions[0] is Reply);
            }
        }
    }
    assert forall|j: u64| #[trigger] in_flight.union(started(actions)).contains(j) <==> running(
        post,
        j,
    ) by {
        if j != k {
            assert(post.contains_key(j) == slots.contains_key(j));
            if slots.contains_key(j) {
                assert(post[j] == slots[j]);
            }
        }
    }
}

/// The outcome of a running provider finds its slot running, and afterwards
/// that provider is no longer in flight.
pub proof fn lemma_finish_ends_flight<W, I>(
    slots: Map<u64, Named<Slot<W, I>>>,
    type_info: Named<u64>,
    result: Result<I, Error>,
    in_flight: Set<u64>,
)
    requires
        in_flight_matches(slots, in_flight),
        in_flight.contains(type_info.value),
    ensures
        running(slots, type_info.value),
        in_flight_matches(finished_slots(slots, type_info, result), in_flight.remove(type_info.value)),
{
    let post = finished_slots(slots, type_info, result);
    assert forall|j: u64| #[trigger] in_flight.remove(type_info.value).contains(j) <==> running(
        post,
        j,
    ) by {
        if j != type_info.value {
            assert(post.contains_key(j) == slots.contains_key(j));
            if slots.contains_key(j) {
                assert(post[j] == slots[j]);
            }
        }
    }
}

/// Once a provider has succeeded, every later request for its service type is
/// answered at once with a clone of the same instance, the provider is not
/// started again and the slots stay as they are.
pub proof fn lemma_resolved_instance_is_shared<W, I: Clone, P: Clone>(
    slots: Map<u64, Named<Slot<W, I>>>,
    providers: Map<u64, Named<P>>,
    type_info: Named<u64>,
    instance: I,
    request: Named<u64>,
    tx: W,
    actions: Seq<Action<W, I, P>>,
)
    requires
        request.value == type_info.value,
        dispatch_actions(finished_slots(slots, type_info, Ok(instance)), providers, request, tx, actions),
    ensures
        dispatched_slots(finished_slots(slots, type_info, Ok(instance)), providers, request, tx)
            == finished_slots(slots, type_info, Ok(instance)),
        actions.len() == 1,
        answers_with(actions[0], tx, instance),
        started(actions) == Set::<u64>::empty(),
{
    assert(started(actions) =~= Set::<u64>::empty()) by {
        assert(actions[0] is Reply);
    }
}

/// After a provider has failed, the next request for its service type starts
/// the provider again and waits for it alone.
pub proof fn lemma_failed_provision_is_retried<W, I: Clone, P: Clone>(
    slots: Map<u64, Named<Slot<W, I>>>,
    providers: Map<u64, Named<P>>,
    type_info: Named<u64>,
    error: Error,
    request: Named<u64>,
    tx: W,
    actions: Seq<Action<W, I, P>>,
)
    requires
        request.value == type_info.value,
        providers.contains_key(type_info.value),
        dispatch_actions(finished_slots(slots, type_info, Err(error)), providers, request, tx, actions),
    ensures
        actions.len() == 1,
        starts(actions[0], request, providers[type_info.value].value),
        waiting(
            dispatched_slots(finished_slots(slots, type_info, Err(error)), providers, request, tx),
            type_info.value,
        ) == seq![tx],
{
}

/// A request for a service type without a provider is answered with
/// `UnregisteredServiceType` and the request's type name, and changes nothing,
/// provided that every slot belongs to a registered type.
pub proof fn lemma_unregistered_request_is_refused<W, I: Clone, P: Clone>(
    slots: Map<u64, Named<Slot<W, I>>>,
    providers: Map<u64, Named<P>>,
    type_info: Named<u64>,
    tx: W,
    actions: Seq<Action<W, I, P>>,
)
    requires
        forall|k: u64| #[trigger] slots.contains_key(k) ==> providers.contains_key(k),
        !providers.contains_key(type_info.value),
        dispatch_actions(slots, providers, type_info, tx, actions),
    ensures
        dispatched_slots(slots, providers, type_info, tx) == slots,
        actions == seq![
            Action::<W, I, P>::Reply {
                tx,
                result: Err(Error::UnregisteredServiceType(type_info.name)),
            },
        ],
{
}

/// A provider's outcome reaches every request that waited for it, oldest
/// first, as it came: a failure with exactly the provider's error, a success
/// with a clone of the provider's instance.
pub proof fn lemma_outcome_reaches_waiting_requests<W, I: Clone, P>(
    waiting: Seq<W>,
    result: Result<I, Error>,
    actions: Seq<Action<W, I, P>>,
)
    requires
        finish_actions(waiting, result, actions),
    ensures
        actions.len() == waiting.len(),
        forall|i: int|
            0 <= i < actions.len() ==> {
                &&& #[trigger] actions[i] is Reply
                &&& actions[i]->Reply_tx == waiting[i]
                &&& (result is Err ==> actions[i]->Reply_result == result)
                &&& (result is Ok ==> actions[i]->Reply_result is Ok && cloned(
                    result->Ok_0,
                    actions[i]->Reply_result->Ok_0,
                ))
            },
{
    assert forall|i: int| 0 <= i < actions.len() implies {
        &&& #[trigger] actions[i] is Reply
        &&& actions[i]->Reply_tx == waiting[i]
        &&& (result is Err ==> actions[i]->Reply_result == result)
        &&& (result is Ok ==> actions[i]->Reply_result is Ok && cloned(
            result->Ok_0,
            actions[i]->Reply_result->Ok_0,
        ))
    } by {
        match result {
            Ok(instance) => {
                assert(answers_with(actions[i], waiting[i], instance));
            },
            Err(e) => {
                assert(actions[i] == Action::<W, I, P>::Reply { tx: waiting[i], result: Err(e) });
            },
        }
    }
}

/// Among the answers of one step, `UnregisteredServiceType(name)` comes only
/// for a request of a type that has neither a slot nor a registered provider,
/// under the request's own name, or as the very error that a provider failed
/// with (when one of its own dependencies was not registered).
pub proof fn lemma_unregistered_only_for_missing_provider<W, I: Clone, P: Clone>(
    slots: Map<u64, Named<Slot<W, I>>>,
    providers: Map<u64, Named<P>>,
    m: WorkerMessage<W, I>,
    actions: Seq<Action<W, I, P>>,
    name: &'static str,
)
    requires
        step_actions(slots, providers, m, actions),
    ensures
        forall|i: int|
            0 <= i < actions.len() && #[trigger] actions[i] is Reply && actions[i]->Reply_result
                == Err::<I, Error>(Error::UnregisteredServiceType(name)) ==> {
                ||| (m is ResolveRequest && !slots.contains_key(message_key(m))
                    && !providers.contains_key(message_key(m))
                    && m->ResolveRequest_type_info.name == name)
                ||| (m is ProviderCallback && m->ProviderCallback_result == Err::<I, Error>(
                    Error::UnregisteredServiceType(name),
                ))
            },
{
    match m {
        WorkerMessage::ResolveRequest { type_info, tx } => {
            let k = type_info.value;
            if slots.contains_key(k) {
                match slots[k].value {
                    Slot::Running(_) => {},
                    Slot::Resolved(instance) => {
                        assert(answers_with(actions[0], tx, instance));
                    },
                }
            } else if providers.contains_key(k) {
                assert(starts(actions[0], type_info, providers[k].value));
            }
        },
        WorkerMessage::ProviderCallback { type_info, result } => {
            lemma_outcome_reaches_waiting_requests(waiting(slots, type_info.value), result, actions);
        },
    }
}

} // verus!
