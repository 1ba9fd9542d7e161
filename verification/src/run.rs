//! What holds over a whole run of the resolve worker: a sequence of messages
//! handled one after the other, from the state that `finalize` gives.

use crate::helpers::Named;
use crate::laws::{in_flight_matches, lemma_answered_replies, running, waiting};
use crate::resolver::{
    answered, answers_with, dispatch_actions, dispatched_slots, finish_actions, finished_slots,
    Action, Slot, WorkerMessage,
};
use vstd::prelude::*;

verus! {

/// The service type that a message is about.
pub open spec fn message_key<W, I>(m: WorkerMessage<W, I>) -> u64 {
    match m {
        WorkerMessage::ResolveRequest { type_info, .. } => type_info.value,
        WorkerMessage::ProviderCallback { type_info, .. } => type_info.value,
    }
}

/// The slots after handling `m`.
pub open spec fn step_slots<W, I, P>(
    slots: Map<u64, Named<Slot<W, I>>>,
    providers: Map<u64, Named<P>>,
    m: WorkerMessage<W, I>,
) -> Map<u64, Named<Slot<W, I>>> {
    match m {
        WorkerMessage::ResolveRequest { type_info, tx } => dispatched_slots(
            slots,
            providers,
            type_info,
            tx,
        ),
        WorkerMessage::ProviderCallback { type_info, result } => finished_slots(
            slots,
            type_info,
            result,
        ),
    }
}

/// Whether handling `m` starts a provider (the one of `message_key(m)`).
pub open spec fn step_starts<W, I, P>(
    slots: Map<u64, Named<Slot<W, I>>>,
    providers: Map<u64, Named<P>>,
    m: WorkerMessage<W, I>,
) -> bool {
    &&& m is ResolveRequest
    &&& !slots.contains_key(message_key(m))
    &&& providers.contains_key(message_key(m))
}

/// The providers in flight after handling `m`: a started one joins, the one
/// whose outcome arrives leaves.
pub open spec fn step_in_flight<W, I, P>(
    slots: Map<u64, Named<Slot<W, I>>>,
    providers: Map<u64, Named<P>>,
    in_flight: Set<u64>,
    m: WorkerMessage<W, I>,
) -> Set<u64> {
    if m is ResolveRequest {
        if step_starts(slots, providers, m) {
            in_flight.insert(message_key(m))
        } else {
            in_flight
        }
    } else {
        in_flight.remove(message_key(m))
    }
}

/// The requests that handling `m` answers, in order.
pub open spec fn step_answers<W, I, P>(
    slots: Map<u64, Named<Slot<W, I>>>,
    providers: Map<u64, Named<P>>,
    m: WorkerMessage<W, I>,
) -> Seq<W> {
    match m {
        WorkerMessage::ResolveRequest { type_info, tx } => {
            let k = type_info.value;
            if running(slots, k) || (!slots.contains_key(k) && providers.contains_key(k)) {
                Seq::empty()
            } else {
                seq![tx]
            }
        },
        WorkerMessage::ProviderCallback { type_info, .. } => waiting(slots, type_info.value),
    }
}

/// `actions` is what handling `m` may yield.
pub open spec fn step_actions<W, I: Clone, P: Clone>(
    slots: Map<u64, Named<Slot<W, I>>>,
    providers: Map<u64, Named<P>>,
    m: WorkerMessage<W, I>,
    actions: Seq<Action<W, I, P>>,
) -> bool {
    match m {
        WorkerMessage::ResolveRequest { type_info, tx } => dispatch_actions(
            slots,
            providers,
            type_info,
            tx,
            actions,
        ),
        WorkerMessage::ProviderCallback { type_info, result } => finish_actions(
            waiting(slots, type_info.value),
            result,
            actions,
        ),
    }
}

/// The slots after handling `msgs` in order.
pub open spec fn run_slots<W, I, P>(
    slots: Map<u64, Named<Slot<W, I>>>,
    providers: Map<u64, Named<P>>,
    msgs: Seq<WorkerMessage<W, I>>,
) -> Map<u64, Named<Slot<W, I>>>
    decreases msgs.len(),
{
    if msgs.len() == 0 {
        slots
    } else {
        step_slots(run_slots(slots, providers, msgs.drop_last()), providers, msgs.last())
    }
}

/// The providers in flight after handling `msgs` in order.
pub open spec fn run_in_flight<W, I, P>(
    slots: Map<u64, Named<Slot<W, I>>>,
    providers: Map<u64, Named<P>>,
    in_flight: Set<u64>,
    msgs: Seq<WorkerMessage<W, I>>,
) -> Set<u64>
    decreases msgs.len(),
{
    if msgs.len() == 0 {
        in_flight
    } else {
        step_in_flight(
            run_slots(slots, providers, msgs.drop_last()),
            providers,
            run_in_flight(slots, providers, in_flight, msgs.drop_last()),
            msgs.last(),
        )
    }
}

/// The driver's discipline: an outcome arrives only for a provider in flight,
/// that is, each started provider reports once.
pub open spec fn outcomes_follow_starts<W, I, P>(
    slots: Map<u64, Named<Slot<W, I>>>,
    providers: Map<u64, Named<P>>,
    in_flight: Set<u64>,
    msgs: Seq<WorkerMessage<W, I>>,
) -> bool {
    forall|i: int|
        0 <= i < msgs.len() && #[trigger] msgs[i] is ProviderCallback ==> run_in_flight(
            slots,
            providers,
            in_flight,
            msgs.take(i),
        ).contains(message_key(msgs[i]))
}

/// The requests for the service type `t` among `msgs`, in order.
pub open spec fn requests_for<W, I>(msgs: Seq<WorkerMessage<W, I>>, t: u64) -> Seq<W>
    decreases msgs.len(),
{
    if msgs.len() == 0 {
        Seq::empty()
    } else {
        let earlier = requests_for(msgs.drop_last(), t);
        if msgs.last() is ResolveRequest && message_key(msgs.last()) == t {
            earlier.push(msgs.last()->ResolveRequest_tx)
        } else {
            earlier
        }
    }
}

/// The requests for the service type `t` answered while handling `msgs`, in order.
pub open spec fn run_answers_for<W, I, P>(
    slots: Map<u64, Named<Slot<W, I>>>,
    providers: Map<u64, Named<P>>,
    msgs: Seq<WorkerMessage<W, I>>,
    t: u64,
) -> Seq<W>
    decreases msgs.len(),
{
    if msgs.len() == 0 {
        Seq::empty()
    } else {
        let earlier = run_answers_for(slots, providers, msgs.drop_last(), t);
        if message_key(msgs.last()) == t {
            earlier + step_answers(
                run_slots(slots, providers, msgs.drop_last()),
                providers,
                msgs.last(),
            )
        } else {
            earlier
        }
    }
}

/// How the slot of `t` may change in one step: an absent slot stays absent or
/// starts running; a running one keeps its waiting requests as a prefix, or
/// resolves, or is cleared; a resolved one stays exactly as it is.
pub open spec fn slot_moves<W, I>(
    before: Map<u64, Named<Slot<W, I>>>,
    after: Map<u64, Named<Slot<W, I>>>,
    t: u64,
) -> bool {
    if !before.contains_key(t) {
        !after.contains_key(t) || after[t].value is Running
    } else if before[t].value is Resolved {
        after.contains_key(t) && after[t] == before[t]
    } else {
        ||| !after.contains_key(t)
        ||| after[t].value is Resolved
        ||| (after[t].value is Running && waiting(before, t).is_prefix_of(waiting(after, t)))
    }
}


/// The actions of one step answer exactly `step_answers`.
pub proof fn lemma_step_answers<W, I: Clone, P: Clone>(
    slots: Map<u64, Named<Slot<W, I>>>,
    providers: Map<u64, Named<P>>,
    m: WorkerMessage<W, I>,
    actions: Seq<Action<W, I, P>>,
)
    requires
        step_actions(slots, providers, m, actions),
    ensures
        answered(actions) == step_answers(slots, providers, m),
{
    reveal_with_fuel(answered, 2);
    match m {
        WorkerMessage::ResolveRequest { type_info, tx } => {
            if actions.len() == 1 {
                assert(actions.drop_last() =~= Seq::<Action<W, I, P>>::empty());
            }
            let k = type_info.value;
            if slots.contains_key(k) {
                match slots[k].value {
                    Slot::Running(_) => {},
                    Slot::Resolved(instance) => {
                        assert(answers_with(actions[0], tx, instance));
                        assert(answered(actions) =~= seq![tx]);
                    },
                }
            } else if providers.contains_key(k) {
            } else {
                assert(answered(actions) =~= seq![tx]);
            }
        },
        WorkerMessage::ProviderCallback { type_info, result } => {
            let w = waiting(slots, type_info.value);
            assert forall|i: int| 0 <= i < actions.len() implies #[trigger] actions[i] is Reply
                && actions[i]->Reply_tx == w[i] by {
                match result {
                    Ok(instance) => {
                        assert(answers_with(actions[i], w[i], instance));
                    },
                    Err(e) => {},
                }
            }
            lemma_answered_replies(actions, w);
        },
    }
}

/// One step keeps `in_flight` equal to the running providers; an outcome for a
/// provider in flight finds its slot running, and no provider in flight is
/// started again.
pub proof fn lemma_step_in_flight<W, I, P>(
    slots: Map<u64, Named<Slot<W, I>>>,
    providers: Map<u64, Named<P>>,
    in_flight: Set<u64>,
    m: WorkerMessage<W, I>,
)
    requires
        in_flight_matches(slots, in_flight),
        m is ProviderCallback ==> in_flight.contains(message_key(m)),
    ensures
        in_flight_matches(
            step_slots(slots, providers, m),
            step_in_flight(slots, providers, in_flight, m),
        ),
        m is ProviderCallback ==> running(slots, message_key(m)),
        step_starts(slots, providers, m) ==> !in_flight.contains(message_key(m)),
{
    let k = message_key(m);
    let post = step_slots(slots, providers, m);
    let f = step_in_flight(slots, providers, in_flight, m);
    assert forall|j: u64| #[trigger] f.contains(j) <==> running(post, j) by {
        if j != k {
            assert(post.contains_key(j) == slots.contains_key(j));
            if slots.contains_key(j) {
                assert(post[j] == slots[j]);
            }
        }
    }
}

/// How one step moves the slot of any service type, given that an outcome
/// arrives only for a running provider.
pub proof fn lemma_step_slot_moves<W, I, P>(
    slots: Map<u64, Named<Slot<W, I>>>,
    providers: Map<u64, Named<P>>,
    m: WorkerMessage<W, I>,
    t: u64,
)
    requires
        m is ProviderCallback ==> running(slots, message_key(m)),
    ensures
        slot_moves(slots, step_slots(slots, providers, m), t),
{
    let post = step_slots(slots, providers, m);
    if t == message_key(m) {
        if running(slots, t) && running(post, t) {
            assert(waiting(slots, t).is_prefix_of(waiting(post, t)));
        }
    } else {
        assert(post.contains_key(t) == slots.contains_key(t));
        if slots.contains_key(t) {
            assert(post[t] == slots[t]);
            if running(slots, t) {
                assert(waiting(slots, t).is_prefix_of(waiting(post, t)));
            }
        }
    }
}

/// One step answers or queues the request it carries and loses none: for the
/// message's service type, what is answered followed by what waits afterwards
/// is what waited before followed by the new request; other types keep their
/// waiting requests.
pub proof fn lemma_step_conserves<W, I, P>(
    slots: Map<u64, Named<Slot<W, I>>>,
    providers: Map<u64, Named<P>>,
    m: WorkerMessage<W, I>,
    t: u64,
)
    ensures
        t == message_key(m) ==> step_answers(slots, providers, m) + waiting(
            step_slots(slots, providers, m),
            t,
        ) == waiting(slots, t) + requests_for(seq![m], t),
        t != message_key(m) ==> waiting(step_slots(slots, providers, m), t) == waiting(slots, t),
{
    reveal_with_fuel(requests_for, 2);
    let s1 = seq![m];
    assert(s1.drop_last() =~= Seq::<WorkerMessage<W, I>>::empty());
    assert(s1.last() == m);
    let post = step_slots(slots, providers, m);
    if t == message_key(m) {
        match m {
            WorkerMessage::ResolveRequest { type_info, tx } => {
                assert(requests_for(s1, t) =~= seq![tx]);
                if slots.contains_key(t) {
                    match slots[t].value {
                        Slot::Running(w) => {
                            assert(step_answers(slots, providers, m) + waiting(post, t) =~= w.push(
                                tx,
                            ));
                        },
                        Slot::Resolved(_) => {
                            assert(step_answers(slots, providers, m) + waiting(post, t) =~= seq![
                                tx,
                            ]);
                        },
                    }
                } else {
                    assert(step_answers(slots, providers, m) + waiting(post, t) =~= seq![tx]);
                }
            },
            WorkerMessage::ProviderCallback { type_info, result } => {
                assert(requests_for(s1, t) =~= Seq::<W>::empty());
                assert(step_answers(slots, providers, m) + waiting(post, t) =~= waiting(slots, t));
            },
        }
    } else {
        assert(post.contains_key(t) == slots.contains_key(t));
        if slots.contains_key(t) {
            assert(post[t] == slots[t]);
        }
    }
}

/// The prefix of `msgs` one longer than `msgs.take(i)` ends in `msgs[i]`.
proof fn lemma_take_step<M>(msgs: Seq<M>, i: int)
    requires
        0 <= i < msgs.len(),
    ensures
        msgs.take(i + 1).drop_last() == msgs.take(i),
        msgs.take(i + 1).last() == msgs[i],
        msgs.take(i + 1).len() == i + 1,
{
    assert(msgs.take(i + 1).drop_last() =~= msgs.take(i));
}

/// `in_flight` stays equal to the running providers along the first `n`
/// messages of a run that follows the driver's discipline.
proof fn lemma_run_in_flight_upto<W, I, P>(
    slots: Map<u64, Named<Slot<W, I>>>,
    providers: Map<u64, Named<P>>,
    in_flight: Set<u64>,
    msgs: Seq<WorkerMessage<W, I>>,
    n: int,
)
    requires
        in_flight_matches(slots, in_flight),
        outcomes_follow_starts(slots, providers, in_flight, msgs),
        0 <= n <= msgs.len(),
    ensures
        in_flight_matches(
            run_slots(slots, providers, msgs.take(n)),
            run_in_flight(slots, providers, in_flight, msgs.take(n)),
        ),
    decreases n,
{
    if n == 0 {
        assert(msgs.take(0) =~= Seq::<WorkerMessage<W, I>>::empty());
    } else {
        lemma_run_in_flight_upto(slots, providers, in_flight, msgs, n - 1);
        lemma_take_step(msgs, n - 1);
        if msgs[n - 1] is ProviderCallback {
            assert(run_in_flight(slots, providers, in_flight, msgs.take(n - 1)).contains(
                message_key(msgs[n - 1]),
            ));
        }
        lemma_step_in_flight(
            run_slots(slots, providers, msgs.take(n - 1)),
            providers,
            run_in_flight(slots, providers, in_flight, msgs.take(n - 1)),
            msgs[n - 1],
        );
    }
}

/// Over a whole run in which each started provider reports its outcome once
/// (an outcome arrives only for a provider in flight), starting from slots
/// whose running providers are `in_flight` (`finalize` gives no slots and
/// nothing in flight): every outcome finds its slot running, so the worker's
/// precondition holds at each step; no provider in flight is started a second
/// time; and after every prefix, the providers in flight are exactly the
/// running slots.
pub proof fn lemma_run_outcomes_find_running_slots<W, I, P>(
    slots: Map<u64, Named<Slot<W, I>>>,
    providers: Map<u64, Named<P>>,
    in_flight: Set<u64>,
    msgs: Seq<WorkerMessage<W, I>>,
)
    requires
        in_flight_matches(slots, in_flight),
        outcomes_follow_starts(slots, providers, in_flight, msgs),
    ensures
        forall|i: int|
            0 <= i <= msgs.len() ==> in_flight_matches(
                #[trigger] run_slots(slots, providers, msgs.take(i)),
                run_in_flight(slots, providers, in_flight, msgs.take(i)),
            ),
        forall|i: int|
            0 <= i < msgs.len() && #[trigger] msgs[i] is ProviderCallback ==> running(
                run_slots(slots, providers, msgs.take(i)),
                message_key(msgs[i]),
            ),
        forall|i: int|
            0 <= i < msgs.len() && step_starts(
                run_slots(slots, providers, msgs.take(i)),
                providers,
                #[trigger] msgs[i],
            ) ==> !run_in_flight(slots, providers, in_flight, msgs.take(i)).contains(
                message_key(msgs[i]),
            ),
{
    assert forall|i: int| 0 <= i <= msgs.len() implies in_flight_matches(
        #[trigger] run_slots(slots, providers, msgs.take(i)),
        run_in_flight(slots, providers, in_flight, msgs.take(i)),
    ) by {
        lemma_run_in_flight_upto(slots, providers, in_flight, msgs, i);
    }
    assert forall|i: int| 0 <= i < msgs.len() implies (#[trigger] msgs[i] is ProviderCallback
        ==> running(run_slots(slots, providers, msgs.take(i)), message_key(msgs[i]))) && (
    step_starts(run_slots(slots, providers, msgs.take(i)), providers, msgs[i])
        ==> !run_in_flight(slots, providers, in_flight, msgs.take(i)).contains(
        message_key(msgs[i]),
    )) by {
        lemma_run_in_flight_upto(slots, providers, in_flight, msgs, i);
        if msgs[i] is ProviderCallback {
            assert(run_in_flight(slots, providers, in_flight, msgs.take(i)).contains(
                message_key(msgs[i]),
            ));
        }
        lemma_step_in_flight(
            run_slots(slots, providers, msgs.take(i)),
            providers,
            run_in_flight(slots, providers, in_flight, msgs.take(i)),
            msgs[i],
        );
    }
}

/// The life of each slot over a run that follows the driver's discipline: an
/// absent slot only becomes running; a running one keeps its waiting requests
/// in order and only grows, resolves or is cleared; a resolved slot is never
/// replaced or removed.
pub proof fn lemma_run_slot_lifecycle<W, I, P>(
    slots: Map<u64, Named<Slot<W, I>>>,
    providers: Map<u64, Named<P>>,
    in_flight: Set<u64>,
    msgs: Seq<WorkerMessage<W, I>>,
)
    requires
        in_flight_matches(slots, in_flight),
        outcomes_follow_starts(slots, providers, in_flight, msgs),
    ensures
        forall|i: int, t: u64|
            0 <= i < msgs.len() ==> #[trigger] slot_moves(
                run_slots(slots, providers, msgs.take(i)),
                run_slots(slots, providers, msgs.take(i + 1)),
                t,
            ),
{
    lemma_run_outcomes_find_running_slots(slots, providers, in_flight, msgs);
    assert forall|i: int, t: u64| 0 <= i < msgs.len() implies #[trigger] slot_moves(
        run_slots(slots, providers, msgs.take(i)),
        run_slots(slots, providers, msgs.take(i + 1)),
        t,
    ) by {
        lemma_take_step(msgs, i);
        if msgs[i] is ProviderCallback {
            assert(running(run_slots(slots, providers, msgs.take(i)), message_key(msgs[i])));
        }
        lemma_step_slot_moves(run_slots(slots, providers, msgs.take(i)), providers, msgs[i], t);
    }
}

/// No request is lost or answered twice over a whole run: for every service
/// type, the requests answered so far followed by those still waiting are the
/// requests that waited at the start followed by those received, in order.
pub proof fn lemma_run_conserves_requests<W, I, P>(
    slots: Map<u64, Named<Slot<W, I>>>,
    providers: Map<u64, Named<P>>,
    msgs: Seq<WorkerMessage<W, I>>,
    t: u64,
)
    ensures
        run_answers_for(slots, providers, msgs, t) + waiting(run_slots(slots, providers, msgs), t)
            == waiting(slots, t) + requests_for(msgs, t),
    decreases msgs.len(),
{
    if msgs.len() == 0 {
        assert(waiting(slots, t) + Seq::<W>::empty() =~= waiting(slots, t));
        assert(Seq::<W>::empty() + waiting(slots, t) =~= waiting(slots, t));
    } else {
        let prefix = msgs.drop_last();
        let m = msgs.last();
        let pre = run_slots(slots, providers, prefix);
        lemma_run_conserves_requests(slots, providers, prefix, t);
        lemma_step_conserves(pre, providers, m, t);
        reveal_with_fuel(requests_for, 2);
        let s1 = seq![m];
        assert(s1.drop_last() =~= Seq::<WorkerMessage<W, I>>::empty());
        let a = run_answers_for(slots, providers, prefix, t);
        let w0 = waiting(slots, t);
        let r = requests_for(prefix, t);
        if t == message_key(m) {
            let st = step_answers(pre, providers, m);
            let wpost = waiting(step_slots(pre, providers, m), t);
            assert(requests_for(msgs, t) =~= r + requests_for(s1, t));
            assert((a + st) + wpost =~= (a + waiting(pre, t)) + requests_for(s1, t)) by {
                assert(st + wpost =~= waiting(pre, t) + requests_for(s1, t));
                assert((a + st) + wpost =~= a + (st + wpost));
                assert((a + waiting(pre, t)) + requests_for(s1, t) =~= a + (waiting(pre, t)
                    + requests_for(s1, t)));
            }
            assert((w0 + r) + requests_for(s1, t) =~= w0 + (r + requests_for(s1, t)));
        } else {
            assert(requests_for(msgs, t) =~= r);
        }
    }
}

/// Once every provider that a run started has reported (nothing is in flight
/// at the end of a run from `finalize`'s state that follows the driver's
/// discipline), every request has been answered exactly once, and the requests
/// of each service type in the order they came.
pub proof fn lemma_run_answers_every_request_once<W, I, P>(
    providers: Map<u64, Named<P>>,
    msgs: Seq<WorkerMessage<W, I>>,
    t: u64,
)
    requires
        outcomes_follow_starts(
            Map::<u64, Named<Slot<W, I>>>::empty(),
            providers,
            Set::<u64>::empty(),
            msgs,
        ),
        run_in_flight(
            Map::<u64, Named<Slot<W, I>>>::empty(),
            providers,
            Set::<u64>::empty(),
            msgs,
        ) == Set::<u64>::empty(),
    ensures
        run_answers_for(Map::<u64, Named<Slot<W, I>>>::empty(), providers, msgs, t)
            == requests_for(msgs, t),
{
    let s0 = Map::<u64, Named<Slot<W, I>>>::empty();
    lemma_run_outcomes_find_running_slots(s0, providers, Set::<u64>::empty(), msgs);
    assert(msgs.take(msgs.len() as int) =~= msgs);
    assert(in_flight_matches(
        run_slots(s0, providers, msgs.take(msgs.len() as int)),
        run_in_flight(s0, providers, Set::<u64>::empty(), msgs.take(msgs.len() as int)),
    ));
    assert(!Set::<u64>::empty().contains(t));
    assert(waiting(run_slots(s0, providers, msgs), t) =~= Seq::<W>::empty());
    assert(waiting(s0, t) =~= Seq::<W>::empty());
    lemma_run_conserves_requests(s0, providers, msgs, t);
    assert(run_answers_for(s0, providers, msgs, t) + Seq::<W>::empty() =~= run_answers_for(
        s0,
        providers,
        msgs,
        t,
    ));
    assert(Seq::<W>::empty() + requests_for(msgs, t) =~= requests_for(msgs, t));
}

/// After the first `n` of a burst of requests for `k`, which had no slot,
/// the provider of `k` runs and the requests wait in order.
proof fn lemma_burst_upto<W, I, P>(
    slots: Map<u64, Named<Slot<W, I>>>,
    providers: Map<u64, Named<P>>,
    requests: Seq<WorkerMessage<W, I>>,
    k: u64,
    n: int,
)
    requires
        !slots.contains_key(k),
        providers.contains_key(k),
        forall|i: int|
            0 <= i < requests.len() ==> #[trigger] requests[i] is ResolveRequest && message_key(
                requests[i],
            ) == k,
        1 <= n <= requests.len(),
    ensures
        running(run_slots(slots, providers, requests.take(n)), k),
        waiting(run_slots(slots, providers, requests.take(n)), k) == requests_for(
            requests.take(n),
            k,
        ),
    decreases n,
{
    lemma_take_step(requests, n - 1);
    let m = requests[n - 1];
    assert(m is ResolveRequest && message_key(m) == k);
    let pre = run_slots(slots, providers, requests.take(n - 1));
    if n == 1 {
        assert(requests.take(0) =~= Seq::<WorkerMessage<W, I>>::empty());
        assert(requests_for(requests.take(0), k) =~= Seq::<W>::empty());
    } else {
        lemma_burst_upto(slots, providers, requests, k, n - 1);
    }
    lemma_step_conserves(pre, providers, m, k);
    reveal_with_fuel(requests_for, 2);
    let s1 = seq![m];
    assert(s1.drop_last() =~= Seq::<WorkerMessage<W, I>>::empty());
    assert(requests_for(s1, k) =~= seq![m->ResolveRequest_tx]);
    assert(step_answers(pre, providers, m) =~= Seq::<W>::empty());
    assert(Seq::<W>::empty() + waiting(step_slots(pre, providers, m), k) =~= waiting(
        step_slots(pre, providers, m),
        k,
    ));
    assert(waiting(pre, k) + requests_for(s1, k) =~= waiting(pre, k).push(m->ResolveRequest_tx));
}

/// Requests for a service type that come while its first provision runs
/// start one provider, the first request's: none of them is answered early,
/// all of them wait in order, and the provider's outcome answers every one of
/// them with the same outcome (a clone of the one instance, or of the one
/// error), in the order they came.
pub proof fn lemma_concurrent_requests_share_one_provision<W, I: Clone, P: Clone>(
    slots: Map<u64, Named<Slot<W, I>>>,
    providers: Map<u64, Named<P>>,
    requests: Seq<WorkerMessage<W, I>>,
    k: u64,
    outcome: WorkerMessage<W, I>,
    actions: Seq<Action<W, I, P>>,
)
    requires
        !slots.contains_key(k),
        providers.contains_key(k),
        requests.len() > 0,
        forall|i: int|
            0 <= i < requests.len() ==> #[trigger] requests[i] is ResolveRequest && message_key(
                requests[i],
            ) == k,
        outcome is ProviderCallback,
        message_key(outcome) == k,
        step_actions(run_slots(slots, providers, requests), providers, outcome, actions),
    ensures
        forall|i: int|
            0 <= i < requests.len() ==> (step_starts(
                run_slots(slots, providers, requests.take(i)),
                providers,
                #[trigger] requests[i],
            ) <==> i == 0),
        forall|i: int|
            0 <= i < requests.len() ==> step_answers(
                run_slots(slots, providers, requests.take(i)),
                providers,
                #[trigger] requests[i],
            ) == Seq::<W>::empty(),
        running(run_slots(slots, providers, requests), k),
        answered(actions) == requests_for(requests, k),
        finish_actions(requests_for(requests, k), outcome->ProviderCallback_result, actions),
{
    assert forall|i: int| 0 <= i < requests.len() implies (step_starts(
        run_slots(slots, providers, requests.take(i)),
        providers,
        #[trigger] requests[i],
    ) <==> i == 0) && step_answers(
        run_slots(slots, providers, requests.take(i)),
        providers,
        requests[i],
    ) == Seq::<W>::empty() by {
        assert(requests[i] is ResolveRequest && message_key(requests[i]) == k);
        if i == 0 {
            assert(requests.take(0) =~= Seq::<WorkerMessage<W, I>>::empty());
        } else {
            lemma_burst_upto(slots, providers, requests, k, i);
        }
    }
    lemma_burst_upto(slots, providers, requests, k, requests.len() as int);
    assert(requests.take(requests.len() as int) =~= requests);
    lemma_step_answers(run_slots(slots, providers, requests), providers, outcome, actions);
}

} // verus!
