use crate::error::Error;
use crate::helpers::Named;
use crate::laws::lemma_outcome_reaches_waiting_requests;
use crate::run::{lemma_step_answers, step_actions, step_answers, step_slots};
use std::collections::BTreeMap;
use vstd::prelude::*;

verus! {

/// What the worker keeps for a service type that has been requested.
pub enum InstanceSlot<W, I> {
    /// The provider runs; these requests wait for its outcome, oldest first.
    ProviderRunning { txs: Vec<W> },
    /// The provider has finished; each request gets a clone of this instance.
    Resolved(I),
}

/// The model of an [`InstanceSlot`]: the waiting requests as a sequence.
pub enum Slot<W, I> {
    Running(Seq<W>),
    Resolved(I),
}

/// What the worker receives.
pub enum WorkerMessage<W, I> {
    /// A request for the service type `type_info`, to be answered on `tx`.
    ResolveRequest { type_info: Named<u64>, tx: W },
    /// The outcome of the provider of `type_info`.
    ProviderCallback { type_info: Named<u64>, result: Result<I, Error> },
}

/// What the worker asks its driver to do.
pub enum Action<W, I, P> {
    /// Answer the request that waits on `tx`.
    Reply { tx: W, result: Result<I, Error> },
    /// Run `provider` for the service type `type_info`, and report its outcome
    /// back as a [`WorkerMessage::ProviderCallback`] for `type_info`.
    StartProvider { type_info: Named<u64>, provider: P },
}

pub open spec fn slot_view<W, I>(slot: InstanceSlot<W, I>) -> Slot<W, I> {
    match slot {
        InstanceSlot::ProviderRunning { txs } => Slot::Running(txs@),
        InstanceSlot::Resolved(instance) => Slot::Resolved(instance),
    }
}

pub open spec fn named_slot_view<W, I>(n: Named<InstanceSlot<W, I>>) -> Named<Slot<W, I>> {
    Named { name: n.name, value: slot_view(n.value) }
}

/// `a` answers the request on `tx` with a clone of `instance`.
pub open spec fn answers_with<W, I: Clone, P>(a: Action<W, I, P>, tx: W, instance: I) -> bool {
    &&& a is Reply
    &&& a->Reply_tx == tx
    &&& a->Reply_result is Ok
    &&& cloned(instance, a->Reply_result->Ok_0)
}

/// `a` starts a clone of `provider` for `type_info`.
pub open spec fn starts<W, I, P: Clone>(a: Action<W, I, P>, type_info: Named<u64>, provider: P) -> bool {
    &&& a is StartProvider
    &&& a->StartProvider_type_info == type_info
    &&& cloned(provider, a->provider)
}

/// The slots after a request for `type_info` on `tx` has been dispatched.
pub open spec fn dispatched_slots<W, I, P>(
    slots: Map<u64, Named<Slot<W, I>>>,
    providers: Map<u64, Named<P>>,
    type_info: Named<u64>,
    tx: W,
) -> Map<u64, Named<Slot<W, I>>> {
    let k = type_info.value;
    if slots.contains_key(k) {
        match slots[k].value {
            Slot::Running(waiting) => slots.insert(
                k,
                Named { name: slots[k].name, value: Slot::Running(waiting.push(tx)) },
            ),
            Slot::Resolved(_) => slots,
        }
    } else if providers.contains_key(k) {
        slots.insert(k, Named { name: type_info.name, value: Slot::Running(seq![tx]) })
    } else {
        slots
    }
}

/// The actions that dispatching a request for `type_info` on `tx` yields.
pub open spec fn dispatch_actions<W, I: Clone, P: Clone>(
    slots: Map<u64, Named<Slot<W, I>>>,
    providers: Map<u64, Named<P>>,
    type_info: Named<u64>,
    tx: W,
    actions: Seq<Action<W, I, P>>,
) -> bool {
    let k = type_info.value;
    if slots.contains_key(k) {
        match slots[k].value {
            Slot::Running(_) => actions.len() == 0,
            Slot::Resolved(instance) => actions.len() == 1 && answers_with(actions[0], tx, instance),
        }
    } else if providers.contains_key(k) {
        actions.len() == 1 && starts(actions[0], type_info, providers[k].value)
    } else {
        actions == seq![
            Action::<W, I, P>::Reply {
                tx,
                result: Err(Error::UnregisteredServiceType(type_info.name)),
            },
        ]
    }
}

/// The slots after the provider of `type_info` finished with `result`.
pub open spec fn finished_slots<W, I>(
    slots: Map<u64, Named<Slot<W, I>>>,
    type_info: Named<u64>,
    result: Result<I, Error>,
) -> Map<u64, Named<Slot<W, I>>> {
    match result {
        Ok(instance) => slots.insert(
            type_info.value,
            Named { name: type_info.name, value: Slot::Resolved(instance) },
        ),
        Err(_) => slots.remove(type_info.value),
    }
}

/// The actions after the provider finished with `result`: each request in
/// `waiting` is answered, in order, with a clone of the instance or of the error.
pub open spec fn finish_actions<W, I: Clone, P>(
    waiting: Seq<W>,
    result: Result<I, Error>,
    actions: Seq<Action<W, I, P>>,
) -> bool {
    &&& actions.len() == waiting.len()
    &&& forall|i: int|
        0 <= i < waiting.len() ==> match result {
            Ok(instance) => answers_with(#[trigger] actions[i], waiting[i], instance),
            Err(e) => actions[i] == Action::<W, I, P>::Reply { tx: waiting[i], result: Err(e) },
        }
}

/// The requests that are answered by `actions`, in order.
pub open spec fn answered<W, I, P>(actions: Seq<Action<W, I, P>>) -> Seq<W>
    decreases actions.len(),
{
    if actions.len() == 0 {
        Seq::empty()
    } else {
        let rest = answered(actions.drop_last());
        match actions.last() {
            Action::Reply { tx, .. } => rest.push(tx),
            Action::StartProvider { .. } => rest,
        }
    }
}

/// The registry of providers that a worker starts from.
pub struct ResolverBuilder<P> {
    provider_map: BTreeMap<u64, Named<P>>,
}

impl<P> View for ResolverBuilder<P> {
    type V = Map<u64, Named<P>>;

    closed spec fn view(&self) -> Map<u64, Named<P>> {
        self.provider_map@
    }
}

impl<P> ResolverBuilder<P> {
    /// A registry without providers.
    pub fn new() -> (r: Self)
        ensures
            r@ == Map::<u64, Named<P>>::empty(),
    {
        ResolverBuilder { provider_map: BTreeMap::new() }
    }

    /// Registers `provider` for the service type `key`, named `name`; a later
    /// registration for the same key replaces an earlier one.
    pub fn register(&mut self, key: u64, name: &'static str, provider: P) -> (r: &mut Self)
        ensures
            r@ == old(self)@.insert(key, Named { name, value: provider }),
            *final(self) == *final(r),
    {
        self.provider_map.insert(key, Named { name, value: provider });
        self
    }

    /// The worker that serves requests with these providers; nothing is resolved yet.
    pub fn finalize<W, I>(self) -> (r: Worker<W, I, P>)
        ensures
            r.providers() == self@,
            r.slots() == Map::<u64, Named<Slot<W, I>>>::empty(),
            r.well_formed(),
    {
        let r = Worker { provider_map: self.provider_map, instance_map: BTreeMap::new() };
        assert(r.slots() =~= Map::<u64, Named<Slot<W, I>>>::empty());
        r
    }
}

/// The state of the resolve worker: the registered providers and a slot for
/// each service type that has been requested.
pub struct Worker<W, I, P> {
    provider_map: BTreeMap<u64, Named<P>>,
    instance_map: BTreeMap<u64, Named<InstanceSlot<W, I>>>,
}

impl<W, I, P> Worker<W, I, P> {
    /// The registered providers, by service type.
    pub closed spec fn providers(&self) -> Map<u64, Named<P>> {
        self.provider_map@
    }

    /// The slots, by service type.
    pub closed spec fn slots(&self) -> Map<u64, Named<Slot<W, I>>> {
        self.instance_map@.map_values(|n: Named<InstanceSlot<W, I>>| named_slot_view(n))
    }

    /// Every slot belongs to a registered service type, and a running provider
    /// has at least one request waiting for it.
    pub open spec fn well_formed(&self) -> bool {
        &&& forall|k: u64| #[trigger] self.slots().contains_key(k) ==> self.providers().contains_key(k)
        &&& forall|k: u64| #[trigger] self.slots().contains_key(k) ==> (self.slots()[k].value matches Slot::Running(w) ==> w.len() > 0)
    }

    /// Whether the provider of `key` is running, so that its outcome is awaited.
    pub fn is_provider_running(&self, key: u64) -> (r: bool)
        ensures
            r == (self.slots().contains_key(key) && self.slots()[key].value is Running),
    {
        match self.instance_map.get(&key) {
            Some(named) => match named.value {
                InstanceSlot::ProviderRunning { .. } => true,
                InstanceSlot::Resolved(_) => false,
            },
            None => false,
        }
    }
}

impl<W, I: Clone, P: Clone> Worker<W, I, P> {
    /// Takes a request for the service type `type_info`, to be answered on
    /// `reply_tx`.  A resolved service answers at once with a clone of its
    /// instance; a running provider gets one more waiting request; a registered
    /// service that was never requested gets its provider started; an
    /// unregistered one is answered with `UnregisteredServiceType`.
    pub fn dispatch(&mut self, type_info: Named<u64>, reply_tx: W) -> (actions: Vec<
        Action<W, I, P>,
    >)
        ensures
            final(self).providers() == old(self).providers(),
            final(self).slots() == dispatched_slots(
                old(self).slots(),
                old(self).providers(),
                type_info,
                reply_tx,
            ),
            dispatch_actions(old(self).slots(), old(self).providers(), type_info, reply_tx, actions@),
            old(self).well_formed() ==> final(self).well_formed(),
    {
        let ghost old_map = self.instance_map@;
        let type_id = type_info.value;
        match self.instance_map.remove(&type_id) {
            Some(slot) => {
                let Named { name, value } = slot;
                match value {
                    InstanceSlot::ProviderRunning { mut txs } => {
                        txs.push(reply_tx);
                        self.instance_map.insert(
                            type_id,
                            Named { name, value: InstanceSlot::ProviderRunning { txs } },
                        );
                        proof {
                            assert(self.slots() =~= dispatched_slots(
                                old(self).slots(),
                                old(self).providers(),
                                type_info,
                                reply_tx,
                            ));
                        }
                        Vec::new()
                    },
                    InstanceSlot::Resolved(instance) => {
                        let answer = instance.clone();
                        self.instance_map.insert(
                            type_id,
                            Named { name, value: InstanceSlot::Resolved(instance) },
                        );
                        proof {
                            assert(self.instance_map@ =~= old_map);
                        }
                        let mut actions = Vec::new();
                        actions.push(Action::Reply { tx: reply_tx, result: Ok(answer) });
                        actions
                    },
                }
            },
            None => {
                match self.provider_map.get(&type_id) {
                    Some(registered) => {
                        let provider = registered.clone();
                        let mut txs = Vec::new();
                        txs.push(reply_tx);
                        let slot = type_info.with_value(InstanceSlot::ProviderRunning { txs });
                        self.instance_map.insert(type_id, slot);
                        proof {
                            assert(self.slots() =~= dispatched_slots(
                                old(self).slots(),
                                old(self).providers(),
                                type_info,
                                reply_tx,
                            ));
                        }
                        let mut actions = Vec::new();
                        actions.push(Action::StartProvider { type_info, provider: provider.value });
                        actions
                    },
                    None => {
                        proof {
                            assert(self.instance_map@ =~= old_map);
                        }
                        let mut actions = Vec::new();
                        actions.push(
                            Action::Reply {
                                tx: reply_tx,
                                result: Err(Error::UnregisteredServiceType(type_info.name)),
                            },
                        );
                        actions
                    },
                }
            },
        }
    }

    /// Takes the outcome of the provider of `type_info`, whose requests wait
    /// for it.  Each waiting request is answered, oldest first: with a clone of
    /// the instance, which the slot then keeps for later requests, or with a
    /// clone of the error, after which the slot is cleared so that the next
    /// request starts the provider again.
    pub fn provider_finished(&mut self, type_info: Named<u64>, result: Result<I, Error>) -> (actions:
        Vec<Action<W, I, P>>)
        requires
            old(self).slots().contains_key(type_info.value),
            old(self).slots()[type_info.value].value is Running,
        ensures
            final(self).providers() == old(self).providers(),
            final(self).slots() == finished_slots(old(self).slots(), type_info, result),
            finish_actions(old(self).slots()[type_info.value].value->Running_0, result, actions@),
            actions@.len() == old(self).slots()[type_info.value].value->Running_0.len(),
            forall|i: int|
                0 <= i < actions@.len() ==> {
                    &&& #[trigger] actions@[i] is Reply
                    &&& actions@[i]->Reply_tx == old(self).slots()[type_info.value].value->Running_0[i]
                    &&& (result is Err ==> actions@[i]->Reply_result == result)
                    &&& (result is Ok ==> actions@[i]->Reply_result is Ok && cloned(
                        result->Ok_0,
                        actions@[i]->Reply_result->Ok_0,
                    ))
                },
            old(self).well_formed() ==> final(self).well_formed(),
    {
        let ghost old_map = self.instance_map@;
        let type_id = type_info.value;
        let replaced = self.instance_map.remove(&type_id);
        assert(named_slot_view(old_map[type_id]) == old(self).slots()[type_id]);
        let txs = match replaced {
            Some(Named { value: InstanceSlot::ProviderRunning { txs }, .. }) => txs,
            _ => { unreached() },
        };
        let ghost waiting = txs@;
        let mut actions: Vec<Action<W, I, P>> = Vec::new();
        match result {
            Ok(instance) => {
                for tx in it: txs.into_iter()
                    invariant
                        it.seq() == waiting,
                        actions@.len() == it.index(),
                        forall|i: int|
                            0 <= i < actions@.len() ==> answers_with(
                                #[trigger] actions@[i],
                                waiting[i],
                                instance,
                            ),
                {
                    actions.push(Action::Reply { tx, result: Ok(instance.clone()) });
                }
                let resolve_slot = move |_type_id: u64| -> (s: InstanceSlot<W, I>)
                    ensures
                        s is Resolved && s->Resolved_0 == instance,
                    { InstanceSlot::Resolved(instance) };
                let slot = type_info.map(resolve_slot);
                self.instance_map.insert(type_id, slot);
            },
            Err(err) => {
                for tx in it: txs.into_iter()
                    invariant
                        it.seq() == waiting,
                        actions@.len() == it.index(),
                        forall|i: int|
                            0 <= i < actions@.len() ==> #[trigger] actions@[i] == (Action::<W, I, P>::Reply { tx: waiting[i], result: Err(err) }),
                {
                    actions.push(Action::Reply { tx, result: Err(err.clone()) });
                }
            },
        }
        proof {
            assert(self.slots() =~= finished_slots(old(self).slots(), type_info, result));
            lemma_outcome_reaches_waiting_requests(waiting, result, actions@);
        }
        actions
    }
}

impl<W, I: Clone, P: Clone> Worker<W, I, P> {
    /// Handles one message: a request is dispatched, a provider's outcome is
    /// handed to the requests that wait for it.  An outcome arrives only for a
    /// service type whose provider is running.
    pub fn handle(&mut self, msg: WorkerMessage<W, I>) -> (actions: Vec<Action<W, I, P>>)
        requires
            msg matches WorkerMessage::ProviderCallback { type_info, .. } ==> {
                &&& old(self).slots().contains_key(type_info.value)
                &&& old(self).slots()[type_info.value].value is Running
            },
        ensures
            final(self).providers() == old(self).providers(),
            old(self).well_formed() ==> final(self).well_formed(),
            final(self).slots() == step_slots(old(self).slots(), old(self).providers(), msg),
            step_actions(old(self).slots(), old(self).providers(), msg, actions@),
            answered(actions@) == step_answers(old(self).slots(), old(self).providers(), msg),
            match msg {
                WorkerMessage::ResolveRequest { type_info, tx } => {
                    &&& final(self).slots() == dispatched_slots(
                        old(self).slots(),
                        old(self).providers(),
                        type_info,
                        tx,
                    )
                    &&& dispatch_actions(old(self).slots(), old(self).providers(), type_info, tx, actions@)
                },
                WorkerMessage::ProviderCallback { type_info, result } => {
                    &&& final(self).slots() == finished_slots(old(self).slots(), type_info, result)
                    &&& finish_actions(
                        old(self).slots()[type_info.value].value->Running_0,
                        result,
                        actions@,
                    )
                    &&& actions@.len() == old(self).slots()[type_info.value].value->Running_0.len()
                    &&& forall|i: int|
                        0 <= i < actions@.len() ==> {
                            &&& #[trigger] actions@[i] is Reply
                            &&& actions@[i]->Reply_tx == old(
                                self,
                            ).slots()[type_info.value].value->Running_0[i]
                            &&& (result is Err ==> actions@[i]->Reply_result == result)
                            &&& (result is Ok ==> actions@[i]->Reply_result is Ok && cloned(
                                result->Ok_0,
                                actions@[i]->Reply_result->Ok_0,
                            ))
                        }
                },
            },
    {
        let ghost message = msg;
        let actions = match msg {
            WorkerMessage::ResolveRequest { type_info, tx } => self.dispatch(type_info, tx),
            WorkerMessage::ProviderCallback { type_info, result } => self.provider_finished(
                type_info,
                result,
            ),
        };
        proof {
            lemma_step_answers(old(self).slots(), old(self).providers(), message, actions@);
        }
        actions
    }
}

/// What a resolve call returns once its request has gone to the worker:
/// `delivered` tells whether the worker took the request, `reply` is the
/// answer, or `None` when the worker dropped the request unanswered.  Either
/// failure of the worker is `WorkerGone`; an answer is returned as it came.
pub fn settle_reply<I>(delivered: bool, reply: Option<Result<I, Error>>) -> (r: Result<I, Error>)
    ensures
        !delivered ==> r == Err::<I, Error>(Error::WorkerGone),
        delivered ==> match reply {
            Some(answer) => r == answer,
            None => r == Err::<I, Error>(Error::WorkerGone),
        },
{
    if !delivered {
        return Err(Error::WorkerGone);
    }
    match reply {
        Some(answer) => answer,
        None => Err(Error::WorkerGone),
    }
}

} // verus!
