//! The verified core of an asynchronous dependency-injection container.
//!
//! The library keeps the registry of service providers and the resolve
//! worker's bookkeeping: which services are resolved, which are being
//! provided and which requests wait for them.  Channels, tasks and the
//! type-erased provider objects are driven around this core by the caller.

mod error;
mod failure;
mod helpers;
mod private;
mod provider;
mod resolver;
mod laws;
mod run;

pub use error::Error;
pub use helpers::{lemma_map_composes, Named};
pub use laws::{
    in_flight_matches, lemma_dispatch_keeps_every_request, lemma_dispatch_starts_no_second_provider,
    lemma_failed_provision_is_retried, lemma_finish_answers_every_waiting_request,
    lemma_finish_ends_flight, lemma_outcome_reaches_waiting_requests,
    lemma_resolved_instance_is_shared, lemma_unregistered_only_for_missing_provider,
    lemma_unregistered_request_is_refused, running, started, waiting,
};
pub use run::{
    lemma_concurrent_requests_share_one_provision, lemma_run_answers_every_request_once,
    lemma_run_conserves_requests, lemma_run_outcomes_find_running_slots, lemma_run_slot_lifecycle,
    lemma_step_answers, lemma_step_conserves, lemma_step_in_flight, lemma_step_slot_moves,
    message_key, outcomes_follow_starts, requests_for, run_answers_for, run_in_flight, run_slots,
    slot_moves, step_actions, step_answers, step_in_flight, step_slots, step_starts,
};
pub use provider::{provider_failure, Resolvable, StaticProvider};
pub use resolver::{
    answered, answers_with, dispatch_actions, dispatched_slots, finish_actions, finished_slots,
    named_slot_view, settle_reply, slot_view, starts, Action, InstanceSlot, ResolverBuilder, Slot, Worker,
    WorkerMessage,
};
