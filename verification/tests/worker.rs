use async_di::{settle_reply, Action, Error, Named, ResolverBuilder, Worker, WorkerMessage};

fn info(name: &'static str, key: u64) -> Named<u64> {
    Named { name, value: key }
}

fn worker_with(keys: &[(u64, &'static str, u64)]) -> Worker<u64, u64, u64> {
    let mut registry = ResolverBuilder::new();
    for (key, name, provider) in keys {
        registry.register(*key, name, *provider);
    }
    registry.finalize()
}

#[test]
fn unregistered_type_is_refused_with_its_name() {
    let mut worker = worker_with(&[(1, "A", 10)]);
    let actions = worker.dispatch(info("B", 2), 100);
    assert_eq!(actions.len(), 1);
    match &actions[0] {
        Action::Reply { tx, result: Err(Error::UnregisteredServiceType(name)) } => {
            assert_eq!(*tx, 100);
            assert_eq!(*name, "B");
        }
        _ => panic!("expected UnregisteredServiceType"),
    }
    assert!(!worker.is_provider_running(2));
}

#[test]
fn waiting_requests_share_one_provider_in_order() {
    let mut worker = worker_with(&[(1, "A", 10)]);
    let first = worker.dispatch(info("A", 1), 100);
    assert_eq!(first.len(), 1);
    assert!(matches!(first[0], Action::StartProvider { provider: 10, .. }));
    assert!(worker.is_provider_running(1));
    assert!(worker.dispatch(info("A", 1), 101).is_empty());
    assert!(worker.dispatch(info("A", 1), 102).is_empty());
    let replies = worker.provider_finished(info("A", 1), Ok(5));
    let answered: Vec<u64> = replies
        .iter()
        .map(|a| match a {
            Action::Reply { tx, result: Ok(5) } => *tx,
            _ => panic!("expected a reply with 5"),
        })
        .collect();
    assert_eq!(answered, vec![100, 101, 102]);
    assert!(!worker.is_provider_running(1));
}

#[test]
fn resolved_instance_is_reused_without_a_new_provider() {
    let mut worker = worker_with(&[(1, "A", 10)]);
    worker.dispatch(info("A", 1), 100);
    worker.provider_finished(info("A", 1), Ok(9));
    let again = worker.dispatch(info("A", 1), 101);
    assert_eq!(again.len(), 1);
    assert!(matches!(again[0], Action::Reply { tx: 101, result: Ok(9) }));
}

#[test]
fn failed_provider_answers_everyone_and_is_retried() {
    let mut worker = worker_with(&[(1, "A", 10)]);
    worker.dispatch(info("A", 1), 100);
    worker.dispatch(info("A", 1), 101);
    let replies = worker.provider_finished(info("A", 1), Err(Error::WorkerGone));
    assert_eq!(replies.len(), 2);
    assert!(matches!(replies[0], Action::Reply { tx: 100, result: Err(Error::WorkerGone) }));
    assert!(matches!(replies[1], Action::Reply { tx: 101, result: Err(Error::WorkerGone) }));
    let retry = worker.dispatch(info("A", 1), 102);
    assert_eq!(retry.len(), 1);
    assert!(matches!(retry[0], Action::StartProvider { provider: 10, .. }));
}

#[test]
fn later_registration_replaces_earlier() {
    let mut worker = worker_with(&[(1, "A", 10), (1, "A", 11)]);
    let actions = worker.dispatch(info("A", 1), 100);
    assert!(matches!(actions[0], Action::StartProvider { provider: 11, .. }));
}

#[test]
fn handle_routes_requests_and_outcomes() {
    let mut worker = worker_with(&[(1, "A", 10)]);
    let start = worker.handle(WorkerMessage::ResolveRequest { type_info: info("A", 1), tx: 100 });
    match &start[0] {
        Action::StartProvider { type_info, provider } => {
            assert_eq!(type_info.name, "A");
            assert_eq!(*provider, 10);
        }
        _ => panic!("expected the provider to start"),
    }
    let replies =
        worker.handle(WorkerMessage::ProviderCallback { type_info: info("A", 1), result: Ok(3) });
    assert!(matches!(replies[0], Action::Reply { tx: 100, result: Ok(3) }));
}

#[test]
fn settle_reply_maps_worker_failures() {
    assert!(matches!(settle_reply::<u64>(false, None), Err(Error::WorkerGone)));
    assert!(matches!(settle_reply::<u64>(false, Some(Ok(1))), Err(Error::WorkerGone)));
    assert!(matches!(settle_reply::<u64>(true, None), Err(Error::WorkerGone)));
    assert!(matches!(settle_reply::<u64>(true, Some(Ok(4))), Ok(4)));
    assert!(matches!(
        settle_reply::<u64>(true, Some(Err(Error::UnregisteredServiceType("X")))),
        Err(Error::UnregisteredServiceType("X"))
    ));
}

#[test]
fn every_request_is_answered_once_when_providers_report() {
    let mut worker = worker_with(&[(1, "A", 10), (2, "B", 20)]);
    let mut answered: Vec<u64> = Vec::new();
    let mut started: Vec<u64> = Vec::new();
    let mut run = |worker: &mut Worker<u64, u64, u64>, msg: WorkerMessage<u64, u64>| {
        for action in worker.handle(msg) {
            match action {
                Action::Reply { tx, .. } => answered.push(tx),
                Action::StartProvider { type_info, .. } => started.push(type_info.value),
            }
        }
    };
    run(&mut worker, WorkerMessage::ResolveRequest { type_info: info("A", 1), tx: 100 });
    run(&mut worker, WorkerMessage::ResolveRequest { type_info: info("B", 2), tx: 101 });
    run(&mut worker, WorkerMessage::ResolveRequest { type_info: info("A", 1), tx: 102 });
    run(&mut worker, WorkerMessage::ResolveRequest { type_info: info("C", 3), tx: 103 });
    run(&mut worker, WorkerMessage::ProviderCallback { type_info: info("B", 2), result: Err(Error::WorkerGone) });
    run(&mut worker, WorkerMessage::ProviderCallback { type_info: info("A", 1), result: Ok(1) });
    run(&mut worker, WorkerMessage::ResolveRequest { type_info: info("A", 1), tx: 104 });
    assert!(!worker.is_provider_running(1) && !worker.is_provider_running(2));
    let mut sorted = answered.clone();
    sorted.sort();
    assert_eq!(sorted, vec![100, 101, 102, 103, 104]);
    assert_eq!(answered, vec![103, 101, 100, 102, 104]);
    assert_eq!(started, vec![1, 2]);
}
