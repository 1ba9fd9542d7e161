//! The container's scenarios, driven through the resolve worker by hand:
//! requests are numbered, providers are numbered, instances are plain numbers.

use async_di::{Action, Named, ResolverBuilder, Worker};

const CONFIG_SERVICE: u64 = 1;
const TEST_SERVICE: u64 = 2;
const CONFIG_PROVIDER: u64 = 10;
const TEST_PROVIDER: u64 = 20;

fn config_info() -> Named<u64> {
    Named { name: "ConfigService", value: CONFIG_SERVICE }
}

fn test_info() -> Named<u64> {
    Named { name: "TestService", value: TEST_SERVICE }
}

fn expect_start(actions: Vec<Action<u64, u64, u64>>, key: u64, provider: u64) {
    assert_eq!(actions.len(), 1);
    match &actions[0] {
        Action::StartProvider { type_info, provider: p } => {
            assert_eq!(type_info.value, key);
            assert_eq!(*p, provider);
        }
        Action::Reply { .. } => panic!("expected the provider to start"),
    }
}

fn expect_replies(actions: Vec<Action<u64, u64, u64>>, expected: &[(u64, u64)]) {
    assert_eq!(actions.len(), expected.len());
    for (action, (to, value)) in actions.iter().zip(expected.iter()) {
        match action {
            Action::Reply { tx, result: Ok(v) } => {
                assert_eq!(tx, to);
                assert_eq!(v, value);
            }
            _ => panic!("expected a successful reply"),
        }
    }
}

#[test]
fn test_basic() {
    let mut registry = ResolverBuilder::new();
    registry.register(CONFIG_SERVICE, "ConfigService", CONFIG_PROVIDER);
    let mut worker: Worker<u64, u64, u64> = registry.finalize();

    expect_start(worker.dispatch(config_info(), 100), CONFIG_SERVICE, CONFIG_PROVIDER);
    let replies = worker.provider_finished(config_info(), Ok(42));
    expect_replies(replies, &[(100, 42)]);
}

#[test]
fn test_dep() {
    let mut registry = ResolverBuilder::new();
    registry
        .register(CONFIG_SERVICE, "ConfigService", CONFIG_PROVIDER)
        .register(TEST_SERVICE, "TestService", TEST_PROVIDER);
    let mut worker: Worker<u64, u64, u64> = registry.finalize();

    // The test service is requested; its provider runs and itself asks for the config.
    expect_start(worker.dispatch(test_info(), 100), TEST_SERVICE, TEST_PROVIDER);
    expect_start(worker.dispatch(config_info(), 101), CONFIG_SERVICE, CONFIG_PROVIDER);
    let config_replies = worker.provider_finished(config_info(), Ok(42));
    let config_value = match &config_replies[0] {
        Action::Reply { tx: 101, result: Ok(v) } => *v,
        _ => panic!("expected the config for the test service's provider"),
    };
    expect_replies(config_replies, &[(101, 42)]);
    // The test service is built from the config value that its provider received.
    expect_replies(worker.provider_finished(test_info(), Ok(config_value)), &[(100, 42)]);
}

#[test]
fn test_deferred() {
    let mut registry = ResolverBuilder::new();
    registry
        .register(CONFIG_SERVICE, "ConfigService", CONFIG_PROVIDER)
        .register(TEST_SERVICE, "TestService", TEST_PROVIDER);
    let mut worker: Worker<u64, u64, u64> = registry.finalize();

    // The test service is provided without resolving the config...
    expect_start(worker.dispatch(test_info(), 100), TEST_SERVICE, TEST_PROVIDER);
    expect_replies(worker.provider_finished(test_info(), Ok(7)), &[(100, 7)]);
    // ...which is resolved later, when the service is used.
    expect_start(worker.dispatch(config_info(), 101), CONFIG_SERVICE, CONFIG_PROVIDER);
    expect_replies(worker.provider_finished(config_info(), Ok(42)), &[(101, 42)]);
}
