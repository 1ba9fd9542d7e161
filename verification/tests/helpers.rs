use async_di::{provider_failure, Error, Named, StaticProvider};

#[test]
fn named_map_keeps_the_name() {
    let named = Named { name: "n", value: 20 };
    let mapped = named.map(|v| v + 1);
    assert_eq!(mapped.name, "n");
    assert_eq!(mapped.value, 21);
}

#[test]
fn named_with_value_keeps_the_name() {
    let named = Named { name: "n", value: 1u64 };
    let other = named.with_value("text");
    assert_eq!(other.name, "n");
    assert_eq!(other.value, "text");
}

#[test]
fn named_clone_keeps_name_and_value() {
    let named = Named { name: "n", value: vec![1, 2] };
    let copy = named.clone();
    assert_eq!(copy.name, "n");
    assert_eq!(copy.value, vec![1, 2]);
}

#[test]
fn static_provider_hands_out_its_value() {
    let provider = StaticProvider::new(String::from("config"));
    assert_eq!(provider.provide(), "config");
    assert_eq!(provider.provide(), "config");
}

#[test]
fn own_error_of_a_provider_is_passed_on() {
    let e = provider_failure(Ok(Error::UnregisteredServiceType("Dep")));
    assert!(matches!(e, Error::UnregisteredServiceType("Dep")));
}

#[test]
fn other_error_of_a_provider_becomes_service() {
    let e = provider_failure(Err(anyhow::Error::msg("boom")));
    match e {
        Error::Service(inner) => assert_eq!(inner.to_string(), "boom"),
        _ => panic!("expected Service"),
    }
}

#[test]
fn error_clone_keeps_the_variant() {
    let e = Error::UnregisteredServiceType("T").clone();
    assert!(matches!(e, Error::UnregisteredServiceType("T")));
    let s = Error::Service(std::sync::Arc::new(anyhow::Error::msg("x")));
    match s.clone() {
        Error::Service(inner) => assert_eq!(inner.to_string(), "x"),
        _ => panic!("expected Service"),
    }
    assert!(matches!(Error::ContainerGone.clone(), Error::ContainerGone));
}
