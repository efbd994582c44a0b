use now_playing::flow::begin_callback;
use now_playing::{CoreError, FlowRegistry};

#[test]
fn flow_exactly_once() {
    let mut reg: FlowRegistry<u64> = FlowRegistry::new();
    reg.put("state-a".to_string(), 7);
    assert_eq!(reg.take(&"state-a".to_string()), Some(7));
    assert_eq!(reg.take(&"state-a".to_string()), None);
}

#[test]
fn distinct_tokens_isolated() {
    let mut reg: FlowRegistry<u64> = FlowRegistry::new();
    reg.put("state-a".to_string(), 1);
    reg.put("state-b".to_string(), 2);
    assert_eq!(reg.take(&"state-a".to_string()), Some(1));
    assert_eq!(reg.take(&"state-b".to_string()), Some(2));
    assert_eq!(reg.take(&"state-a".to_string()), None);
    assert_eq!(reg.take(&"state-b".to_string()), None);
}

#[test]
fn overwrite_on_collision() {
    let mut reg: FlowRegistry<u64> = FlowRegistry::new();
    reg.put("state-a".to_string(), 1);
    reg.put("state-a".to_string(), 2);
    assert_eq!(reg.take(&"state-a".to_string()), Some(2));
    assert_eq!(reg.take(&"state-a".to_string()), None);
}

#[test]
fn contains_reflects_registration() {
    let mut reg: FlowRegistry<u64> = FlowRegistry::new();
    assert!(!reg.contains(&"state-a".to_string()));
    reg.put("state-a".to_string(), 1);
    assert!(reg.contains(&"state-a".to_string()));
    reg.take(&"state-a".to_string());
    assert!(!reg.contains(&"state-a".to_string()));
}

#[test]
fn unknown_state_is_client_error() {
    let mut reg: FlowRegistry<u64> = FlowRegistry::new();
    reg.put("state-a".to_string(), 1);
    let err = begin_callback(&mut reg, &"unknown-random".to_string()).unwrap_err();
    assert_eq!(err, CoreError::FlowNotFound);
    assert!(err.is_client_error());
    assert_eq!(err.http_status(), 404);
    // the unrelated pending flow is untouched
    assert!(reg.contains(&"state-a".to_string()));
}

#[test]
fn callback_consumes_the_flow() {
    let mut reg: FlowRegistry<&'static str> = FlowRegistry::new();
    reg.put("state-a".to_string(), "flow");
    assert_eq!(begin_callback(&mut reg, &"state-a".to_string()), Ok("flow"));
    assert_eq!(
        begin_callback(&mut reg, &"state-a".to_string()),
        Err(CoreError::FlowNotFound)
    );
}
