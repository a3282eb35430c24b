use serde_json::Value;
use tc::error::Error;
use tc::host::{Host, CLIENT_RID, TASK_MAP_RID};

fn host() -> Host<&'static str, &'static str, u32> {
    Host::new("client", "tasks")
}

#[test]
fn fixed_resources_at_startup() {
    let h = host();
    assert_eq!(CLIENT_RID, 0);
    assert_eq!(TASK_MAP_RID, 1);
    assert_eq!(*h.client(), "client");
    assert_eq!(*h.task_map(), "tasks");
    assert_eq!(h.instance(CLIENT_RID).err(), Some(Error::NotFound));
    assert_eq!(h.instance(TASK_MAP_RID).err(), Some(Error::NotFound));
}

#[test]
fn scenario_register_poll_run_poll_cancel() {
    let mut h = host();
    let id = h.register(Ok(7)).unwrap();
    assert_eq!(*h.instance(id).unwrap().session(), 7);

    assert_eq!(h.take_result(id, None), Ok(None));
    let slot = h.store_source(id, "1+1".to_string()).unwrap();
    assert_eq!(slot, 0);

    let src = h.source_to_run(id, Some(slot)).unwrap().unwrap();
    assert_eq!(src, "1+1");
    assert_eq!(h.record_outcome(id, slot, Ok(Value::from(2))), Ok(()));

    assert_eq!(h.take_result(id, Some(slot)), Ok(Some(b"2".to_vec())));
    let next = h.store_source(id, "3*3".to_string()).unwrap();
    assert_eq!(next, 1);

    assert_eq!(h.cancel(id), Ok(()));
    assert_eq!(h.take_result(id, Some(next)), Err(Error::NotFound));
    assert_eq!(h.store_source(id, "x".to_string()), Err(Error::NotFound));
    assert_eq!(h.source_to_run(id, Some(next)), Err(Error::NotFound));
    assert_eq!(h.record_outcome(id, next, Ok(Value::from(1))), Err(Error::NotFound));
}

#[test]
fn run_on_missing_slot_is_not_found_and_changes_nothing() {
    let mut h = host();
    let id = h.register(Ok(1)).unwrap();
    let slot = h.store_source(id, "a".to_string()).unwrap();
    assert_eq!(h.source_to_run(id, Some(5)), Err(Error::NotFound));
    assert_eq!(h.record_outcome(id, 5, Ok(Value::from(3))), Err(Error::NotFound));
    let inst = h.instance(id).unwrap();
    assert_eq!(inst.source_of(5), Err(Error::NotFound));
    assert_eq!(inst.source_of(slot), Ok(Some("a".to_string())));
    assert_eq!(h.store_source(id, "b".to_string()), Ok(1));
}

#[test]
fn handshake_failure_registers_nothing() {
    let mut h = host();
    assert_eq!(h.register(Err(Error::Handshake)), Err(Error::Handshake));
    assert_eq!(h.register(Err(Error::Connection)), Err(Error::Connection));
    assert_eq!(h.instance(2).err(), Some(Error::NotFound));
    let id = h.register(Ok(3)).unwrap();
    assert_eq!(id, 2);
}

#[test]
fn register_ids_strictly_increase() {
    let mut h = host();
    let a = h.register(Ok(1)).unwrap();
    let b = h.register(Ok(2)).unwrap();
    assert_eq!(h.cancel(b), Ok(()));
    let c = h.register(Ok(3)).unwrap();
    assert!(a < b && b < c);
    assert_eq!((a, b, c), (2, 3, 4));
}

#[test]
fn slot_ids_sequential_despite_consumption() {
    let mut h = host();
    let id = h.register(Ok(1)).unwrap();
    let mut last = None;
    for expected in 0..5u32 {
        assert_eq!(h.take_result(id, last).map(|b| b.is_some()), Ok(last.is_some()));
        let slot = h.store_source(id, format!("{}", expected)).unwrap();
        assert_eq!(slot, expected);
        assert_eq!(h.record_outcome(id, slot, Ok(Value::from(expected))), Ok(()));
        last = Some(slot);
    }
}

#[test]
fn result_is_sent_once() {
    let mut h = host();
    let id = h.register(Ok(1)).unwrap();
    let slot = h.store_source(id, "'hi'".to_string()).unwrap();
    assert_eq!(h.record_outcome(id, slot, Ok(Value::from("hi"))), Ok(()));
    assert_eq!(h.take_result(id, Some(slot)), Ok(Some(b"\"hi\"".to_vec())));
    assert_eq!(h.take_result(id, Some(slot)), Ok(None));
    assert_eq!(h.source_to_run(id, Some(slot)), Err(Error::NotFound));
}

#[test]
fn cancel_twice() {
    let mut h = host();
    let id = h.register(Ok(1)).unwrap();
    assert_eq!(h.cancel(id), Ok(()));
    assert_eq!(h.cancel(id), Err(Error::NotFound));
    assert_eq!(h.instance(id).err(), Some(Error::NotFound));
}

#[test]
fn cancel_refuses_fixed_resources() {
    let mut h = host();
    assert_eq!(h.cancel(CLIENT_RID), Err(Error::NotFound));
    assert_eq!(h.cancel(TASK_MAP_RID), Err(Error::NotFound));
    assert_eq!(*h.client(), "client");
}

#[test]
fn poll_on_unready_slot_sends_nothing_and_keeps_it() {
    let mut h = host();
    let id = h.register(Ok(1)).unwrap();
    let slot = h.store_source(id, "x".to_string()).unwrap();
    assert_eq!(h.take_result(id, Some(slot)), Ok(None));
    assert_eq!(h.take_result(id, Some(9)), Ok(None));
    assert_eq!(h.source_to_run(id, Some(slot)), Ok(Some("x".to_string())));
}

#[test]
fn failed_execution_keeps_source_for_retry() {
    let mut h = host();
    let id = h.register(Ok(1)).unwrap();
    let slot = h.store_source(id, "throw 1".to_string()).unwrap();
    assert_eq!(h.record_outcome(id, slot, Err(Error::Execution)), Err(Error::Execution));
    assert_eq!(h.source_to_run(id, Some(slot)), Ok(Some("throw 1".to_string())));
    assert_eq!(h.record_outcome(id, slot, Ok(Value::Null)), Ok(()));
    assert_eq!(h.source_to_run(id, Some(slot)), Ok(None));
    assert_eq!(h.record_outcome(id, slot, Ok(Value::from(5))), Ok(()));
    assert_eq!(h.take_result(id, Some(slot)), Ok(Some(b"null".to_vec())));
}

#[test]
fn run_without_slot_is_a_no_op() {
    let mut h = host();
    let id = h.register(Ok(1)).unwrap();
    assert_eq!(h.source_to_run(id, None), Ok(None));
    assert_eq!(h.source_to_run(99, None), Ok(None));
    assert_eq!(h.store_source(id, "s".to_string()), Ok(0));
}

#[test]
fn instances_are_independent() {
    let mut h = host();
    let a = h.register(Ok(1)).unwrap();
    let b = h.register(Ok(2)).unwrap();
    assert_eq!(h.store_source(a, "a0".to_string()), Ok(0));
    assert_eq!(h.store_source(a, "a1".to_string()), Ok(1));
    assert_eq!(h.store_source(b, "b0".to_string()), Ok(0));
    assert_eq!(h.cancel(a), Ok(()));
    assert_eq!(h.source_to_run(b, Some(0)), Ok(Some("b0".to_string())));
    assert_eq!(*h.instance(b).unwrap().session(), 2);
}
