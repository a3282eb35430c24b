use tc::config::Config;
use tc::instance::{Instance, Slot};
use tc::registry::ResourceTable;

#[test]
fn table_hands_out_increasing_ids() {
    let mut t: ResourceTable<&str> = ResourceTable::new();
    assert!(!t.is_full());
    assert_eq!(t.insert("a"), 0);
    assert_eq!(t.insert("b"), 1);
    assert_eq!(t.get(0), Some(&"a"));
    assert_eq!(t.close(0), Some("a"));
    assert_eq!(t.close(0), None);
    assert_eq!(t.get(0), None);
    assert_eq!(t.insert("c"), 2);
    assert_eq!(t.get(1), Some(&"b"));
}

#[test]
fn table_closed_id_is_not_reused() {
    let mut t: ResourceTable<u8> = ResourceTable::new();
    let id = t.insert(4);
    assert_eq!(t.close(id), Some(4));
    assert_eq!(t.insert(9), 1);
    assert_eq!(t.get(id), None);
    assert_eq!(t.get(1), Some(&9));
}

#[test]
fn instance_slot_cycle() {
    let mut inst = Instance::from_session(());
    assert_eq!(inst.store_source("1+1".to_string()), Ok(0));
    assert_eq!(inst.source_of(0), Ok(Some("1+1".to_string())));
    assert_eq!(inst.record_outcome(0, Ok(serde_json::Value::from(2))), Ok(()));
    assert_eq!(inst.source_of(0), Ok(None));
    assert_eq!(inst.take_result(Some(0)), Some(b"2".to_vec()));
    assert_eq!(inst.take_result(Some(0)), None);
    assert_eq!(inst.store_source("x".to_string()), Ok(1));
    assert!(matches!(Slot::Source("x".to_string()), Slot::Source(_)));
}

#[test]
fn encoded_result_is_json_text() {
    let mut inst = Instance::from_session(0u8);
    let id = inst.store_source("[1,true]".to_string()).unwrap();
    let v = serde_json::Value::Array(vec![serde_json::Value::from(1), serde_json::Value::Bool(true)]);
    assert_eq!(inst.record_outcome(id, Ok(v)), Ok(()));
    assert_eq!(inst.take_result(Some(id)), Some(b"[1,true]".to_vec()));
}

#[test]
fn config_holds_token() {
    assert_eq!(Config::new(Some("tok".to_string())).token, Some("tok".to_string()));
    assert_eq!(Config::new(None).token, None);
}
