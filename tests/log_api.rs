use sched_log::api::{
    add_log, add_log_type, add_log_types, add_log_with_props, add_log_with_type, get_log_type,
    get_log_types, get_logs, get_props_for, set_prop, APIState,
};
use sched_log::conform::resolve_props;
use sched_log::error::{ErrorKind, StoreError};
use sched_log::schema::{LogAttr, LogAttrs, LogType, LogTypes, Props};
use sched_log::store::LogStorage;
use sched_log::strmap::StrMap;

const T: i64 = 1_650_000_000;

fn s(x: &str) -> String {
    x.to_string()
}

fn props(pairs: &[(&str, &str)]) -> Props {
    let mut m: Props = StrMap::new();
    for (k, v) in pairs {
        m.insert(s(k), s(v));
    }
    m
}

fn get<'a>(m: &'a Props, k: &str) -> Option<&'a String> {
    m.get(&s(k))
}

fn task_type() -> LogType {
    let mut attrs: LogAttrs = StrMap::new();
    attrs.insert(s("priority"), LogAttr::new(false, Some(s("medium"))));
    attrs.insert(s("owner"), LogAttr::new(false, None));
    LogType::new(s("task"), attrs)
}

fn state_with_task() -> APIState {
    let mut st = APIState::new();
    add_log_type(&mut st, task_type());
    st
}

#[test]
fn typed_record_fills_defaults() {
    let mut st = state_with_task();
    let id = add_log_with_type(&mut st, "a", "b", Some(s("task")), props(&[("owner", "alice")]), true, T)
        .unwrap();
    let p = get_props_for(&st, id);
    assert_eq!(p.len(), 2);
    assert_eq!(get(&p, "priority"), Some(&s("medium")));
    assert_eq!(get(&p, "owner"), Some(&s("alice")));
}

#[test]
fn typed_record_missing_owner_fails() {
    let mut st = state_with_task();
    let r = add_log_with_type(&mut st, "a", "b", Some(s("task")), props(&[]), true, T);
    let e = r.unwrap_err();
    assert_eq!(e.method, "add_log_with_type");
    assert_eq!(e.kind, ErrorKind::MissingField { typ: s("task"), field: s("owner") });
    assert!(get_logs(&st).is_empty());
}

#[test]
fn missing_field_fails_without_conform_too() {
    let mut st = state_with_task();
    let r = add_log_with_type(&mut st, "a", "b", Some(s("task")), props(&[("x", "1")]), false, T);
    assert_eq!(
        r.unwrap_err().kind,
        ErrorKind::MissingField { typ: s("task"), field: s("owner") }
    );
    assert!(get_logs(&st).is_empty());
}

#[test]
fn conform_drops_undeclared_key() {
    let mut st = state_with_task();
    let p = props(&[("owner", "alice"), ("extra", "x")]);
    let id = add_log_with_type(&mut st, "a", "b", Some(s("task")), p, true, T).unwrap();
    let got = get_props_for(&st, id);
    assert_eq!(got.len(), 2);
    assert_eq!(get(&got, "extra"), None);
    assert_eq!(get(&got, "owner"), Some(&s("alice")));
}

#[test]
fn nonconform_keeps_undeclared_key() {
    let mut st = state_with_task();
    let p = props(&[("owner", "alice"), ("extra", "x")]);
    let id = add_log_with_type(&mut st, "a", "b", Some(s("task")), p, false, T).unwrap();
    let got = get_props_for(&st, id);
    assert_eq!(got.len(), 3);
    assert_eq!(get(&got, "extra"), Some(&s("x")));
    assert_eq!(get(&got, "priority"), Some(&s("medium")));
}

#[test]
fn supplied_value_overrides_default() {
    let mut st = state_with_task();
    let p = props(&[("owner", "bob"), ("priority", "high")]);
    let id = add_log_with_type(&mut st, "a", "b", Some(s("task")), p, true, T).unwrap();
    let got = get_props_for(&st, id);
    assert_eq!(get(&got, "priority"), Some(&s("high")));
    assert_eq!(get(&got, "owner"), Some(&s("bob")));
}

#[test]
fn unknown_type_fails_and_writes_nothing() {
    let mut st = state_with_task();
    add_log(&mut st, "before", "", T).unwrap();
    let r = add_log_with_type(&mut st, "a", "b", Some(s("nope")), props(&[("owner", "a")]), true, T);
    let e = r.unwrap_err();
    assert_eq!(e.method, "add_log_with_type");
    assert_eq!(e.kind, ErrorKind::InvalidLogType(s("nope")));
    assert_eq!(get_logs(&st).len(), 1);
    let r = add_log_with_type(&mut st, "a", "b", Some(s("nope")), props(&[]), false, T);
    assert_eq!(r.unwrap_err().kind, ErrorKind::InvalidLogType(s("nope")));
    assert_eq!(get_logs(&st).len(), 1);
}

#[test]
fn untyped_record_passes_properties_through() {
    let mut st = APIState::new();
    let p = props(&[("k", "v"), ("x", "y")]);
    let id = add_log_with_type(&mut st, "a", "b", None, p, true, T).unwrap();
    let got = get_props_for(&st, id);
    assert_eq!(got.len(), 2);
    assert_eq!(get(&got, "k"), Some(&s("v")));
    assert_eq!(get(&got, "x"), Some(&s("y")));
}

#[test]
fn empty_schema_resolves_per_conform() {
    let mut st = APIState::new();
    add_log_type(&mut st, LogType::new(s("bare"), StrMap::new()));
    let p = props(&[("k", "v")]);
    let r = resolve_props(&st.log_types, &Some(s("bare")), &p, true).unwrap();
    assert_eq!(r.len(), 0);
    let r = resolve_props(&st.log_types, &Some(s("bare")), &p, false).unwrap();
    assert_eq!(r.len(), 1);
    assert_eq!(get(&r, "k"), Some(&s("v")));
}

#[test]
fn hidden_attribute_is_still_required() {
    let mut st = APIState::new();
    let mut attrs: LogAttrs = StrMap::new();
    attrs.insert(s("secret"), LogAttr::new(true, None));
    add_log_type(&mut st, LogType::new(s("t"), attrs));
    let r = resolve_props(&st.log_types, &Some(s("t")), &props(&[]), true);
    assert_eq!(r.unwrap_err(), ErrorKind::MissingField { typ: s("t"), field: s("secret") });
    let r = resolve_props(&st.log_types, &Some(s("t")), &props(&[("secret", "z")]), true).unwrap();
    assert_eq!(get(&r, "secret"), Some(&s("z")));
}

#[test]
fn props_round_trip() {
    let mut st = APIState::new();
    let id = add_log_with_props(&mut st, "name", "desc", &props(&[("a", "1"), ("b", "2")]), T).unwrap();
    let got = get_props_for(&st, id);
    assert_eq!(got.len(), 2);
    assert_eq!(get(&got, "a"), Some(&s("1")));
    assert_eq!(get(&got, "b"), Some(&s("2")));
}

#[test]
fn ids_increase_and_list_in_order() {
    let mut st = APIState::new();
    let mut ids = Vec::new();
    for i in 0..5 {
        ids.push(add_log(&mut st, &format!("log{}", i), "d", T).unwrap());
    }
    for w in ids.windows(2) {
        assert!(w[0] < w[1]);
    }
    assert_eq!(ids[0], 1);
    let logs = get_logs(&st);
    let listed: Vec<i32> = logs.iter().map(|l| l.id).collect();
    assert_eq!(listed, ids);
    assert_eq!(logs[3].name, "log3");
    assert_eq!(logs[3].desc, "d");
}

#[test]
fn creation_time_is_kept() {
    let mut st = APIState::new();
    add_log(&mut st, "a", "b", 1_700_000_000).unwrap();
    let id = add_log_with_props(&mut st, "c", "d", &props(&[("k", "v")]), 1_700_000_005).unwrap();
    let id2 = add_log_with_type(&mut st, "e", "f", None, props(&[]), false, 1_700_000_009).unwrap();
    let logs = get_logs(&st);
    assert_eq!(logs[0].time, 1_700_000_000);
    assert_eq!(logs[(id - 1) as usize].time, 1_700_000_005);
    assert_eq!(logs[(id2 - 1) as usize].time, 1_700_000_009);
}

#[test]
fn store_add_log_keeps_given_time() {
    let mut store = LogStorage::new();
    let id = store.add_log("a", "b", 1234).unwrap();
    assert_eq!(id, 1);
    assert_eq!(store.get_logs()[0].time, 1234);
}

#[test]
fn log_types_snapshot_is_repeatable_and_detached() {
    let mut st = state_with_task();
    let a = get_log_types(&st);
    let b = get_log_types(&st);
    assert_eq!(a.len(), b.len());
    assert_eq!(a.get(&s("task")).unwrap().len(), b.get(&s("task")).unwrap().len());
    add_log_type(&mut st, LogType::new(s("other"), StrMap::new()));
    assert_eq!(a.len(), 1);
    assert_eq!(get_log_types(&st).len(), 2);
}

#[test]
fn register_replaces_same_name() {
    let mut st = state_with_task();
    let mut attrs: LogAttrs = StrMap::new();
    attrs.insert(s("only"), LogAttr::new(false, Some(s("d"))));
    add_log_type(&mut st, LogType::new(s("task"), attrs));
    let t = get_log_type(&st, &s("task")).unwrap();
    assert_eq!(t.len(), 1);
    assert_eq!(t.get(&s("only")).unwrap().default, Some(s("d")));
    assert!(get_log_type(&st, &s("missing")).is_none());
}

#[test]
fn register_many_later_wins() {
    let mut st = state_with_task();
    let mut types: LogTypes = StrMap::new();
    let mut a1: LogAttrs = StrMap::new();
    a1.insert(s("x"), LogAttr::new(false, None));
    types.insert(s("task"), a1);
    types.insert(s("note"), StrMap::new());
    add_log_types(&mut st, types);
    let all = get_log_types(&st);
    assert_eq!(all.len(), 2);
    let t = all.get(&s("task")).unwrap();
    assert_eq!(t.len(), 1);
    assert!(t.get(&s("x")).unwrap().default.is_none());
}

#[test]
fn set_prop_on_unknown_log_fails() {
    let mut st = APIState::new();
    let e = set_prop(&mut st, 7, "k", "v").unwrap_err();
    assert_eq!(e.method, "set_prop");
    assert_eq!(e.kind, ErrorKind::Storage(StoreError::NoSuchLog(7)));
    let e = set_prop(&mut st, 0, "k", "v").unwrap_err();
    assert_eq!(e.kind, ErrorKind::Storage(StoreError::NoSuchLog(0)));
}

#[test]
fn set_prop_twice_last_value_wins() {
    let mut st = APIState::new();
    let id = add_log(&mut st, "a", "b", T).unwrap();
    let other = add_log(&mut st, "c", "d", T).unwrap();
    set_prop(&mut st, id, "k", "1").unwrap();
    set_prop(&mut st, other, "k", "other").unwrap();
    set_prop(&mut st, id, "k", "2").unwrap();
    let got = get_props_for(&st, id);
    assert_eq!(got.len(), 1);
    assert_eq!(get(&got, "k"), Some(&s("2")));
    assert_eq!(get(&get_props_for(&st, other), "k"), Some(&s("other")));
}

#[test]
fn props_of_unknown_log_are_empty() {
    let st = APIState::new();
    assert!(get_props_for(&st, 3).is_empty());
}

#[test]
fn strmap_insert_overwrites_in_place() {
    let mut m = props(&[("a", "1"), ("b", "2")]);
    m.insert(s("a"), s("3"));
    assert_eq!(m.len(), 2);
    assert_eq!(m.key_at(0), "a");
    assert_eq!(m.value_at(0), "3");
    assert!(m.contains_key(&s("b")));
    assert!(!m.contains_key(&s("c")));
}

#[test]
fn error_messages_name_the_problem() {
    let mut st = state_with_task();
    let e = add_log_with_type(&mut st, "a", "b", Some(s("task")), props(&[]), true, T).unwrap_err();
    assert_eq!(
        e.message(),
        "Error in API call `add_log_with_type`: Missing field 'owner' in type 'task'"
    );
    assert_eq!(ErrorKind::InvalidLogType(s("x")).message(), "Invalid log type: 'x'");
    assert_eq!(ErrorKind::Storage(StoreError::NoSuchLog(42)).message(), "No log with id 42");
    assert_eq!(ErrorKind::Storage(StoreError::IdsExhausted).message(), "The log store is full");
}
