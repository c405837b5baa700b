use vstd::prelude::*;

use crate::conform::{conformed, has_missing, is_missing, resolve_props};
use crate::error::{Error, ErrorKind, StoreError};
use crate::schema::{LogAttrs, LogType, LogTypes, Props};
use crate::store::{log_added, map_rows_appended, row_appended, rows_appended, Log, LogStorage};
use crate::strmap::{lemma_map_of_push, map_of, DeepCopy, StrMap};

verus! {

/// The state behind the logging API: the log store and the registered log types.
#[derive(Debug)]
pub struct APIState {
    pub storage: LogStorage,
    pub log_types: LogTypes,
}

impl APIState {
    pub fn new() -> (r: APIState)
        ensures
            r.storage.logs().len() == 0,
            r.storage.rows().len() == 0,
            r.log_types@ == Map::<Seq<char>, Map<Seq<char>, crate::schema::AttrSpec>>::empty(),
    {
        APIState { storage: LogStorage::new(), log_types: StrMap::new() }
    }
}

fn api_error(method: &str, e: StoreError) -> (r: Error)
    ensures
        r.method@ == method@,
        r.kind == ErrorKind::Storage(e),
{
    Error { method: method.to_owned(), kind: ErrorKind::Storage(e) }
}

/// Records a log made at `time` without properties; returns its identifier.
pub fn add_log(state: &mut APIState, name: &str, desc: &str, time: i64) -> (r: Result<i32, Error>)
    ensures
        old(state).storage.logs().len() < i32::MAX ==> r is Ok,
        r matches Err(e) ==> e.method@ == "add_log"@ && e.kind == ErrorKind::Storage(
            StoreError::IdsExhausted,
        ) && *final(state) == *old(state),
        r matches Ok(id) ==> {
            &&& log_added(old(state).storage, final(state).storage, id, name@, desc@)
            &&& final(state).storage.logs().last().time == time
            &&& final(state).storage.rows() == old(state).storage.rows()
            &&& final(state).log_types == old(state).log_types
        },
{
    match state.storage.add_log(name, desc, time) {
        Ok(id) => Ok(id),
        Err(e) => Err(api_error("add_log", e)),
    }
}

/// Records a log made at `time` with the given properties, all or nothing: one
/// property row per pair, appended in the order of the pairs. Returns its
/// identifier.
pub fn add_log_with_props(
    state: &mut APIState,
    name: &str,
    desc: &str,
    props: &Props,
    time: i64,
) -> (r: Result<i32, Error>)
    ensures
        old(state).storage.logs().len() < i32::MAX && old(state).storage.rows().len()
            + props@.len() <= i32::MAX ==> r is Ok,
        r matches Err(e) ==> e.method@ == "add_log_with_props"@ && e.kind == ErrorKind::Storage(
            StoreError::IdsExhausted,
        ) && *final(state) == *old(state),
        r matches Ok(id) ==> {
            &&& log_added(old(state).storage, final(state).storage, id, name@, desc@)
            &&& final(state).storage.logs().last().time == time
            &&& rows_appended(old(state).storage.rows(), final(state).storage.rows(), id, props.pairs())
            &&& final(state).storage.props_view(id) == props@
            &&& forall|o: i32|
                o != id ==> #[trigger] final(state).storage.props_view(o)
                    == old(state).storage.props_view(o)
            &&& final(state).log_types == old(state).log_types
        },
{
    match state.storage.add_log_with_props(name, desc, props, time) {
        Ok(id) => Ok(id),
        Err(e) => Err(api_error("add_log_with_props", e)),
    }
}

/// Adds the property `key = val` to the log `id`, as a new row after the
/// existing ones (an earlier row with the same key is kept).
pub fn set_prop(state: &mut APIState, id: i32, key: &str, val: &str) -> (r: Result<(), Error>)
    ensures
        !old(state).storage.has_log(id) ==> (r matches Err(e) && e.kind == ErrorKind::Storage(
            StoreError::NoSuchLog(id),
        )),
        old(state).storage.has_log(id) && old(state).storage.rows().len() >= i32::MAX ==> (r matches Err(e)
            && e.kind == ErrorKind::Storage(StoreError::IdsExhausted)),
        r matches Err(e) ==> e.method@ == "set_prop"@,
        old(state).storage.has_log(id) && old(state).storage.rows().len() < i32::MAX ==> r is Ok,
        r is Err ==> *final(state) == *old(state),
        r is Ok ==> {
            &&& row_appended(old(state).storage, final(state).storage, id, key@, val@)
            &&& final(state).log_types == old(state).log_types
            &&& forall|o: i32|
                #![trigger final(state).storage.props_view(o)]
                final(state).storage.props_view(o) == if o == id {
                    old(state).storage.props_view(o).insert(key@, val@)
                } else {
                    old(state).storage.props_view(o)
                }
        },
{
    match state.storage.set_prop(id, key, val) {
        Ok(()) => Ok(()),
        Err(e) => Err(api_error("set_prop", e)),
    }
}

/// All logs, in creation order.
pub fn get_logs(state: &APIState) -> (r: Vec<Log>)
    ensures
        r@ == state.storage.logs(),
        forall|i: int, j: int| 0 <= i < j < r@.len() ==> r@[i].id < r@[j].id,
{
    state.storage.get_logs()
}

/// The properties of the log `id`.
pub fn get_props_for(state: &APIState, id: i32) -> (r: Props)
    ensures
        r@ == state.storage.props_view(id),
{
    state.storage.get_props_for(id)
}

/// Registers a log type, replacing any type of the same name.
pub fn add_log_type(state: &mut APIState, typ: LogType)
    ensures
        final(state).log_types@ == old(state).log_types@.insert(typ.name@, typ.attrs@),
        final(state).storage == old(state).storage,
{
    state.log_types.insert(typ.name, typ.attrs);
}

/// Registers several log types; each replaces any type of the same name.
pub fn add_log_types(state: &mut APIState, typ: LogTypes)
    ensures
        final(state).log_types@ == old(state).log_types@.union_prefer_right(typ@),
        final(state).storage == old(state).storage,
{
    let n = typ.len();
    let mut i: usize = 0;
    while i < n
        invariant
            n == typ.pairs().len(),
            typ@ == map_of(typ.pairs()),
            i <= n,
            state.storage == old(state).storage,
            state.log_types@ == old(state).log_types@.union_prefer_right(
                map_of(typ.pairs().take(i as int)),
            ),
        decreases n - i,
    {
        let name = typ.key_at(i).clone();
        let attrs = typ.value_at(i).deep_copy();
        proof {
            assert(typ.pairs().take(i + 1) =~= typ.pairs().take(i as int).push(
                typ.pairs()[i as int],
            ));
            lemma_map_of_push(typ.pairs().take(i as int), typ.pairs()[i as int]);
        }
        state.log_types.insert(name, attrs);
        assert(state.log_types@ =~= old(state).log_types@.union_prefer_right(
            map_of(typ.pairs().take(i + 1)),
        ));
        i = i + 1;
    }
    assert(typ.pairs().take(n as int) =~= typ.pairs());
}

/// The attributes of the log type `key`, if it is registered.
pub fn get_log_type(state: &APIState, key: &String) -> (r: Option<LogAttrs>)
    ensures
        match r {
            Some(a) => state.log_types@.contains_key(key@) && a@ == state.log_types@[key@],
            None => !state.log_types@.contains_key(key@),
        },
{
    match state.log_types.get(key) {
        Some(a) => Some(a.deep_copy()),
        None => None,
    }
}

/// A copy of every registered log type.
pub fn get_log_types(state: &APIState) -> (r: LogTypes)
    ensures
        r@ == state.log_types@,
{
    state.log_types.deep_copy()
}

/// Records a log made at `time` whose properties are resolved against the log
/// type `typ`, if one is given (see [`resolve_props`]); one property row is
/// appended per resolved key. Returns its identifier. Where the resolution
/// fails nothing is written.
pub fn add_log_with_type(
    state: &mut APIState,
    name: &str,
    desc: &str,
    typ: Option<String>,
    props: Props,
    conform: bool,
    time: i64,
) -> (r: Result<i32, Error>)
    ensures
        final(state).log_types == old(state).log_types,
        r is Err ==> *final(state) == *old(state),
        r matches Err(e) ==> e.method@ == "add_log_with_type"@,
        r matches Ok(id) ==> final(state).storage.logs().last().time == time
            && map_rows_appended(
            old(state).storage.rows(),
            final(state).storage.rows(),
            id,
            final(state).storage.props_view(id),
        ),
        match typ {
            None => {
                &&& old(state).storage.logs().len() < i32::MAX && old(state).storage.rows().len()
                    + props@.len() <= i32::MAX ==> r is Ok
                &&& r matches Err(e) ==> e.kind == ErrorKind::Storage(StoreError::IdsExhausted)
                &&& r matches Ok(id) ==> log_added(
                    old(state).storage,
                    final(state).storage,
                    id,
                    name@,
                    desc@,
                ) && final(state).storage.props_view(id) == props@ && forall|o: i32|
                    o != id ==> #[trigger] final(state).storage.props_view(o)
                        == old(state).storage.props_view(o)
            },
            Some(t) => if !old(state).log_types@.contains_key(t@) {
                r matches Err(e) && e.kind == ErrorKind::InvalidLogType(t)
            } else if has_missing(old(state).log_types@[t@], props@) {
                r matches Err(e) && e.kind matches ErrorKind::MissingField { typ, field } && typ@
                    == t@ && is_missing(old(state).log_types@[t@], props@, field@)
            } else {
                let resolved = conformed(old(state).log_types@[t@], props@, conform);
                &&& old(state).storage.logs().len() < i32::MAX && old(state).storage.rows().len()
                    + resolved.len() <= i32::MAX ==> r is Ok
                &&& r matches Err(e) ==> e.kind == ErrorKind::Storage(StoreError::IdsExhausted)
                &&& r matches Ok(id) ==> log_added(
                    old(state).storage,
                    final(state).storage,
                    id,
                    name@,
                    desc@,
                ) && final(state).storage.props_view(id) == resolved && forall|o: i32|
                    o != id ==> #[trigger] final(state).storage.props_view(o)
                        == old(state).storage.props_view(o)
            },
        },
{
    match resolve_props(&state.log_types, &typ, &props, conform) {
        Ok(resolved) => match state.storage.add_log_with_props(name, desc, &resolved, time) {
            Ok(id) => {
                assert(rows_appended(
                    old(state).storage.rows(),
                    state.storage.rows(),
                    id,
                    resolved.pairs(),
                ));
                Ok(id)
            },
            Err(e) => Err(api_error("add_log_with_type", e)),
        },
        Err(kind) => Err(Error { method: "add_log_with_type".to_owned(), kind }),
    }
}

} // verus!
