use vstd::prelude::*;

use crate::error::StoreError;
use crate::schema::Props;
use crate::strmap::{keys_distinct, map_of, StrMap};

verus! {

/// A log record.
#[derive(Clone, Debug, PartialEq, Eq)]
pub struct Log {
    pub id: i32,
    pub name: String,
    pub desc: String,
    /// Creation time, in seconds since the Unix epoch (UTC).
    pub time: i64,
}

/// A property row: `key = val` for the record `id`; `attr_id` is the row's own
/// identity.
#[derive(Clone, Debug, PartialEq, Eq)]
pub struct Attr {
    pub attr_id: i32,
    pub id: i32,
    pub key: String,
    pub val: String,
}

/// The properties of record `id` as the rows give them, read in storage order:
/// a later row for a key overrides an earlier one.
pub open spec fn props_of(rows: Seq<Attr>, id: i32) -> Map<Seq<char>, Seq<char>>
    decreases rows.len(),
{
    if rows.len() == 0 {
        Map::empty()
    } else {
        let prev = props_of(rows.drop_last(), id);
        if rows.last().id == id {
            prev.insert(rows.last().key@, rows.last().val@)
        } else {
            prev
        }
    }
}

pub proof fn lemma_props_of_push(rows: Seq<Attr>, r: Attr, id: i32)
    ensures
        props_of(rows.push(r), id) == (if r.id == id {
            props_of(rows, id).insert(r.key@, r.val@)
        } else {
            props_of(rows, id)
        }),
{
    assert(rows.push(r).drop_last() =~= rows);
}

pub proof fn lemma_props_of_absent(rows: Seq<Attr>, id: i32)
    requires
        forall|j: int| 0 <= j < rows.len() ==> rows[j].id != id,
    ensures
        props_of(rows, id) == Map::<Seq<char>, Seq<char>>::empty(),
    decreases rows.len(),
{
    if rows.len() > 0 {
        lemma_props_of_absent(rows.drop_last(), id);
    }
}

/// Recording a log with a set of properties and reading its properties back
/// gives that set: rows appended for a record that had none, one per pair of a
/// list and in its order, read back as the map that the list denotes.
pub proof fn law_props_round_trip(
    rows: Seq<Attr>,
    added: Seq<Attr>,
    id: i32,
    pairs: Seq<(String, String)>,
)
    requires
        forall|j: int| 0 <= j < rows.len() ==> rows[j].id != id,
        added.len() == pairs.len(),
        forall|j: int|
            0 <= j < added.len() ==> added[j].id == id && added[j].key@ == pairs[j].0@
                && added[j].val@ == pairs[j].1@,
    ensures
        props_of(rows + added, id) == map_of(pairs),
    decreases added.len(),
{
    if added.len() == 0 {
        assert(rows + added =~= rows);
        lemma_props_of_absent(rows, id);
    } else {
        let n = added.len() - 1;
        law_props_round_trip(rows, added.drop_last(), id, pairs.drop_last());
        assert(rows + added =~= (rows + added.drop_last()).push(added[n]));
        lemma_props_of_push(rows + added.drop_last(), added[n], id);
    }
}

/// `after` is `before` with one more record, `id`, named `name` and described
/// `desc`, and the same property rows.
pub open spec fn log_added(
    before: LogStorage,
    after: LogStorage,
    id: i32,
    name: Seq<char>,
    desc: Seq<char>,
) -> bool {
    &&& id == before.logs().len() + 1
    &&& forall|i: int| 0 <= i < before.logs().len() ==> before.logs()[i].id < id
    &&& after.logs().len() == id
    &&& after.logs().drop_last() == before.logs()
    &&& after.logs().last().id == id
    &&& after.logs().last().name@ == name
    &&& after.logs().last().desc@ == desc
}

/// Each row's own identity is its position plus one, so the identities are
/// distinct and a row appended with the next one gets a fresh identity.
pub open spec fn rows_numbered(rows: Seq<Attr>) -> bool {
    forall|j: int| 0 <= j < rows.len() ==> (#[trigger] rows[j]).attr_id == j + 1
}

/// `after` is `before` with one more property row, `key = val` for record `id`,
/// appended with the next row identity; the records are the same.
pub open spec fn row_appended(
    before: LogStorage,
    after: LogStorage,
    id: i32,
    key: Seq<char>,
    val: Seq<char>,
) -> bool {
    &&& after.logs() == before.logs()
    &&& after.rows().len() == before.rows().len() + 1
    &&& after.rows().drop_last() == before.rows()
    &&& after.rows().last().attr_id == before.rows().len() + 1
    &&& after.rows().last().id == id
    &&& after.rows().last().key@ == key
    &&& after.rows().last().val@ == val
    &&& rows_numbered(before.rows())
    &&& rows_numbered(after.rows())
}

/// `after` is `before` with one row appended per pair, in the order of the
/// pairs, for record `id`, with the next row identities; earlier rows are kept.
pub open spec fn rows_appended(
    before: Seq<Attr>,
    after: Seq<Attr>,
    id: i32,
    pairs: Seq<(String, String)>,
) -> bool {
    &&& after.len() == before.len() + pairs.len()
    &&& after.take(before.len() as int) == before
    &&& forall|j: int|
        0 <= j < pairs.len() ==> {
            &&& (#[trigger] after[before.len() + j]).attr_id == before.len() + j + 1
            &&& after[before.len() + j].id == id
            &&& after[before.len() + j].key@ == pairs[j].0@
            &&& after[before.len() + j].val@ == pairs[j].1@
        }
    &&& rows_numbered(before)
    &&& rows_numbered(after)
}

/// `after` is `before` with one row appended per key of `m`, for record `id`,
/// with the next row identities; earlier rows are kept.
pub open spec fn map_rows_appended(
    before: Seq<Attr>,
    after: Seq<Attr>,
    id: i32,
    m: Map<Seq<char>, Seq<char>>,
) -> bool {
    exists|pairs: Seq<(String, String)>|
        #[trigger] rows_appended(before, after, id, pairs) && keys_distinct(pairs) && map_of(pairs)
            == m
}

/// Two stores hold the same records and rows, field by field, strings compared
/// by their characters.
pub open spec fn same_store(a: LogStorage, b: LogStorage) -> bool {
    &&& a.logs().len() == b.logs().len()
    &&& forall|i: int|
        0 <= i < a.logs().len() ==> {
            &&& (#[trigger] a.logs()[i]).id == b.logs()[i].id
            &&& a.logs()[i].name@ == b.logs()[i].name@
            &&& a.logs()[i].desc@ == b.logs()[i].desc@
            &&& a.logs()[i].time == b.logs()[i].time
        }
    &&& a.rows().len() == b.rows().len()
    &&& forall|j: int|
        0 <= j < a.rows().len() ==> {
            &&& (#[trigger] a.rows()[j]).attr_id == b.rows()[j].attr_id
            &&& a.rows()[j].id == b.rows()[j].id
            &&& a.rows()[j].key@ == b.rows()[j].key@
            &&& a.rows()[j].val@ == b.rows()[j].val@
        }
}

/// A run of single-row appends, one per pair, appends the rows of the pairs.
pub proof fn lemma_row_steps(
    states: Seq<LogStorage>,
    id: i32,
    pairs: Seq<(String, String)>,
)
    requires
        states.len() == pairs.len() + 1,
        rows_numbered(states[0].rows()),
        forall|j: int|
            0 <= j < pairs.len() ==> #[trigger] row_appended(
                states[j],
                states[j + 1],
                id,
                pairs[j].0@,
                pairs[j].1@,
            ),
    ensures
        rows_appended(states[0].rows(), states.last().rows(), id, pairs),
        states.last().logs() == states[0].logs(),
    decreases pairs.len(),
{
    if pairs.len() == 0 {
        assert(states[0].rows().take(states[0].rows().len() as int) =~= states[0].rows());
    } else {
        let n = pairs.len() - 1;
        let st = states.drop_last();
        let ps = pairs.drop_last();
        assert forall|j: int| 0 <= j < ps.len() implies #[trigger] row_appended(
            st[j],
            st[j + 1],
            id,
            ps[j].0@,
            ps[j].1@,
        ) by {
            assert(row_appended(states[j], states[j + 1], id, pairs[j].0@, pairs[j].1@));
        }
        lemma_row_steps(st, id, ps);
        assert(st.last() == states[n]);
        assert(row_appended(states[n], states[n + 1], id, pairs[n].0@, pairs[n].1@));
        let base = states[0].rows();
        let fin = states.last().rows();
        assert forall|i: int| 0 <= i < base.len() implies fin.take(base.len() as int)[i]
            == base[i] by {
            assert(fin[i] == fin.drop_last()[i]);
            assert(states[n].rows().take(base.len() as int)[i] == base[i]);
        }
        assert(fin.take(base.len() as int) =~= base);
        assert forall|j: int| 0 <= j < pairs.len() implies {
            &&& (#[trigger] fin[base.len() + j]).attr_id == base.len() + j + 1
            &&& fin[base.len() + j].id == id
            &&& fin[base.len() + j].key@ == pairs[j].0@
            &&& fin[base.len() + j].val@ == pairs[j].1@
        } by {
            if j < n {
                assert(fin[base.len() + j] == states[n].rows()[base.len() + j]);
                assert(ps[j] == pairs[j]);
            }
        }
    }
}

/// Recording a log with its properties leaves the same store as creating the
/// log and then setting its properties one by one, in the order of the pairs:
/// `s1` is `s0` with the log added, and each of `states` (from `s1`) is the one
/// before it with the row of the next pair appended; `after` is what recording
/// the log with the pairs left.
pub proof fn law_batch_equals_steps(
    s0: LogStorage,
    s1: LogStorage,
    states: Seq<LogStorage>,
    after: LogStorage,
    id: i32,
    name: Seq<char>,
    desc: Seq<char>,
    time: i64,
    pairs: Seq<(String, String)>,
)
    requires
        log_added(s0, s1, id, name, desc),
        s1.logs().last().time == time,
        s1.rows() == s0.rows(),
        states.len() == pairs.len() + 1,
        states[0] == s1,
        forall|j: int|
            0 <= j < pairs.len() ==> #[trigger] row_appended(
                states[j],
                states[j + 1],
                id,
                pairs[j].0@,
                pairs[j].1@,
            ),
        log_added(s0, after, id, name, desc),
        after.logs().last().time == time,
        rows_appended(s0.rows(), after.rows(), id, pairs),
    ensures
        same_store(states.last(), after),
{
    lemma_row_steps(states, id, pairs);
    let l = states.last();
    let m = s0.rows().len();
    assert forall|i: int| 0 <= i < l.logs().len() implies {
        &&& (#[trigger] l.logs()[i]).id == after.logs()[i].id
        &&& l.logs()[i].name@ == after.logs()[i].name@
        &&& l.logs()[i].desc@ == after.logs()[i].desc@
        &&& l.logs()[i].time == after.logs()[i].time
    } by {
        if i < l.logs().len() - 1 {
            assert(l.logs()[i] == s1.logs().drop_last()[i]);
            assert(after.logs()[i] == after.logs().drop_last()[i]);
        }
    }
    assert forall|j: int| 0 <= j < l.rows().len() implies {
        &&& (#[trigger] l.rows()[j]).attr_id == after.rows()[j].attr_id
        &&& l.rows()[j].id == after.rows()[j].id
        &&& l.rows()[j].key@ == after.rows()[j].key@
        &&& l.rows()[j].val@ == after.rows()[j].val@
    } by {
        if j < m {
            assert(l.rows()[j] == l.rows().take(m as int)[j]);
            assert(after.rows()[j] == after.rows().take(m as int)[j]);
        } else {
            let k = j - m;
            assert(l.rows()[m + k] == l.rows()[j]);
        }
    }
}

/// Records created one after the other get strictly increasing identifiers, and
/// the store lists them in that order: `states[i + 1]` is `states[i]` with the
/// record `ids[i]` added.
pub proof fn law_ids_increase(
    states: Seq<LogStorage>,
    ids: Seq<i32>,
    names: Seq<Seq<char>>,
    descs: Seq<Seq<char>>,
)
    requires
        states.len() == ids.len() + 1,
        names.len() == ids.len(),
        descs.len() == ids.len(),
        forall|i: int|
            0 <= i < ids.len() ==> #[trigger] log_added(
                states[i],
                states[i + 1],
                ids[i],
                names[i],
                descs[i],
            ),
    ensures
        states.last().logs().len() == states[0].logs().len() + ids.len(),
        forall|i: int| 0 <= i < ids.len() ==> #[trigger] ids[i] == states[0].logs().len() + i + 1,
        forall|i: int, j: int| 0 <= i < j < ids.len() ==> ids[i] < ids[j],
        forall|i: int|
            0 <= i < ids.len() ==> #[trigger] states.last().logs()[states[0].logs().len() + i].id
                == ids[i],
    decreases ids.len(),
{
    if ids.len() > 0 {
        let n = ids.len() - 1;
        let len0 = states[0].logs().len();
        let st = states.drop_last();
        law_ids_increase(st, ids.drop_last(), names.drop_last(), descs.drop_last());
        assert(st.last() == states[n]);
        assert(log_added(states[n], states[n + 1], ids[n], names[n], descs[n]));
        assert forall|i: int| 0 <= i < ids.len() implies #[trigger] ids[i] == len0 + i + 1 by {
            if i < n {
                assert(ids.drop_last()[i] == ids[i]);
            }
        }
        assert forall|i: int| 0 <= i < ids.len() implies #[trigger] states.last().logs()[len0
            + i].id == ids[i] by {
            if i < n {
                assert(ids.drop_last()[i] == ids[i]);
                assert(states.last().logs()[len0 + i] == states.last().logs().drop_last()[len0
                    + i]);
            }
        }
    }
}

/// The log store: records with identifiers 1, 2, 3, ... in creation order, and
/// property rows that each belong to an existing record.
#[derive(Debug)]
pub struct LogStorage {
    logs: Vec<Log>,
    attrs: Vec<Attr>,
}

impl LogStorage {
    /// The records, in creation order.
    pub closed spec fn logs(&self) -> Seq<Log> {
        self.logs@
    }

    /// The property rows, in storage order.
    pub closed spec fn rows(&self) -> Seq<Attr> {
        self.attrs@
    }

    /// The properties of record `id`.
    pub open spec fn props_view(&self, id: i32) -> Map<Seq<char>, Seq<char>> {
        props_of(self.rows(), id)
    }

    /// `id` names a record of the store.
    pub open spec fn has_log(&self, id: i32) -> bool {
        1 <= id <= self.logs().len()
    }

    #[verifier::type_invariant]
    spec fn inv(&self) -> bool {
        &&& self.logs@.len() <= i32::MAX
        &&& self.attrs@.len() <= i32::MAX
        &&& forall|i: int| 0 <= i < self.logs@.len() ==> (#[trigger] self.logs@[i]).id == i + 1
        &&& forall|j: int|
            0 <= j < self.attrs@.len() ==> (#[trigger] self.attrs@[j]).attr_id == j + 1 && 1
                <= self.attrs@[j].id <= self.logs@.len()
    }

    pub fn new() -> (r: LogStorage)
        ensures
            r.logs().len() == 0,
            r.rows().len() == 0,
            rows_numbered(r.rows()),
    {
        LogStorage { logs: Vec::new(), attrs: Vec::new() }
    }

    /// Number of records.
    pub fn log_count(&self) -> (r: usize)
        ensures
            r == self.logs().len(),
            r <= i32::MAX,
            forall|i: int| 0 <= i < self.logs().len() ==> #[trigger] self.logs()[i].id == i + 1,
    {
        proof {
            use_type_invariant(self);
        }
        self.logs.len()
    }

    /// Number of property rows.
    pub fn row_count(&self) -> (r: usize)
        ensures
            r == self.rows().len(),
            r <= i32::MAX,
            forall|j: int|
                0 <= j < self.rows().len() ==> 1 <= #[trigger] self.rows()[j].id
                    <= self.logs().len(),
            rows_numbered(self.rows()),
    {
        proof {
            use_type_invariant(self);
        }
        self.attrs.len()
    }

    /// Creates a record made at `time`, with the next identifier.
    pub fn add_log(&mut self, name: &str, desc: &str, time: i64) -> (r: Result<i32, StoreError>)
        ensures
            old(self).logs().len() < i32::MAX ==> r is Ok,
            r is Err ==> r == Err::<i32, StoreError>(StoreError::IdsExhausted) && *final(self)
                == *old(self),
            r matches Ok(id) ==> {
                &&& log_added(*old(self), *final(self), id, name@, desc@)
                &&& final(self).logs().last().time == time
                &&& final(self).rows() == old(self).rows()
            },
    {
        proof {
            use_type_invariant(&*self);
        }
        if self.logs.len() >= i32::MAX as usize {
            return Err(StoreError::IdsExhausted);
        }
        let id = (self.logs.len() + 1) as i32;
        let log = Log { id, name: name.to_owned(), desc: desc.to_owned(), time };
        let mut taken = LogStorage::new();
        std::mem::swap(&mut taken, self);
        let LogStorage { mut logs, attrs } = taken;
        logs.push(log);
        assert(logs@.drop_last() =~= old(self).logs@);
        assert(forall|i: int| 0 <= i < logs@.len() - 1 ==> logs@[i] == old(self).logs@[i]);
        *self = LogStorage { logs, attrs };
        Ok(id)
    }

    /// Appends a row; the caller has checked that there is room and that the
    /// record exists.
    fn push_row(&mut self, id: i32, key: String, val: String)
        requires
            old(self).has_log(id),
            old(self).rows().len() < i32::MAX,
        ensures
            final(self).logs() == old(self).logs(),
            final(self).rows().len() == old(self).rows().len() + 1,
            final(self).rows().drop_last() == old(self).rows(),
            final(self).rows().last().attr_id == old(self).rows().len() + 1,
            rows_numbered(old(self).rows()),
            rows_numbered(final(self).rows()),
            final(self).rows().last().id == id,
            final(self).rows().last().key == key,
            final(self).rows().last().val == val,
            forall|o: i32|
                #![trigger final(self).props_view(o)]
                final(self).props_view(o) == if o == id {
                    old(self).props_view(o).insert(key@, val@)
                } else {
                    old(self).props_view(o)
                },
    {
        proof {
            use_type_invariant(&*self);
        }
        let attr_id = (self.attrs.len() + 1) as i32;
        let row = Attr { attr_id, id, key, val };
        let ghost g = row;
        let mut taken = LogStorage::new();
        std::mem::swap(&mut taken, self);
        let LogStorage { logs, mut attrs } = taken;
        attrs.push(row);
        assert(attrs@ == old(self).attrs@.push(g));
        assert(attrs@.drop_last() =~= old(self).attrs@);
        assert(forall|j: int| 0 <= j < attrs@.len() - 1 ==> attrs@[j] == old(self).attrs@[j]);
        *self = LogStorage { logs, attrs };
        proof {
            assert forall|o: i32| #[trigger]
                final(self).props_view(o) == if o == id {
                    old(self).props_view(o).insert(g.key@, g.val@)
                } else {
                    old(self).props_view(o)
                } by {
                lemma_props_of_push(old(self).attrs@, g, o);
            }
        }
    }

    /// Adds the property `key = val` to record `id`.
    pub fn set_prop(&mut self, id: i32, key: &str, val: &str) -> (r: Result<(), StoreError>)
        ensures
            !old(self).has_log(id) ==> r == Err::<(), StoreError>(StoreError::NoSuchLog(id)),
            old(self).has_log(id) && old(self).rows().len() >= i32::MAX ==> r == Err::<
                (),
                StoreError,
            >(StoreError::IdsExhausted),
            r is Err ==> *final(self) == *old(self),
            r is Ok ==> old(self).has_log(id) && row_appended(*old(self), *final(self), id, key@, val@)
                && forall|o: i32|
                #![trigger final(self).props_view(o)]
                final(self).props_view(o) == if o == id {
                    old(self).props_view(o).insert(key@, val@)
                } else {
                    old(self).props_view(o)
                },
            old(self).has_log(id) && old(self).rows().len() < i32::MAX ==> r is Ok,
    {
        let n = self.log_count();
        let m = self.row_count();
        if id < 1 || id as usize > n {
            return Err(StoreError::NoSuchLog(id));
        }
        if m >= i32::MAX as usize {
            return Err(StoreError::IdsExhausted);
        }
        self.push_row(id, key.to_owned(), val.to_owned());
        Ok(())
    }

    /// Creates a record made at `time` together with its properties, all or
    /// nothing.
    pub fn add_log_with_props(&mut self, name: &str, desc: &str, props: &Props, time: i64) -> (r:
        Result<i32, StoreError>)
        ensures
            old(self).logs().len() < i32::MAX && old(self).rows().len() + props@.len() <= i32::MAX
                ==> r is Ok,
            r is Err ==> r == Err::<i32, StoreError>(StoreError::IdsExhausted) && *final(self)
                == *old(self),
            r matches Ok(id) ==> {
                &&& log_added(*old(self), *final(self), id, name@, desc@)
                &&& final(self).logs().last().time == time
                &&& rows_appended(old(self).rows(), final(self).rows(), id, props.pairs())
                &&& keys_distinct(props.pairs())
                &&& final(self).props_view(id) == props@
                &&& forall|o: i32|
                    o != id ==> #[trigger] final(self).props_view(o) == old(self).props_view(o)
            },
    {
        let n = self.log_count();
        let m = self.row_count();
        let k = props.len();
        if n >= i32::MAX as usize || k > i32::MAX as usize - m {
            return Err(StoreError::IdsExhausted);
        }
        let id = match self.add_log(name, desc, time) {
            Ok(id) => id,
            Err(e) => {
                return Err(e);
            },
        };
        let ghost base = self.rows();
        let ghost mid = *self;
        proof {
            assert forall|j: int| 0 <= j < base.len() implies base[j].id != id by {
                assert(1 <= old(self).rows()[j].id <= old(self).logs().len());
            }
        }
        let mut i: usize = 0;
        while i < k
            invariant
                k == props.pairs().len(),
                props@ == map_of(props.pairs()),
                i <= k,
                m == base.len(),
                m + k <= i32::MAX,
                forall|j: int| 0 <= j < base.len() ==> base[j].id != id,
                self.logs() == mid.logs(),
                self.has_log(id),
                self.rows().len() == m + i,
                self.rows().take(m as int) == base,
                rows_numbered(base),
                rows_numbered(self.rows()),
                forall|j: int|
                    0 <= j < i ==> #[trigger] self.rows()[m + j].id == id && self.rows()[m
                        + j].key@ == props.pairs()[j].0@ && self.rows()[m + j].val@
                        == props.pairs()[j].1@ && self.rows()[m + j].attr_id == m + j + 1,
                forall|o: i32| o != id ==> #[trigger] self.props_view(o) == mid.props_view(o),
            decreases k - i,
        {
            let key = props.key_at(i).clone();
            let val = props.value_at(i).clone();
            let ghost before = self.rows();
            self.push_row(id, key, val);
            proof {
                assert(self.rows().take(m as int) =~= before.take(m as int));
                assert forall|j: int| 0 <= j < i + 1 implies #[trigger] self.rows()[m + j].id == id
                    && self.rows()[m + j].key@ == props.pairs()[j].0@ && self.rows()[m + j].val@
                    == props.pairs()[j].1@ && self.rows()[m + j].attr_id == m + j + 1 by {
                    if j < i {
                        assert(self.rows()[m + j] == before[m + j]);
                    }
                }
            }
            i = i + 1;
        }
        proof {
            let added = self.rows().subrange(m as int, (m + k) as int);
            assert(self.rows() =~= base + added);
            assert forall|j: int| 0 <= j < added.len() implies added[j].id == id && added[j].key@
                == props.pairs()[j].0@ && added[j].val@ == props.pairs()[j].1@ by {
                assert(added[j] == self.rows()[m + j]);
            }
            law_props_round_trip(base, added, id, props.pairs());
        }
        Ok(id)
    }

    /// The records, in creation order: identifiers 1, 2, 3, ...
    pub fn get_logs(&self) -> (r: Vec<Log>)
        ensures
            r@ == self.logs(),
            forall|i: int| 0 <= i < r@.len() ==> #[trigger] r@[i].id == i + 1,
            forall|i: int, j: int| 0 <= i < j < r@.len() ==> r@[i].id < r@[j].id,
    {
        proof {
            use_type_invariant(self);
        }
        let mut out: Vec<Log> = Vec::new();
        let mut i: usize = 0;
        while i < self.logs.len()
            invariant
                i <= self.logs@.len(),
                out@ == self.logs@.take(i as int),
            decreases self.logs@.len() - i,
        {
            let l = &self.logs[i];
            out.push(Log { id: l.id, name: l.name.clone(), desc: l.desc.clone(), time: l.time });
            assert(self.logs@.take(i + 1) =~= self.logs@.take(i as int).push(self.logs@[i as int]));
            i = i + 1;
        }
        assert(self.logs@.take(self.logs@.len() as int) =~= self.logs@);
        out
    }

    /// The properties of record `id`; where a key was set more than once, the
    /// last value stands.
    pub fn get_props_for(&self, id: i32) -> (r: Props)
        ensures
            r@ == self.props_view(id),
    {
        let mut out: Props = StrMap::new();
        let mut j: usize = 0;
        while j < self.attrs.len()
            invariant
                j <= self.attrs@.len(),
                out@ == props_of(self.attrs@.take(j as int), id),
            decreases self.attrs@.len() - j,
        {
            let row = &self.attrs[j];
            proof {
                assert(self.attrs@.take(j + 1) =~= self.attrs@.take(j as int).push(
                    self.attrs@[j as int],
                ));
                lemma_props_of_push(self.attrs@.take(j as int), self.attrs@[j as int], id);
            }
            if row.id == id {
                out.insert(row.key.clone(), row.val.clone());
            }
            j = j + 1;
        }
        assert(self.attrs@.take(self.attrs@.len() as int) =~= self.attrs@);
        out
    }
}

} // verus!
