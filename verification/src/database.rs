//! The task keyspace: tasks under their identifiers, in the order of the
//! identifiers' bytes, and beside them the account record.

use crate::account::{account_or_default, Account, AccountView};
use crate::task::{records_of, Record, Task, TaskView};
use vstd::prelude::*;
use vstd::utf8::*;

verus! {

/// The lexicographic order of byte strings.
pub open spec fn bytes_lt(a: Seq<u8>, b: Seq<u8>) -> bool
    decreases a.len(),
{
    if b.len() == 0 {
        false
    } else if a.len() == 0 {
        true
    } else if a[0] != b[0] {
        a[0] < b[0]
    } else {
        bytes_lt(a.drop_first(), b.drop_first())
    }
}

/// The order of identifiers: that of their UTF-8 bytes.
pub open spec fn key_lt(a: Seq<char>, b: Seq<char>) -> bool {
    bytes_lt(encode_utf8(a), encode_utf8(b))
}

proof fn lemma_bytes_lt_irreflexive(a: Seq<u8>)
    ensures
        !bytes_lt(a, a),
    decreases a.len(),
{
    if a.len() > 0 {
        lemma_bytes_lt_irreflexive(a.drop_first());
    }
}

proof fn lemma_bytes_lt_transitive(a: Seq<u8>, b: Seq<u8>, c: Seq<u8>)
    requires
        bytes_lt(a, b),
        bytes_lt(b, c),
    ensures
        bytes_lt(a, c),
    decreases a.len(),
{
    if a.len() > 0 && a[0] == b[0] && b[0] == c[0] {
        lemma_bytes_lt_transitive(a.drop_first(), b.drop_first(), c.drop_first());
    }
}

proof fn lemma_bytes_lt_total(a: Seq<u8>, b: Seq<u8>)
    ensures
        bytes_lt(a, b) || bytes_lt(b, a) || a == b,
    decreases a.len(),
{
    if a.len() == 0 || b.len() == 0 {
        assert(a.len() == 0 && b.len() == 0 ==> a =~= b);
    } else if a[0] == b[0] {
        lemma_bytes_lt_total(a.drop_first(), b.drop_first());
        if a.drop_first() == b.drop_first() {
            assert(a =~= seq![a[0]] + a.drop_first());
            assert(b =~= seq![b[0]] + b.drop_first());
        }
    }
}

proof fn lemma_bytes_lt_skip(a: Seq<u8>, b: Seq<u8>, n: int)
    requires
        0 <= n <= a.len(),
        n <= b.len(),
        a.take(n) == b.take(n),
    ensures
        bytes_lt(a, b) == bytes_lt(a.skip(n), b.skip(n)),
    decreases n,
{
    if n == 0 {
        assert(a.skip(0) == a);
        assert(b.skip(0) == b);
    } else {
        assert(a[0] == a.take(n)[0]);
        assert(b[0] == b.take(n)[0]);
        assert(a.drop_first().take(n - 1) == a.take(n).drop_first());
        assert(b.drop_first().take(n - 1) == b.take(n).drop_first());
        lemma_bytes_lt_skip(a.drop_first(), b.drop_first(), n - 1);
        assert(a.drop_first().skip(n - 1) == a.skip(n));
        assert(b.drop_first().skip(n - 1) == b.skip(n));
    }
}

/// No identifier comes before itself.
pub proof fn lemma_key_lt_irreflexive(a: Seq<char>)
    ensures
        !key_lt(a, a),
{
    lemma_bytes_lt_irreflexive(encode_utf8(a));
}

/// The order of identifiers is transitive.
pub proof fn lemma_key_lt_transitive(a: Seq<char>, b: Seq<char>, c: Seq<char>)
    requires
        key_lt(a, b),
        key_lt(b, c),
    ensures
        key_lt(a, c),
{
    lemma_bytes_lt_transitive(encode_utf8(a), encode_utf8(b), encode_utf8(c));
}

/// Of two different identifiers one comes before the other.
pub proof fn lemma_key_lt_total(a: Seq<char>, b: Seq<char>)
    ensures
        key_lt(a, b) || key_lt(b, a) || a == b,
{
    lemma_bytes_lt_total(encode_utf8(a), encode_utf8(b));
    encode_utf8_decode_utf8(a);
    encode_utf8_decode_utf8(b);
}

/// Whether the identifier `a` comes before `b`.
pub fn key_less(a: &str, b: &str) -> (r: bool)
    ensures
        r == key_lt(a@, b@),
{
    let x = a.as_bytes();
    let y = b.as_bytes();
    let mut i: usize = 0;
    while i < x.len() && i < y.len()
        invariant
            i <= x@.len(),
            i <= y@.len(),
            x@ == encode_utf8(a@),
            y@ == encode_utf8(b@),
            x@.take(i as int) == y@.take(i as int),
        decreases x@.len() - i,
    {
        if x[i] != y[i] {
            proof {
                lemma_bytes_lt_skip(x@, y@, i as int);
            }
            return x[i] < y[i];
        }
        assert(x@.take(i + 1) == x@.take(i as int).push(x@[i as int]));
        assert(y@.take(i + 1) == y@.take(i as int).push(y@[i as int]));
        i += 1;
    }
    proof {
        lemma_bytes_lt_skip(x@, y@, i as int);
    }
    x.len() < y.len()
}

/// Whether two identifiers are the same.
pub fn key_eq(a: &str, b: &str) -> (same: bool)
    ensures
        same == (a@ == b@),
{
    proof {
        lemma_key_lt_total(a@, b@);
        lemma_key_lt_irreflexive(a@);
    }
    !key_less(a, b) && !key_less(b, a)
}

/// The records stand in the order of their identifiers, none twice.
pub open spec fn sorted_by_key(records: Seq<Record>) -> bool {
    forall|i: int, j: int|
        0 <= i < j < records.len() ==> key_lt(#[trigger] records[i].0, #[trigger] records[j].0)
}

/// A record stands under the identifier `key`.
pub open spec fn has_key(records: Seq<Record>, key: Seq<char>) -> bool {
    exists|i: int| 0 <= i < records.len() && (#[trigger] records[i]).0 == key
}

/// Where a record stands under the identifier `key`.
pub open spec fn index_of_key(records: Seq<Record>, key: Seq<char>) -> int {
    choose|i: int| 0 <= i < records.len() && (#[trigger] records[i]).0 == key
}

/// The tasks of the records, each under its identifier.
pub open spec fn records_map(records: Seq<Record>) -> Map<Seq<char>, TaskView> {
    Map::new(
        |key: Seq<char>| has_key(records, key),
        |key: Seq<char>| records[index_of_key(records, key)].1,
    )
}

/// Among sorted records an identifier stands at one place only.
pub proof fn lemma_keys_unique(records: Seq<Record>, i: int, j: int)
    requires
        sorted_by_key(records),
        0 <= i < records.len(),
        0 <= j < records.len(),
        records[i].0 == records[j].0,
    ensures
        i == j,
{
    lemma_key_lt_irreflexive(records[i].0);
}

/// The map of sorted records holds each record under its identifier.
pub proof fn lemma_map_holds(records: Seq<Record>, i: int)
    requires
        sorted_by_key(records),
        0 <= i < records.len(),
    ensures
        records_map(records).contains_key(records[i].0),
        records_map(records)[records[i].0] == records[i].1,
{
    lemma_keys_unique(records, i, index_of_key(records, records[i].0));
}

proof fn lemma_insert_new(records: Seq<Record>, at: int, key: Seq<char>, task: TaskView)
    requires
        sorted_by_key(records),
        0 <= at <= records.len(),
        forall|j: int| 0 <= j < at ==> key_lt(#[trigger] records[j].0, key),
        at < records.len() ==> key_lt(key, records[at].0),
    ensures
        sorted_by_key(records.insert(at, (key, task))),
        records_map(records.insert(at, (key, task))) == records_map(records).insert(key, task),
        !has_key(records, key),
{
    let after = records.insert(at, (key, task));
    assert forall|j: int| at <= j < records.len() implies key_lt(key, #[trigger] records[j].0) by {
        if j > at {
            lemma_key_lt_transitive(key, records[at].0, records[j].0);
        }
    }
    assert(sorted_by_key(after));
    assert forall|k: Seq<char>| has_key(after, k) <==> (k == key || has_key(records, k)) by {
        if has_key(after, k) {
            let i = index_of_key(after, k);
            if i < at {
                assert(records[i].0 == k);
            } else if i > at {
                assert(records[i - 1].0 == k);
            }
        }
        if k == key {
            assert(after[at].0 == k);
        }
        if has_key(records, k) {
            let i = index_of_key(records, k);
            if i < at {
                assert(after[i].0 == k);
            } else {
                assert(after[i + 1].0 == k);
            }
        }
    }
    assert forall|k: Seq<char>| has_key(after, k) implies records_map(after)[k] == records_map(
        records,
    ).insert(key, task)[k] by {
        let i = index_of_key(after, k);
        lemma_map_holds(after, i);
        lemma_key_lt_irreflexive(key);
        if i < at {
            lemma_map_holds(records, i);
        } else if i > at {
            lemma_map_holds(records, i - 1);
        }
    }
    assert(records_map(after) =~= records_map(records).insert(key, task));
    if has_key(records, key) {
        let i = index_of_key(records, key);
        lemma_key_lt_irreflexive(key);
    }
}

proof fn lemma_replace(records: Seq<Record>, at: int, task: TaskView)
    requires
        sorted_by_key(records),
        0 <= at < records.len(),
    ensures
        sorted_by_key(records.update(at, (records[at].0, task))),
        records_map(records.update(at, (records[at].0, task))) == records_map(records).insert(
            records[at].0,
            task,
        ),
{
    let key = records[at].0;
    let after = records.update(at, (key, task));
    assert(sorted_by_key(after));
    assert forall|k: Seq<char>| has_key(after, k) <==> (k == key || has_key(records, k)) by {
        if has_key(after, k) {
            let i = index_of_key(after, k);
            assert(records[i].0 == k);
        }
        if k == key {
            assert(after[at].0 == k);
        }
        if has_key(records, k) {
            let i = index_of_key(records, k);
            assert(after[i].0 == k);
        }
    }
    assert forall|k: Seq<char>| has_key(after, k) implies records_map(after)[k] == records_map(
        records,
    ).insert(key, task)[k] by {
        let i = index_of_key(after, k);
        lemma_map_holds(after, i);
        if i != at {
            lemma_map_holds(records, i);
            if records[i].0 == key {
                lemma_keys_unique(records, i, at);
            }
        }
    }
    assert(records_map(after) =~= records_map(records).insert(key, task));
}

proof fn lemma_remove(records: Seq<Record>, at: int)
    requires
        sorted_by_key(records),
        0 <= at < records.len(),
    ensures
        sorted_by_key(records.remove(at)),
        records_map(records.remove(at)) == records_map(records).remove(records[at].0),
{
    let key = records[at].0;
    let after = records.remove(at);
    assert(sorted_by_key(after));
    assert forall|k: Seq<char>| has_key(after, k) <==> (k != key && has_key(records, k)) by {
        if has_key(after, k) {
            let i = index_of_key(after, k);
            if i < at {
                assert(records[i].0 == k);
                if k == key {
                    lemma_keys_unique(records, i, at);
                }
            } else {
                assert(records[i + 1].0 == k);
                if k == key {
                    lemma_keys_unique(records, i + 1, at);
                }
            }
        }
        if k != key && has_key(records, k) {
            let i = index_of_key(records, k);
            if i < at {
                assert(after[i].0 == k);
            } else {
                assert(after[i - 1].0 == k);
            }
        }
    }
    assert forall|k: Seq<char>| has_key(after, k) implies records_map(after)[k] == records_map(
        records,
    ).remove(key)[k] by {
        let i = index_of_key(after, k);
        lemma_map_holds(after, i);
        if i < at {
            lemma_map_holds(records, i);
        } else {
            lemma_map_holds(records, i + 1);
        }
    }
    assert(records_map(after) =~= records_map(records).remove(key));
}

proof fn lemma_absent(records: Seq<Record>, at: int, key: Seq<char>)
    requires
        sorted_by_key(records),
        0 <= at <= records.len(),
        forall|j: int| 0 <= j < at ==> key_lt(#[trigger] records[j].0, key),
        at < records.len() ==> key_lt(key, records[at].0),
    ensures
        !has_key(records, key),
{
    lemma_insert_new(records, at, key, arbitrary());
}

/// Sorted records that hold the same tasks under the same identifiers are
/// the same records.
pub proof fn lemma_records_unique(a: Seq<Record>, b: Seq<Record>)
    requires
        sorted_by_key(a),
        sorted_by_key(b),
        records_map(a) == records_map(b),
    ensures
        a == b,
    decreases a.len(),
{
    if a.len() == 0 {
        if b.len() > 0 {
            lemma_map_holds(b, 0);
            assert(has_key(a, b[0].0));
        }
        assert(a =~= b);
    } else if b.len() == 0 {
        lemma_map_holds(a, 0);
        assert(has_key(b, a[0].0));
    } else {
        let x = a.len() - 1;
        let y = b.len() - 1;
        lemma_map_holds(a, x);
        lemma_map_holds(b, y);
        let i = index_of_key(b, a[x].0);
        let j = index_of_key(a, b[y].0);
        assert(has_key(b, a[x].0));
        assert(has_key(a, b[y].0));
        lemma_key_lt_total(a[x].0, b[y].0);
        if key_lt(a[x].0, b[y].0) {
            if j < x {
                lemma_key_lt_transitive(a[j].0, a[x].0, b[y].0);
            }
            lemma_key_lt_irreflexive(b[y].0);
        } else if key_lt(b[y].0, a[x].0) {
            if i < y {
                lemma_key_lt_transitive(b[i].0, b[y].0, a[x].0);
            }
            lemma_key_lt_irreflexive(a[x].0);
        }
        assert(a[x].0 == b[y].0);
        lemma_remove(a, x);
        lemma_remove(b, y);
        assert(a.remove(x) == a.drop_last());
        assert(b.remove(y) == b.drop_last());
        lemma_records_unique(a.drop_last(), b.drop_last());
        assert(a =~= a.drop_last().push(a[x]));
        assert(b =~= b.drop_last().push(b[y]));
    }
}

/// How often a fresh identifier is drawn before giving up.
pub const ATTEMPTS: usize = 8;

/// A random identifier of 21 characters, as `nanoid::format` makes it from
/// nanoid's default random source and its URL-safe alphabet. Nothing but the
/// length is claimed of it.
#[verifier::external_body]
fn fresh_id() -> (id: String)
    ensures
        id@.len() == 21,
{
    nanoid::format(nanoid::rngs::default, &nanoid::alphabet::SAFE, 21)
}

/// Where `key` goes among sorted records: behind the last record whose
/// identifier comes before it.
pub open spec fn place_of_key(records: Seq<Record>, key: Seq<char>) -> int
    decreases records.len(),
{
    if records.len() == 0 {
        0
    } else if key_lt(records.last().0, key) {
        records.len() as int
    } else {
        place_of_key(records.drop_last(), key)
    }
}

proof fn lemma_place_of_key(records: Seq<Record>, key: Seq<char>)
    requires
        sorted_by_key(records),
    ensures
        0 <= place_of_key(records, key) <= records.len(),
        forall|j: int|
            0 <= j < place_of_key(records, key) ==> key_lt(#[trigger] records[j].0, key),
        place_of_key(records, key) < records.len() ==> !key_lt(
            records[place_of_key(records, key)].0,
            key,
        ),
    decreases records.len(),
{
    if records.len() > 0 {
        if key_lt(records.last().0, key) {
            assert forall|j: int| 0 <= j < records.len() implies key_lt(
                #[trigger] records[j].0,
                key,
            ) by {
                if j < records.len() - 1 {
                    assert(key_lt(records[j].0, records[records.len() - 1].0));
                    lemma_key_lt_transitive(records[j].0, records.last().0, key);
                }
            }
        } else {
            let rest = records.drop_last();
            assert forall|i: int, j: int| 0 <= i < j < rest.len() implies key_lt(
                #[trigger] rest[i].0,
                #[trigger] rest[j].0,
            ) by {
                assert(key_lt(records[i].0, records[j].0));
            }
            lemma_place_of_key(rest, key);
            assert forall|j: int| 0 <= j < place_of_key(records, key) implies key_lt(
                #[trigger] records[j].0,
                key,
            ) by {
                assert(rest[j] == records[j]);
            }
            if place_of_key(records, key) < rest.len() {
                assert(rest[place_of_key(records, key)] == records[place_of_key(records, key)]);
            }
        }
    }
}

/// The tasks are those of a keyspace: few enough to stand in a row.
pub open spec fn is_store(store: Map<Seq<char>, TaskView>) -> bool {
    exists|records: Seq<Record>| sorted_by_key(records) && #[trigger] records_map(records) == store
}

/// A keyspace that takes a task is a keyspace, and so is one that loses one.
pub proof fn lemma_store_changes(store: Map<Seq<char>, TaskView>, key: Seq<char>, task: TaskView)
    requires
        is_store(store),
    ensures
        is_store(store.insert(key, task)),
        is_store(store.remove(key)),
{
    let records = choose|records: Seq<Record>|
        sorted_by_key(records) && #[trigger] records_map(records) == store;
    let at = place_of_key(records, key);
    lemma_place_of_key(records, key);
    if at < records.len() && records[at].0 == key {
        lemma_replace(records, at, task);
        assert(records_map(records.update(at, (key, task))) == store.insert(key, task));
        lemma_remove(records, at);
        assert(records_map(records.remove(at)) == store.remove(key));
    } else {
        if at < records.len() {
            lemma_key_lt_total(key, records[at].0);
        }
        lemma_insert_new(records, at, key, task);
        assert(records_map(records.insert(at, (key, task))) == store.insert(key, task));
        assert(store.remove(key) =~= store);
    }
}

/// A task written under an identifier is the task that is read under it,
/// whatever stood there before.
pub proof fn lemma_written_is_read(store: Map<Seq<char>, TaskView>, key: Seq<char>, task: TaskView)
    ensures
        store.insert(key, task).contains_key(key),
        store.insert(key, task)[key] == task,
{
}

/// Removing the task under an identifier under which none stands leaves the
/// keyspace as it is, and removing twice is removing once.
pub proof fn lemma_remove_absent(store: Map<Seq<char>, TaskView>, key: Seq<char>)
    ensures
        !store.contains_key(key) ==> store.remove(key) == store,
        store.remove(key).remove(key) == store.remove(key),
{
    assert(!store.contains_key(key) ==> store.remove(key) =~= store);
    assert(store.remove(key).remove(key) =~= store.remove(key));
}

/// What was read back for a keyspace: under each identifier the task, or
/// nothing where the record could not be read.
pub type Loaded = (Seq<char>, Option<TaskView>);

/// What was read back, as plain values.
pub open spec fn loaded_of(records: Seq<(String, Option<Task>)>) -> Seq<Loaded> {
    Seq::new(
        records.len(),
        |i: int|
            (
                records[i].0@,
                match records[i].1 {
                    Some(task) => Some(task@),
                    None => None,
                },
            ),
    )
}

/// The tasks of the records that could be read, each under its identifier;
/// a record that could not be read is left out, and of two under one
/// identifier the later stands.
pub open spec fn readable(records: Seq<Loaded>) -> Map<Seq<char>, TaskView>
    decreases records.len(),
{
    if records.len() == 0 {
        Map::empty()
    } else {
        match records.last().1 {
            Some(task) => readable(records.drop_last()).insert(records.last().0, task),
            None => readable(records.drop_last()),
        }
    }
}

/// Why a task could not be read.
#[derive(Clone, Copy, Debug, PartialEq, Eq, Structural)]
pub enum StoreError {
    /// No task stands under the identifier.
    NotFound,
}

/// The tasks, each under its identifier, and the account record.
pub struct Database {
    entries: Vec<(String, Task)>,
    account: Option<Account>,
}

impl View for Database {
    type V = Map<Seq<char>, TaskView>;

    /// The tasks, each under its identifier.
    open spec fn view(&self) -> Map<Seq<char>, TaskView> {
        records_map(self.records())
    }
}

impl Database {
    /// The records in the order in which the keyspace is walked.
    pub closed spec fn records(&self) -> Seq<Record> {
        records_of(self.entries@)
    }

    /// The account record, where one has been written.
    pub closed spec fn account_record(&self) -> Option<AccountView> {
        match self.account {
            Some(account) => Some(account@),
            None => None,
        }
    }

    /// The records stand in the order of their identifiers, none twice.
    #[verifier::type_invariant]
    pub open spec fn wf(&self) -> bool {
        sorted_by_key(self.records())
    }

    /// The tasks of a keyspace in the order in which it is walked.
    pub open spec fn records_for(store: Map<Seq<char>, TaskView>) -> Seq<Record> {
        choose|records: Seq<Record>| sorted_by_key(records) && records_map(records) == store
    }

    /// The order in which a keyspace is walked is settled by the tasks it
    /// holds.
    pub proof fn lemma_records_for(&self)
        requires
            self.wf(),
        ensures
            self.records() == Self::records_for(self@),
            is_store(self@),
    {
        lemma_records_unique(self.records(), Self::records_for(self@));
    }

    /// The records of a keyspace are in the order of their identifiers and
    /// hold its tasks.
    pub proof fn lemma_records_of_store(store: Map<Seq<char>, TaskView>)
        requires
            is_store(store),
        ensures
            sorted_by_key(Self::records_for(store)),
            records_map(Self::records_for(store)) == store,
    {
    }

    /// A keyspace without tasks and without an account record.
    pub fn new() -> (db: Database)
        ensures
            db.wf(),
            db.records() == Seq::<Record>::empty(),
            db@ == Map::<Seq<char>, TaskView>::empty(),
            db.account_record() is None,
    {
        let db = Database { entries: Vec::new(), account: None };
        assert(db.records() =~= Seq::<Record>::empty());
        assert(db@ =~= Map::<Seq<char>, TaskView>::empty());
        db
    }

    /// The keyspace that holds the tasks of `records` that could be read,
    /// and `account` as its account record.
    pub fn load(records: &Vec<(String, Option<Task>)>, account: Option<Account>) -> (db: Database)
        ensures
            db.wf(),
            db@ == readable(loaded_of(records@)),
            db.account_record() == (match account {
                Some(account) => Some(account@),
                None => None,
            }),
    {
        let mut db = Database::new();
        let mut i: usize = 0;
        while i < records.len()
            invariant
                i <= records.len(),
                db.wf(),
                db@ == readable(loaded_of(records@).take(i as int)),
                db.account_record() is None,
            decreases records.len() - i,
        {
            proof {
                assert(loaded_of(records@).take(i + 1).drop_last() == loaded_of(records@).take(
                    i as int,
                ));
            }
            match &records[i].1 {
                Some(task) => {
                    db.insert(records[i].0.clone(), task);
                },
                None => {},
            }
            i += 1;
        }
        proof {
            assert(loaded_of(records@).take(i as int) == loaded_of(records@));
        }
        db.account = account;
        db
    }

    /// The place of `key`: how many identifiers come before it, and whether
    /// the one at that place is `key`.
    fn find(&self, key: &str) -> (r: (usize, bool))
        ensures
            self.wf(),
            r.0 <= self.records().len(),
            forall|j: int| 0 <= j < r.0 ==> key_lt(#[trigger] self.records()[j].0, key@),
            r.1 <==> r.0 < self.records().len() && self.records()[r.0 as int].0 == key@,
            !r.1 && r.0 < self.records().len() ==> key_lt(key@, self.records()[r.0 as int].0),
            r.1 <==> self@.contains_key(key@),
    {
        proof {
            use_type_invariant(self);
        }
        let mut i: usize = 0;
        while i < self.entries.len() && key_less(self.entries[i].0.as_str(), key)
            invariant
                i <= self.entries.len(),
                forall|j: int| 0 <= j < i ==> key_lt(#[trigger] self.records()[j].0, key@),
            decreases self.entries.len() - i,
        {
            i += 1;
        }
        let found = i < self.entries.len() && !key_less(key, self.entries[i].0.as_str());
        proof {
            if i < self.entries.len() {
                lemma_key_lt_total(key@, self.records()[i as int].0);
            }
            if found {
                lemma_map_holds(self.records(), i as int);
            } else {
                lemma_absent(self.records(), i as int, key@);
            }
        }
        (i, found)
    }

    /// Whether a task stands under `key`.
    pub fn contains(&self, key: &str) -> (b: bool)
        ensures
            b == self@.contains_key(key@),
    {
        self.find(key).1
    }

    /// The number of tasks.
    pub fn len(&self) -> (n: usize)
        ensures
            n == self.records().len(),
    {
        self.entries.len()
    }

    /// Writes `value` under `key`, in place of the task that stood there.
    pub fn insert(&mut self, key: String, value: &Task)
        ensures
            final(self).wf(),
            final(self)@ == old(self)@.insert(key@, value@),
            final(self).account_record() == old(self).account_record(),
    {
        let (at, found) = self.find(key.as_str());
        let ghost before = self.records();
        let task = value.clone();
        let mut entries: Vec<(String, Task)> = Vec::new();
        std::mem::swap(&mut self.entries, &mut entries);
        if found {
            entries.set(at, (key, task));
            proof {
                lemma_replace(before, at as int, value@);
                assert(records_of(entries@) =~= before.update(
                    at as int,
                    (before[at as int].0, value@),
                ));
            }
        } else {
            entries.insert(at, (key, task));
            proof {
                lemma_insert_new(before, at as int, key@, value@);
                assert(records_of(entries@) =~= before.insert(at as int, (key@, value@)));
            }
        }
        std::mem::swap(&mut self.entries, &mut entries);
    }

    /// Writes `value` under `key` unless a task stands there already. Says
    /// whether it wrote.
    pub fn insert_new(&mut self, key: String, value: &Task) -> (written: bool)
        ensures
            final(self).wf(),
            written == !old(self)@.contains_key(key@),
            final(self)@ == (if written {
                old(self)@.insert(key@, value@)
            } else {
                old(self)@
            }),
            !written ==> final(self).records() == old(self).records(),
            final(self).account_record() == old(self).account_record(),
    {
        if self.contains(key.as_str()) {
            proof {
                use_type_invariant(&*self);
            }
            false
        } else {
            self.insert(key, value);
            true
        }
    }

    /// Removes the task under `key`. Where none stands there, nothing
    /// changes.
    pub fn remove(&mut self, key: &str)
        ensures
            final(self).wf(),
            final(self)@ == old(self)@.remove(key@),
            !old(self)@.contains_key(key@) ==> final(self).records() == old(self).records(),
            final(self).account_record() == old(self).account_record(),
    {
        let (at, found) = self.find(key);
        let ghost before = self.records();
        if found {
            let mut entries: Vec<(String, Task)> = Vec::new();
            std::mem::swap(&mut self.entries, &mut entries);
            entries.remove(at);
            proof {
                lemma_remove(before, at as int);
                assert(records_of(entries@) =~= before.remove(at as int));
            }
            std::mem::swap(&mut self.entries, &mut entries);
        } else {
            assert(self@ =~= self@.remove(key@));
        }
    }

    /// The task under `key`.
    pub fn get(&self, key: &str) -> (r: Result<Task, StoreError>)
        ensures
            match r {
                Ok(task) => self@.contains_key(key@) && task@ == self@[key@],
                Err(e) => !self@.contains_key(key@) && e == StoreError::NotFound,
            },
    {
        let (at, found) = self.find(key);
        if found {
            proof {
                lemma_map_holds(self.records(), at as int);
            }
            Ok(self.entries[at].1.clone())
        } else {
            Err(StoreError::NotFound)
        }
    }

    /// A fresh identifier of 21 characters under which no task stands; `None`
    /// only where those drawn were taken, so never while none so long is held.
    pub fn unused_id(&self) -> (r: Option<String>)
        ensures
            match r {
                Some(id) => id@.len() == 21 && !self@.contains_key(id@),
                None => holds_drawn(self@),
            },
    {
        let mut attempt: usize = 0;
        while attempt < ATTEMPTS
            invariant
                attempt <= ATTEMPTS,
                attempt > 0 ==> holds_drawn(self@),
            decreases ATTEMPTS - attempt,
        {
            let id = fresh_id();
            if !self.contains(id.as_str()) {
                return Some(id);
            }
            assert(self@.contains_key(id@) && id@.len() == 21);
            attempt += 1;
        }
        None
    }

    /// Writes `value` under a fresh identifier and returns the identifier.
    /// `None`, and nothing written, only where those drawn were taken.
    pub fn add(&mut self, value: &Task) -> (r: Option<String>)
        ensures
            final(self).wf(),
            final(self).account_record() == old(self).account_record(),
            match r {
                Some(id) => id@.len() == 21 && !old(self)@.contains_key(id@) && final(self)@
                    == old(self)@.insert(id@, value@),
                None => final(self).records() == old(self).records() && holds_drawn(old(self)@),
            },
    {
        match self.unused_id() {
            Some(id) => {
                self.insert(id.clone(), value);
                Some(id)
            },
            None => {
                proof {
                    use_type_invariant(&*self);
                }
                None
            },
        }
    }

    /// The account: the record as written, or an account without experience
    /// where none has been written.
    pub fn account(&self) -> (account: Account)
        ensures
            account@ == account_or_default(self.account_record()),
    {
        match &self.account {
            Some(record) => record.clone(),
            None => Account::default(),
        }
    }

    /// The experience of the account.
    pub fn get_exp(&self) -> (exp: u32)
        ensures
            exp == account_or_default(self.account_record()).exp,
    {
        match &self.account {
            Some(record) => record.exp,
            None => 0,
        }
    }

    /// Adds `exp` to the experience of the account, derives its level anew
    /// and writes the record.
    pub fn add_exp(&mut self, exp: u32)
        ensures
            final(self).wf(),
            final(self).records() == old(self).records(),
            final(self)@ == old(self)@,
            final(self).account_record() == Some(
                account_or_default(old(self).account_record()).credited(exp),
            ),
    {
        let mut account = self.account();
        account.add_exp(exp);
        proof {
            use_type_invariant(&*self);
        }
        self.account = Some(account);
    }

    /// All tasks with their identifiers, in the order of the identifiers.
    pub fn iter(&self) -> (all: Vec<(String, Task)>)
        ensures
            self.wf(),
            records_of(all@) == self.records(),
    {
        proof {
            use_type_invariant(self);
        }
        let mut all: Vec<(String, Task)> = Vec::new();
        let mut i: usize = 0;
        while i < self.entries.len()
            invariant
                i <= self.entries.len(),
                all@.len() == i,
                forall|j: int| 0 <= j < i ==> (#[trigger] all@[j]).0@ == self.entries@[j].0@,
                forall|j: int| 0 <= j < i ==> (#[trigger] all@[j]).1@ == self.entries@[j].1@,
            decreases self.entries.len() - i,
        {
            let id = self.entries[i].0.clone();
            let task = self.entries[i].1.clone();
            all.push((id, task));
            i += 1;
        }
        assert(records_of(all@) =~= self.records());
        all
    }
}

/// An identifier with the 21 characters of a drawn one stands in the
/// keyspace. Only then can a drawn identifier be taken.
pub open spec fn holds_drawn(store: Map<Seq<char>, TaskView>) -> bool {
    exists|key: Seq<char>| #[trigger] store.contains_key(key) && key.len() == 21
}

/// A keyspace without tasks holds no drawn identifier, so that a fresh one
/// is always found for it.
pub proof fn lemma_empty_holds_none()
    ensures
        !holds_drawn(Map::<Seq<char>, TaskView>::empty()),
{
}

} // verus!
