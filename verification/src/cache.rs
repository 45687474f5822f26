//! The visible task list: the tasks of the keyspace that have not expired,
//! in the order in which they were made.

use crate::database::{
    key_lt, lemma_key_lt_irreflexive, lemma_key_lt_transitive, sorted_by_key,
};
use crate::task::{records_of, Record, Task};
use crate::time::{lemma_le_antisymmetric, lemma_le_total, lemma_le_transitive, DateTime};
use vstd::prelude::*;

verus! {

/// Where a record made at `when` goes in a list ordered by creation: behind
/// the last record that is not younger.
pub open spec fn place_by_creation(list: Seq<Record>, when: DateTime) -> int
    decreases list.len(),
{
    if list.len() == 0 {
        0
    } else if list.last().1.creation_date.le_spec(when) {
        list.len() as int
    } else {
        place_by_creation(list.drop_last(), when)
    }
}

/// The visible list at `now` of the records of a keyspace: taken in the
/// order of the keyspace, each record that has not expired goes behind the
/// records that are not younger.
pub open spec fn refreshed(records: Seq<Record>, now: DateTime) -> Seq<Record>
    decreases records.len(),
{
    if records.len() == 0 {
        Seq::empty()
    } else {
        let list = refreshed(records.drop_last(), now);
        let last = records.last();
        if last.1.expired(now) {
            list
        } else {
            list.insert(place_by_creation(list, last.1.creation_date), last)
        }
    }
}

/// No record stands before an older one.
pub open spec fn ordered_by_creation(list: Seq<Record>) -> bool {
    forall|i: int, j: int|
        0 <= i < j < list.len() ==> (#[trigger] list[i]).1.creation_date.le_spec(
            (#[trigger] list[j]).1.creation_date,
        )
}

/// Of two records the older stands first, and of two made at the same
/// moment the one whose identifier comes first.
pub open spec fn strictly_ordered(list: Seq<Record>) -> bool {
    forall|i: int, j: int|
        0 <= i < j < list.len() ==> stands_before(#[trigger] list[i], #[trigger] list[j])
}

/// `a` is older than `b`, or as old with an identifier that comes first.
pub open spec fn stands_before(a: Record, b: Record) -> bool {
    a.1.creation_date.lt_spec(b.1.creation_date) || (a.1.creation_date == b.1.creation_date
        && key_lt(a.0, b.0))
}

/// The place of a new record lies in the list; the records before it are not
/// younger than the new one, those behind it are.
pub proof fn lemma_place(list: Seq<Record>, when: DateTime)
    requires
        ordered_by_creation(list),
    ensures
        0 <= place_by_creation(list, when) <= list.len(),
        forall|i: int|
            0 <= i < place_by_creation(list, when) ==> (#[trigger] list[i]).1.creation_date.le_spec(
                when,
            ),
        forall|i: int|
            place_by_creation(list, when) <= i < list.len() ==> !(
            #[trigger] list[i]).1.creation_date.le_spec(when),
    decreases list.len(),
{
    if list.len() > 0 {
        if list.last().1.creation_date.le_spec(when) {
            assert forall|i: int| 0 <= i < list.len() implies (
            #[trigger] list[i]).1.creation_date.le_spec(when) by {
                if i < list.len() - 1 {
                    assert(list[i].1.creation_date.le_spec(list[list.len() - 1].1.creation_date));
                }
                lemma_le_transitive(list[i].1.creation_date, list.last().1.creation_date, when);
            }
        } else {
            let rest = list.drop_last();
            assert forall|i: int, j: int| 0 <= i < j < rest.len() implies (
            #[trigger] rest[i]).1.creation_date.le_spec((#[trigger] rest[j]).1.creation_date) by {
                assert(list[i].1.creation_date.le_spec(list[j].1.creation_date));
            }
            lemma_place(rest, when);
            assert forall|i: int| 0 <= i < place_by_creation(list, when) implies (
            #[trigger] list[i]).1.creation_date.le_spec(when) by {
                assert(rest[i] == list[i]);
            }
            assert forall|i: int| place_by_creation(list, when) <= i < list.len() implies !(
            #[trigger] list[i]).1.creation_date.le_spec(when) by {
                if i < rest.len() {
                    assert(rest[i] == list[i]);
                }
            }
        }
    }
}

/// The visible list is ordered by creation, and it holds exactly the records
/// of the keyspace that have not expired: a task whose expiry is not later
/// than `now` is never in it, wherever it stands in the keyspace.
pub proof fn lemma_refreshed(records: Seq<Record>, now: DateTime)
    ensures
        ordered_by_creation(refreshed(records, now)),
        refreshed(records, now).len() <= records.len(),
        forall|r: Record|
            refreshed(records, now).contains(r) <==> records.contains(r) && !r.1.expired(now),
        forall|i: int|
            0 <= i < refreshed(records, now).len() ==> !(#[trigger] refreshed(
                records,
                now,
            )[i]).1.expired(now),
    decreases records.len(),
{
    let result = refreshed(records, now);
    if records.len() == 0 {
        assert forall|r: Record| !result.contains(r) by {}
        assert forall|r: Record| !records.contains(r) by {}
    } else {
        let rest = records.drop_last();
        let last = records.last();
        let list = refreshed(rest, now);
        lemma_refreshed(rest, now);
        assert forall|r: Record| records.contains(r) <==> rest.contains(r) || r == last by {
            if records.contains(r) {
                let i = choose|i: int| 0 <= i < records.len() && records[i] == r;
                if i < rest.len() {
                    assert(rest[i] == r);
                }
            }
            if rest.contains(r) {
                let i = choose|i: int| 0 <= i < rest.len() && rest[i] == r;
                assert(records[i] == r);
            }
            if r == last {
                assert(records[records.len() - 1] == r);
            }
        }
        if !last.1.expired(now) {
            let at = place_by_creation(list, last.1.creation_date);
            lemma_place(list, last.1.creation_date);
            assert forall|r: Record| result.contains(r) <==> list.contains(r) || r == last by {
                if result.contains(r) {
                    let i = choose|i: int| 0 <= i < result.len() && result[i] == r;
                    if i < at {
                        assert(list[i] == r);
                    } else if i > at {
                        assert(list[i - 1] == r);
                    }
                }
                if list.contains(r) {
                    let i = choose|i: int| 0 <= i < list.len() && list[i] == r;
                    if i < at {
                        assert(result[i] == r);
                    } else {
                        assert(result[i + 1] == r);
                    }
                }
                if r == last {
                    assert(result[at] == r);
                }
            }
            assert forall|i: int, j: int| 0 <= i < j < result.len() implies (
            #[trigger] result[i]).1.creation_date.le_spec((#[trigger] result[j]).1.creation_date) by {
                let a = if i < at {
                    i
                } else {
                    i - 1
                };
                let b = if j < at {
                    j
                } else {
                    j - 1
                };
                if i != at && j != at {
                    assert(list[a].1.creation_date.le_spec(list[b].1.creation_date));
                } else if i == at {
                    assert(result[j] == list[b]);
                    lemma_le_total(list[b].1.creation_date, last.1.creation_date);
                } else {
                    assert(result[i] == list[a]);
                }
            }
            assert forall|i: int| 0 <= i < result.len() implies !(#[trigger] result[i]).1.expired(
                now,
            ) by {
                if i < at {
                    assert(result[i] == list[i]);
                } else if i > at {
                    assert(result[i] == list[i - 1]);
                }
            }
        }
    }
}

/// Where the keyspace is in the order of the identifiers, tasks made at the
/// same moment stand in the visible list in the order of their identifiers.
pub proof fn lemma_refreshed_strict(records: Seq<Record>, now: DateTime)
    requires
        sorted_by_key(records),
    ensures
        strictly_ordered(refreshed(records, now)),
    decreases records.len(),
{
    let result = refreshed(records, now);
    if records.len() > 0 {
        let rest = records.drop_last();
        let last = records.last();
        let list = refreshed(rest, now);
        assert forall|i: int, j: int| 0 <= i < j < rest.len() implies key_lt(
            #[trigger] rest[i].0,
            #[trigger] rest[j].0,
        ) by {
            assert(key_lt(records[i].0, records[j].0));
        }
        lemma_refreshed_strict(rest, now);
        lemma_refreshed(rest, now);
        if !last.1.expired(now) {
            let at = place_by_creation(list, last.1.creation_date);
            lemma_place(list, last.1.creation_date);
            assert forall|i: int, j: int| 0 <= i < j < result.len() implies stands_before(
                #[trigger] result[i],
                #[trigger] result[j],
            ) by {
                let a = if i < at {
                    i
                } else {
                    i - 1
                };
                let b = if j < at {
                    j
                } else {
                    j - 1
                };
                if i != at && j != at {
                    assert(stands_before(list[a], list[b]));
                } else if i == at {
                    assert(result[j] == list[b]);
                    lemma_le_total(list[b].1.creation_date, last.1.creation_date);
                } else {
                    assert(result[i] == list[a]);
                    assert(list.contains(list[a]));
                    assert(rest.contains(list[a]));
                    let k = choose|k: int| 0 <= k < rest.len() && rest[k] == list[a];
                    assert(key_lt(records[k].0, records[records.len() - 1].0));
                }
            }
        }
    }
}

/// Two lists in strict order that hold the same records are the same list:
/// the order and the records it holds settle what the visible list is.
pub proof fn lemma_strict_order_unique(a: Seq<Record>, b: Seq<Record>)
    requires
        strictly_ordered(a),
        strictly_ordered(b),
        forall|r: Record| a.contains(r) <==> b.contains(r),
    ensures
        a == b,
    decreases a.len(),
{
    if a.len() == 0 {
        if b.len() > 0 {
            assert(b.contains(b[0]));
        }
        assert(a =~= b);
    } else if b.len() == 0 {
        assert(a.contains(a[0]));
    } else {
        let x = a.len() - 1;
        let y = b.len() - 1;
        assert(a.contains(a[x]));
        assert(b.contains(b[y]));
        let i = choose|i: int| 0 <= i < b.len() && b[i] == a[x];
        let j = choose|j: int| 0 <= j < a.len() && a[j] == b[y];
        if i < y && j < x {
            assert(stands_before(b[i], b[y]));
            assert(stands_before(a[j], a[x]));
            lemma_stands_before_asymmetric(a[x], b[y]);
        }
        if i < y && j == x {
            assert(stands_before(b[i], b[y]));
            lemma_stands_before_asymmetric(a[x], a[x]);
        }
        if i == y && j < x {
            assert(stands_before(a[j], a[x]));
            lemma_stands_before_asymmetric(a[x], a[x]);
        }
        assert(a[x] == b[y]);
        let a0 = a.drop_last();
        let b0 = b.drop_last();
        assert forall|r: Record| a0.contains(r) <==> b0.contains(r) by {
            if a0.contains(r) {
                let k = choose|k: int| 0 <= k < a0.len() && a0[k] == r;
                assert(a[k] == r);
                assert(stands_before(a[k], a[x]));
                lemma_stands_before_asymmetric(r, r);
                assert(a.contains(r));
                let m = choose|m: int| 0 <= m < b.len() && b[m] == r;
                assert(m != y);
                assert(b0[m] == r);
            }
            if b0.contains(r) {
                let k = choose|k: int| 0 <= k < b0.len() && b0[k] == r;
                assert(b[k] == r);
                assert(stands_before(b[k], b[y]));
                lemma_stands_before_asymmetric(r, r);
                assert(b.contains(r));
                let m = choose|m: int| 0 <= m < a.len() && a[m] == r;
                assert(m != x);
                assert(a0[m] == r);
            }
        }
        assert forall|i: int, j: int| 0 <= i < j < a0.len() implies stands_before(
            #[trigger] a0[i],
            #[trigger] a0[j],
        ) by {
            assert(stands_before(a[i], a[j]));
        }
        assert forall|i: int, j: int| 0 <= i < j < b0.len() implies stands_before(
            #[trigger] b0[i],
            #[trigger] b0[j],
        ) by {
            assert(stands_before(b[i], b[j]));
        }
        lemma_strict_order_unique(a0, b0);
        assert(a =~= a0.push(a[x]));
        assert(b =~= b0.push(b[y]));
    }
}

/// Of two records at most one stands before the other, and none before
/// itself.
pub proof fn lemma_stands_before_asymmetric(a: Record, b: Record)
    ensures
        !(stands_before(a, b) && stands_before(b, a)),
{
    if stands_before(a, b) && stands_before(b, a) {
        if a.1.creation_date == b.1.creation_date {
            lemma_key_lt_transitive(a.0, b.0, a.0);
            lemma_key_lt_irreflexive(a.0);
        } else {
            lemma_le_antisymmetric(a.1.creation_date, b.1.creation_date);
        }
    }
}

/// The visible list at `now` of the tasks `records`, which are taken in the
/// order given.
pub fn refresh(records: &Vec<(String, Task)>, now: &DateTime) -> (list: Vec<(String, Task)>)
    ensures
        records_of(list@) == refreshed(records_of(records@), *now),
{
    let mut list: Vec<(String, Task)> = Vec::new();
    let mut i: usize = 0;
    while i < records.len()
        invariant
            i <= records.len(),
            records_of(list@) == refreshed(records_of(records@).take(i as int), *now),
        decreases records.len() - i,
    {
        let ghost before = records_of(list@);
        proof {
            assert(records_of(records@).take(i + 1).drop_last() == records_of(records@).take(
                i as int,
            ));
        }
        if !records[i].1.expired(now) {
            let mut at: usize = list.len();
            assert(before.take(at as int) == before);
            while at > 0 && !list[at - 1].1.creation_date.le(&records[i].1.creation_date)
                invariant
                    at <= list.len(),
                    i < records.len(),
                    place_by_creation(before, records@[i as int].1@.creation_date)
                        == place_by_creation(
                        before.take(at as int),
                        records@[i as int].1@.creation_date,
                    ),
                    before == records_of(list@),
                decreases at,
            {
                assert(before.take(at as int).drop_last() == before.take(at - 1));
                at -= 1;
            }
            list.insert(at, (records[i].0.clone(), records[i].1.clone()));
            assert(records_of(list@) =~= before.insert(
                at as int,
                records_of(records@)[i as int],
            ));
        }
        i += 1;
    }
    assert(records_of(records@).take(i as int) == records_of(records@));
    list
}

} // verus!
