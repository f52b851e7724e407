//! Laws of the record store, stated over its mathematical model and proved
//! once for all stores. Each law is phrased over the same sequences of record
//! views that the operations' own contracts speak of, so together with those
//! contracts it describes every run of the store.

use vstd::prelude::*;

use crate::store::contains_id;
use crate::store::first_index_of;
use crate::store::lemma_first_index_of_hits;
use crate::store::lemma_removed_props;
use crate::store::removed;
use crate::store::replaced;
use crate::store::unique_ids;
use crate::store::TodoView;

verus! {

/// Uniqueness: a Create that is admitted — one whose id is still absent —
/// keeps ids unique and grows the store by exactly one record. A colliding
/// Create fails and changes nothing by Create's own contract, so a store that
/// starts with unique ids never comes to hold two records with one id.
pub proof fn lemma_create_preserves_uniqueness(s: Seq<TodoView>, t: TodoView)
    requires
        unique_ids(s),
        !contains_id(s, t.id),
    ensures
        unique_ids(s.push(t)),
        s.push(t).len() == s.len() + 1,
{
    assert forall|i: int, j: int| 0 <= i < j < s.push(t).len() implies s.push(t)[i].id != s.push(
        t,
    )[j].id by {
        if j == s.len() {
            if s[i].id == t.id {
                assert(contains_id(s, t.id));
            }
        }
    }
}

/// Update replaces wholly: when the replacement record carries the very id it
/// is stored under, the record standing at the updated position afterwards is
/// the replacement itself — every field of it, no merge with the old record.
pub proof fn lemma_update_replaces_wholly(s: Seq<TodoView>, id: u64, r: TodoView)
    requires
        contains_id(s, id),
        r.id == id,
    ensures
        s.update(first_index_of(s, id), replaced(id, r))[first_index_of(s, id)] == r,
{
    lemma_first_index_of_hits(s, id);
}

/// Delete is idempotent-failing: whatever a Delete leaves behind holds no
/// record with the deleted id, so a second Delete of the same id finds
/// nothing, changes nothing, and fails with Not Found by Delete's contract.
pub proof fn lemma_delete_idempotent_failing(s: Seq<TodoView>, id: u64)
    ensures
        !contains_id(removed(s, id), id),
        removed(removed(s, id), id) == removed(s, id),
{
    lemma_removed_props(s, id);
    lemma_removed_props(removed(s, id), id);
}

/// List reflects a Create: the listing after an admitted Create is the old
/// listing with the created record at the end; every earlier record is
/// unchanged, in its place.
pub proof fn lemma_list_reflects_create(s: Seq<TodoView>, t: TodoView)
    ensures
        s.push(t).len() == s.len() + 1,
        s.push(t)[s.len() as int] == t,
        forall|i: int| 0 <= i < s.len() ==> s.push(t)[i] == s[i],
{
}

/// List reflects an Update: the listing after a successful Update holds the
/// replacement's content at the updated position and every other record
/// unchanged, in its place.
pub proof fn lemma_list_reflects_update(s: Seq<TodoView>, id: u64, r: TodoView)
    requires
        contains_id(s, id),
    ensures
        s.update(first_index_of(s, id), replaced(id, r)).len() == s.len(),
        s.update(first_index_of(s, id), replaced(id, r))[first_index_of(s, id)] == replaced(
            id,
            r,
        ),
        forall|i: int|
            0 <= i < s.len() && i != first_index_of(s, id) ==> s.update(
                first_index_of(s, id),
                replaced(id, r),
            )[i] == s[i],
{
    lemma_first_index_of_hits(s, id);
}

/// List reflects a Delete: the listing after a Delete holds exactly the old
/// records whose id differs from the deleted one — each survivor is one of
/// the old records, and each old record with another id survives.
pub proof fn lemma_list_reflects_delete(s: Seq<TodoView>, id: u64)
    ensures
        forall|i: int|
            0 <= i < removed(s, id).len() ==> s.contains(#[trigger] removed(s, id)[i]) && removed(
                s,
                id,
            )[i].id != id,
        forall|j: int|
            0 <= j < s.len() && (#[trigger] s[j]).id != id ==> removed(s, id).contains(s[j]),
{
    lemma_removed_props(s, id);
}

/// Linearizability of concurrent Creates: the store serializes its
/// operations, so N concurrent Creates run in some order, here the sequence
/// `adds`. When their ids are pairwise distinct and absent from the store,
/// then whatever that order, every Create finds its id still absent — so all
/// N succeed — and the final listing is the old records followed by the new
/// ones: old count plus N records, ids still unique, every created id present.
pub proof fn lemma_concurrent_creates(s: Seq<TodoView>, adds: Seq<TodoView>)
    requires
        unique_ids(s),
        forall|i: int, j: int| 0 <= i < j < adds.len() ==> adds[i].id != adds[j].id,
        forall|i: int| 0 <= i < adds.len() ==> !contains_id(s, (#[trigger] adds[i]).id),
    ensures
        forall|k: int|
            0 <= k < adds.len() ==> !contains_id(s + adds.take(k), (#[trigger] adds[k]).id),
        forall|k: int|
            0 <= k < adds.len() ==> (s + adds.take(k)).push(#[trigger] adds[k]) == s + adds.take(
                k + 1,
            ),
        (s + adds).len() == s.len() + adds.len(),
        unique_ids(s + adds),
        forall|k: int| 0 <= k < adds.len() ==> contains_id(s + adds, (#[trigger] adds[k]).id),
{
    assert forall|k: int| 0 <= k < adds.len() implies !contains_id(
        s + adds.take(k),
        (#[trigger] adds[k]).id,
    ) by {
        if contains_id(s + adds.take(k), adds[k].id) {
            let w = choose|i: int|
                0 <= i < (s + adds.take(k)).len() && (#[trigger] (s + adds.take(k))[i]).id
                    == adds[k].id;
            if w < s.len() {
                assert(s[w] == (s + adds.take(k))[w]);
                assert(contains_id(s, adds[k].id));
            } else {
                assert(adds[w - s.len()] == (s + adds.take(k))[w]);
            }
        }
    }
    assert forall|k: int| 0 <= k < adds.len() implies (s + adds.take(k)).push(#[trigger] adds[k])
        == s + adds.take(k + 1) by {
        assert((s + adds.take(k)).push(adds[k]) =~= s + adds.take(k + 1));
    }
    assert forall|i: int, j: int| 0 <= i < j < (s + adds).len() implies (s + adds)[i].id != (s
        + adds)[j].id by {
        if j < s.len() {
        } else if i < s.len() {
            assert((s + adds)[i] == s[i]);
            assert((s + adds)[j] == adds[j - s.len()]);
            if s[i].id == adds[j - s.len()].id {
                assert(contains_id(s, adds[j - s.len()].id));
            }
        } else {
            assert((s + adds)[i] == adds[i - s.len()]);
            assert((s + adds)[j] == adds[j - s.len()]);
        }
    }
    assert forall|k: int| 0 <= k < adds.len() implies contains_id(
        s + adds,
        (#[trigger] adds[k]).id,
    ) by {
        assert((s + adds)[s.len() + k] == adds[k]);
    }
}

} // verus!
