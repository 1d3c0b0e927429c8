//! The ordered field-error map: an insertion-ordered mapping from field
//! paths to messages, backed by `indexmap::IndexMap`.
//!
//! The map itself is an outside type, so it is declared to the verifier as
//! opaque; `entries_of` names its contents as a sequence of key/value pairs
//! in insertion order, and every operation the library needs is a small
//! trusted wrapper whose contract speaks over that sequence, as the crate's
//! own documentation and source state the operation's effect.

use vstd::prelude::*;

verus! {

#[verifier::external_type_specification]
#[verifier::external_body]
#[verifier::reject_recursive_types(K)]
#[verifier::reject_recursive_types(V)]
#[verifier::reject_recursive_types(S)]
pub struct ExIndexMap<K, V, S>(indexmap::IndexMap<K, V, S>);

/// The entries of an ordered map, as key/value pairs in insertion order.
pub uninterp spec fn entries_of(m: indexmap::IndexMap<String, String>) -> Seq<(Seq<char>, Seq<char>)>;

/// Whether some entry of `es` has key `k`.
pub open spec fn has_key(es: Seq<(Seq<char>, Seq<char>)>, k: Seq<char>) -> bool {
    exists|i: int| 0 <= i < es.len() && es[i].0 == k
}

/// The first position whose entry has key `k`.
pub open spec fn key_index(es: Seq<(Seq<char>, Seq<char>)>, k: Seq<char>) -> int
    decreases es.len(),
{
    if es.len() == 0 {
        0
    } else if es[0].0 == k {
        0
    } else {
        1 + key_index(es.skip(1), k)
    }
}

/// No two entries of `es` share a key.
pub open spec fn unique_keys(es: Seq<(Seq<char>, Seq<char>)>) -> bool {
    forall|i: int, j: int| 0 <= i < j < es.len() ==> es[i].0 != es[j].0
}

/// The effect of inserting `(k, v)`: an existing key keeps its place and
/// takes the new value; a new key is appended last.
pub open spec fn insert_entry(
    es: Seq<(Seq<char>, Seq<char>)>,
    k: Seq<char>,
    v: Seq<char>,
) -> Seq<(Seq<char>, Seq<char>)> {
    if has_key(es, k) {
        es.update(key_index(es, k), (k, v))
    } else {
        es.push((k, v))
    }
}

/// The entries obtained by inserting the entries of `es` in order into an
/// empty map.
pub open spec fn dedup_entries(es: Seq<(Seq<char>, Seq<char>)>) -> Seq<(Seq<char>, Seq<char>)>
    decreases es.len(),
{
    if es.len() == 0 {
        Seq::empty()
    } else {
        insert_entry(dedup_entries(es.drop_last()), es.last().0, es.last().1)
    }
}

pub proof fn lemma_key_index(es: Seq<(Seq<char>, Seq<char>)>, k: Seq<char>)
    requires
        has_key(es, k),
    ensures
        0 <= key_index(es, k) < es.len(),
        es[key_index(es, k)].0 == k,
    decreases es.len(),
{
    if es.len() == 0 {
    } else if es[0].0 == k {
    } else {
        let w = choose|i: int| 0 <= i < es.len() && es[i].0 == k;
        assert(es.skip(1)[w - 1] == es[w]);
        lemma_key_index(es.skip(1), k);
        assert(es[1 + key_index(es.skip(1), k)] == es.skip(1)[key_index(es.skip(1), k)]);
    }
}

pub proof fn lemma_insert_entry_unique(
    es: Seq<(Seq<char>, Seq<char>)>,
    k: Seq<char>,
    v: Seq<char>,
)
    requires
        unique_keys(es),
    ensures
        unique_keys(insert_entry(es, k, v)),
{
    if has_key(es, k) {
        lemma_key_index(es, k);
    }
}

pub proof fn lemma_dedup_unique(es: Seq<(Seq<char>, Seq<char>)>)
    ensures
        unique_keys(dedup_entries(es)),
    decreases es.len(),
{
    if es.len() == 0 {
    } else {
        lemma_dedup_unique(es.drop_last());
        lemma_insert_entry_unique(dedup_entries(es.drop_last()), es.last().0, es.last().1);
    }
}

/// Inserting entries whose keys are pairwise distinct reproduces them.
pub proof fn lemma_dedup_identity(es: Seq<(Seq<char>, Seq<char>)>)
    requires
        unique_keys(es),
    ensures
        dedup_entries(es) == es,
    decreases es.len(),
{
    if es.len() == 0 {
        assert(dedup_entries(es) =~= es);
    } else {
        let front = es.drop_last();
        assert(unique_keys(front));
        lemma_dedup_identity(front);
        if has_key(front, es.last().0) {
            lemma_key_index(front, es.last().0);
            let i = key_index(front, es.last().0);
            assert(front[i] == es[i]);
            assert(false);
        }
        assert(dedup_entries(es) =~= es);
    }
}

/// Relies on `indexmap::IndexMap::new`: creates an empty map.
#[verifier::external_body]
pub(crate) fn map_new() -> (r: indexmap::IndexMap<String, String>)
    ensures
        entries_of(r) == Seq::<(Seq<char>, Seq<char>)>::empty(),
{
    indexmap::IndexMap::new()
}

/// Relies on `indexmap::IndexMap::len`: the number of entries.
#[verifier::external_body]
pub(crate) fn map_len(m: &indexmap::IndexMap<String, String>) -> (r: usize)
    ensures
        r == entries_of(*m).len(),
{
    m.len()
}

/// Relies on `indexmap::IndexMap::get_index`: the key/value pair at a
/// position in insertion order.
#[verifier::external_body]
pub(crate) fn map_get_index(m: &indexmap::IndexMap<String, String>, i: usize) -> (r: (
    String,
    String,
))
    requires
        i < entries_of(*m).len(),
    ensures
        r.0@ == entries_of(*m)[i as int].0,
        r.1@ == entries_of(*m)[i as int].1,
{
    let (k, v) = m.get_index(i).unwrap();
    (k.clone(), v.clone())
}

/// Relies on `indexmap::IndexMap::contains_key`: whether an entry with the
/// given key is present.
#[verifier::external_body]
pub(crate) fn map_contains_key(m: &indexmap::IndexMap<String, String>, k: &String) -> (r: bool)
    ensures
        r == has_key(entries_of(*m), k@),
{
    m.contains_key(k.as_str())
}

/// Relies on `indexmap::IndexMap::insert`: an existing key keeps its place
/// in the order and its value is replaced; a new key is appended last.
#[verifier::external_body]
pub(crate) fn map_insert(m: &mut indexmap::IndexMap<String, String>, k: String, v: String)
    ensures
        entries_of(*final(m)) == insert_entry(entries_of(*old(m)), k@, v@),
{
    m.insert(k, v);
}

/// The map holding the entries of `m`, re-inserted in order.
pub(crate) fn rebuilt_map(m: &indexmap::IndexMap<String, String>) -> (r: indexmap::IndexMap<
    String,
    String,
>)
    ensures
        entries_of(r) == dedup_entries(entries_of(*m)),
        unique_keys(entries_of(r)),
{
    let ghost es = entries_of(*m);
    let n = map_len(m);
    let mut r = map_new();
    assert(entries_of(r) =~= dedup_entries(es.take(0)));
    let mut i: usize = 0;
    while i < n
        invariant
            n == es.len(),
            i <= n,
            es == entries_of(*m),
            entries_of(r) == dedup_entries(es.take(i as int)),
        decreases n - i,
    {
        let (k, v) = map_get_index(m, i);
        map_insert(&mut r, k, v);
        proof {
            assert(es.take(i + 1).drop_last() =~= es.take(i as int));
            assert(es.take(i + 1).last() == es[i as int]);
        }
        i += 1;
    }
    proof {
        assert(es.take(n as int) =~= es);
        lemma_dedup_unique(es);
    }
    r
}

} // verus!
