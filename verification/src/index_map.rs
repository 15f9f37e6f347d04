//! The table from each symbol of an alphabet to its position, kept in an
//! `ahash::AHashMap`.

use ahash::AHashMap;
use ahash::RandomState;
use vstd::prelude::*;

verus! {

/// `ahash::AHashMap`, a hash map, taken as it is.
#[verifier::external_type_specification]
#[verifier::external_body]
#[verifier::reject_recursive_types(K)]
#[verifier::reject_recursive_types(V)]
#[verifier::reject_recursive_types(S)]
pub struct ExAHashMap<K, V, S>(AHashMap<K, V, S>);

/// `ahash::RandomState`, the hasher that an `AHashMap` has unless it is
/// given another.
#[verifier::external_type_specification]
#[verifier::external_body]
pub struct ExRandomState(RandomState);

/// The entries that a table holds: each key with its value.
pub uninterp spec fn index_entries(table: AHashMap<char, usize>) -> Map<char, usize>;

/// `AHashMap::new`: a table without entries.
#[verifier::external_body]
pub(crate) fn index_map_new() -> (table: AHashMap<char, usize>)
    ensures
        index_entries(table) == (Map::<char, usize>::empty()),
{
    AHashMap::new()
}

/// `AHashMap::insert`: afterwards the table holds `i` under `c`, in place
/// of what it held under `c` before, and every other entry as before.
#[verifier::external_body]
pub(crate) fn index_map_insert(table: &mut AHashMap<char, usize>, c: char, i: usize)
    ensures
        index_entries(*final(table)) == index_entries(*old(table)).insert(c, i),
{
    table.insert(c, i);
}

/// `AHashMap::get`: the value held under `c`, or `None` where the table
/// holds nothing under it.
#[verifier::external_body]
pub(crate) fn index_map_get(table: &AHashMap<char, usize>, c: char) -> (found: Option<usize>)
    ensures
        found == if index_entries(*table).dom().contains(c) {
            Some(index_entries(*table)[c])
        } else {
            None
        },
{
    table.get(&c).copied()
}

/// `entries` holds exactly the symbols of `charset`, each with the place
/// where it stands.
pub open spec fn indexes(entries: Map<char, usize>, charset: Seq<char>) -> bool {
    &&& forall|c: char| entries.dom().contains(c) <==> charset.contains(c)
    &&& forall|i: int| 0 <= i < charset.len() ==> #[trigger] entries[charset[i]] == i
}

/// The table of the positions of the symbols of `charset`.
pub fn index_charset(charset: &Vec<char>) -> (table: AHashMap<char, usize>)
    requires
        charset@.no_duplicates(),
    ensures
        indexes(index_entries(table), charset@),
{
    let mut table = index_map_new();
    let mut i: usize = 0;
    while i < charset.len()
        invariant
            i <= charset@.len(),
            charset@.no_duplicates(),
            indexes(index_entries(table), charset@.take(i as int)),
        decreases charset.len() - i,
    {
        let ghost before = index_entries(table);
        index_map_insert(&mut table, charset[i], i);
        proof {
            let after = index_entries(table);
            let shorter = charset@.take(i as int);
            let longer = charset@.take(i + 1);
            assert(longer == shorter.push(charset@[i as int]));
            assert forall|c: char| after.dom().contains(c) <==> longer.contains(c) by {
                if longer.contains(c) {
                    let j = choose|j: int| 0 <= j < longer.len() && longer[j] == c;
                    if j < i {
                        assert(shorter[j] == c);
                        assert(shorter.contains(c));
                    }
                }
                if shorter.contains(c) {
                    let j = choose|j: int| 0 <= j < shorter.len() && shorter[j] == c;
                    assert(longer[j] == c);
                }
                assert(longer[i as int] == charset@[i as int]);
            }
            assert forall|j: int| 0 <= j < longer.len() implies #[trigger] after[longer[j]]
                == j by {
                if j < i {
                    assert(longer[j] == shorter[j]);
                    assert(charset@[j] != charset@[i as int]);
                    assert(before[shorter[j]] == j);
                }
            }
        }
        i = i + 1;
    }
    assert(charset@.take(charset@.len() as int) == charset@);
    table
}

} // verus!
