//! General properties of the comparison: order-independence, behaviour on
//! identical or empty directories, the effect of subdirectory entries, and
//! the tie between the name-mode verdict and the missing-path list.

use vstd::prelude::*;

use crate::compare::hash_subset;
use crate::compare::missing_paths;
use crate::compare::name_in;
use crate::compare::names_subset;
use crate::hashing::digests_of;
use crate::hashing::FolderEntry;
use crate::names::named_records_of;
use crate::names::PathEntry;

verus! {

/// Two key sequences that hold the same keys with the same multiplicities
/// contain the same keys.
pub proof fn lemma_same_multiset_same_contains(a: Seq<Seq<char>>, b: Seq<Seq<char>>)
    requires
        a.to_multiset() == b.to_multiset(),
    ensures
        forall|x: Seq<char>| a.contains(x) == b.contains(x),
{
    broadcast use vstd::seq_lib::group_to_multiset_ensures;

    assert forall|x: Seq<char>| a.contains(x) == b.contains(x) by {
        assert(a.contains(x) <==> a.to_multiset().count(x) > 0);
        assert(b.contains(x) <==> b.to_multiset().count(x) > 0);
    }
}

/// Two directories with identical file sets and contents have the same
/// multiset of digest keys, and then each compares as a subset of the
/// other: digest-mode comparison is true in both directions.
pub proof fn lemma_identical_contents_mutual_subset(a: Seq<Seq<char>>, b: Seq<Seq<char>>)
    requires
        a.to_multiset() == b.to_multiset(),
    ensures
        hash_subset(a, b),
        hash_subset(b, a),
{
    lemma_same_multiset_same_contains(a, b);
    assert forall|i: int| 0 <= i < a.len() implies b.contains(#[trigger] a[i]) by {
        assert(a.contains(a[i]));
    }
    assert forall|i: int| 0 <= i < b.len() implies a.contains(#[trigger] b[i]) by {
        assert(b.contains(b[i]));
    }
}

/// A directory holding a key absent from the other never compares as a
/// subset of it.
pub proof fn lemma_absent_key_not_subset(a: Seq<Seq<char>>, b: Seq<Seq<char>>, i: int)
    requires
        0 <= i < a.len(),
        !b.contains(a[i]),
    ensures
        !hash_subset(a, b),
{
}

/// Digest-mode comparison is order-independent: shuffling the entries of
/// either directory, which permutes its key sequence, leaves the verdict
/// unchanged.
pub proof fn lemma_hash_subset_order_independent(
    a: Seq<Seq<char>>,
    b: Seq<Seq<char>>,
    a2: Seq<Seq<char>>,
    b2: Seq<Seq<char>>,
)
    requires
        a.to_multiset() == a2.to_multiset(),
        b.to_multiset() == b2.to_multiset(),
    ensures
        hash_subset(a, b) == hash_subset(a2, b2),
{
    lemma_same_multiset_same_contains(a, a2);
    lemma_same_multiset_same_contains(b, b2);
    if hash_subset(a, b) {
        assert forall|i: int| 0 <= i < a2.len() implies b2.contains(#[trigger] a2[i]) by {
            assert(a2.contains(a2[i]));
            let j = choose|j: int| 0 <= j < a.len() && a[j] == a2[i];
            assert(b.contains(a[j]));
        }
    }
    if hash_subset(a2, b2) {
        assert forall|i: int| 0 <= i < a.len() implies b.contains(#[trigger] a[i]) by {
            assert(a.contains(a[i]));
            let j = choose|j: int| 0 <= j < a2.len() && a2[j] == a[i];
            assert(b2.contains(a2[j]));
        }
    }
}

/// An empty directory is a subset of anything: its comparison is vacuously
/// true in digest-mode.
pub proof fn lemma_empty_hash_subset(b: Seq<Seq<char>>)
    ensures
        hash_subset(Seq::<Seq<char>>::empty(), b),
{
}

/// An empty directory is a subset of anything in name-mode too, and
/// nothing of it is missing.
pub proof fn lemma_empty_names_subset(b: Seq<(Seq<char>, Seq<char>)>)
    ensures
        names_subset(Seq::<(Seq<char>, Seq<char>)>::empty(), b),
        missing_paths(Seq::<(Seq<char>, Seq<char>)>::empty(), b) == Seq::<Seq<char>>::empty(),
{
}

/// A subdirectory entry contributes nothing in digest-mode: inserting one
/// anywhere leaves the key sequence unchanged.
pub proof fn lemma_directory_entries_not_hashed(entries: Seq<FolderEntry>, i: int)
    requires
        0 <= i <= entries.len(),
    ensures
        digests_of(entries.insert(i, FolderEntry::Directory)) == digests_of(entries),
    decreases entries.len(),
{
    let t = entries.insert(i, FolderEntry::Directory);
    if i == 0 {
        assert(t[0] is Directory);
        assert(t.drop_first() =~= entries);
    } else {
        assert(t[0] == entries[0]);
        assert(t.drop_first() =~= entries.drop_first().insert(i - 1, FolderEntry::Directory));
        lemma_directory_entries_not_hashed(entries.drop_first(), i - 1);
    }
}

/// A subdirectory entry contributes nothing in name-mode either: inserting
/// one anywhere leaves the record sequence unchanged.
pub proof fn lemma_directory_entries_not_named(entries: Seq<PathEntry>, i: int)
    requires
        0 <= i <= entries.len(),
    ensures
        named_records_of(entries.insert(i, PathEntry::Directory)) == named_records_of(entries),
    decreases entries.len(),
{
    let t = entries.insert(i, PathEntry::Directory);
    if i == 0 {
        assert(t[0] is Directory);
        assert(t.drop_first() =~= entries);
    } else {
        assert(t[0] == entries[0]);
        assert(t.drop_first() =~= entries.drop_first().insert(i - 1, PathEntry::Directory));
        lemma_directory_entries_not_named(entries.drop_first(), i - 1);
    }
}

/// The name-mode verdict and the missing-path list agree: the comparison is
/// true exactly when no path is missing.
pub proof fn lemma_names_subset_iff_none_missing(
    a: Seq<(Seq<char>, Seq<char>)>,
    b: Seq<(Seq<char>, Seq<char>)>,
)
    ensures
        names_subset(a, b) <==> missing_paths(a, b).len() == 0,
    decreases a.len(),
{
    if a.len() == 0 {
    } else {
        lemma_names_subset_iff_none_missing(a.drop_first(), b);
        if names_subset(a, b) {
            assert forall|k: int| 0 <= k < a.drop_first().len() implies name_in(
                b,
                #[trigger] a.drop_first()[k].1,
            ) by {
                assert(a.drop_first()[k] == a[k + 1]);
                assert(name_in(b, a[k + 1].1));
            }
            assert(name_in(b, a[0].1));
        } else if missing_paths(a, b).len() == 0 {
            assert(name_in(b, a[0].1));
            assert(names_subset(a.drop_first(), b));
            assert forall|k: int| 0 <= k < a.len() implies name_in(b, #[trigger] a[k].1) by {
                if k > 0 {
                    assert(a.drop_first()[k - 1] == a[k]);
                    assert(name_in(b, a.drop_first()[k - 1].1));
                }
            }
        }
    }
}

} // verus!
