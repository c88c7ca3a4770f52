//! The equivalence check: every comparison key of the first directory must
//! occur among the keys of the second.  In name-mode, the entries whose
//! keys are absent are also collected, so that the caller can recover their
//! files.

use vstd::prelude::*;

verus! {

/// Every element of `a` occurs somewhere in `b`.
pub open spec fn hash_subset(a: Seq<Seq<char>>, b: Seq<Seq<char>>) -> bool {
    forall|i: int| 0 <= i < a.len() ==> b.contains(a[i])
}

/// Checks that every single element of `hashes1` is in `hashes2` as well;
/// returns true if that is the case.  Duplicates in either vector do not
/// matter: only membership counts.
pub fn compare_hash_vectors(hashes1: Vec<String>, hashes2: Vec<String>) -> (r: bool)
    ensures
        r == hash_subset(hashes1.deep_view(), hashes2.deep_view()),
{
    let mut i: usize = 0;
    while i < hashes1.len()
        invariant
            i <= hashes1@.len(),
            forall|k: int| 0 <= k < i ==> hashes2.deep_view().contains(hashes1.deep_view()[k]),
        decreases hashes1@.len() - i,
    {
        if !contains_string(&hashes2, &hashes1[i]) {
            proof {
                assert(hashes1.deep_view()[i as int] == hashes1@[i as int]@);
                assert(!hash_subset(hashes1.deep_view(), hashes2.deep_view()));
            }
            return false;
        }
        i = i + 1;
    }
    true
}

/// Whether `items` holds a string equal to `target`.
fn contains_string(items: &Vec<String>, target: &String) -> (r: bool)
    ensures
        r == items.deep_view().contains(target@),
{
    let mut j: usize = 0;
    while j < items.len()
        invariant
            j <= items@.len(),
            forall|l: int| 0 <= l < j ==> items.deep_view()[l] != target@,
        decreases items@.len() - j,
    {
        if items[j].eq(target) {
            assert(items.deep_view()[j as int] == target@);
            return true;
        }
        j = j + 1;
    }
    false
}

/// A record whose derived name equals `name` occurs somewhere in `b`.
pub open spec fn name_in(b: Seq<(Seq<char>, Seq<char>)>, name: Seq<char>) -> bool {
    exists|j: int| 0 <= j < b.len() && b[j].1 == name
}

/// Every record of `a` has a record in `b` with the same derived name.
pub open spec fn names_subset(a: Seq<(Seq<char>, Seq<char>)>, b: Seq<(Seq<char>, Seq<char>)>) -> bool {
    forall|i: int| 0 <= i < a.len() ==> name_in(b, a[i].1)
}

/// The paths of the records of `a` whose derived names are absent from `b`,
/// in order.
pub open spec fn missing_paths(a: Seq<(Seq<char>, Seq<char>)>, b: Seq<(Seq<char>, Seq<char>)>) -> Seq<
    Seq<char>,
>
    decreases a.len(),
{
    if a.len() == 0 {
        Seq::empty()
    } else {
        let rest = missing_paths(a.drop_first(), b);
        if name_in(b, a[0].1) {
            rest
        } else {
            seq![a[0].0] + rest
        }
    }
}

/// Appending one record to `a` appends its path to the missing paths
/// exactly when its name is absent from `b`.
pub proof fn lemma_missing_paths_push(
    a: Seq<(Seq<char>, Seq<char>)>,
    b: Seq<(Seq<char>, Seq<char>)>,
    record: (Seq<char>, Seq<char>),
)
    ensures
        name_in(b, record.1) ==> missing_paths(a.push(record), b) == missing_paths(a, b),
        !name_in(b, record.1) ==> missing_paths(a.push(record), b) == missing_paths(a, b).push(
            record.0,
        ),
    decreases a.len(),
{
    if a.len() == 0 {
        assert(a.push(record) =~= seq![record]);
        assert(seq![record].drop_first() =~= Seq::<(Seq<char>, Seq<char>)>::empty());
        assert(missing_paths(Seq::<(Seq<char>, Seq<char>)>::empty(), b) =~= Seq::<
            Seq<char>,
        >::empty());
        if !name_in(b, record.1) {
            assert(seq![record.0] + Seq::<Seq<char>>::empty() =~= missing_paths(a, b).push(
                record.0,
            ));
        }
    } else {
        assert(a.push(record).drop_first() =~= a.drop_first().push(record));
        lemma_missing_paths_push(a.drop_first(), b, record);
        assert(a.push(record)[0] == a[0]);
        if !name_in(b, a[0].1) {
            if name_in(b, record.1) {
            } else {
                assert(seq![a[0].0] + missing_paths(a.drop_first(), b).push(record.0) =~= (seq![
                    a[0].0,
                ] + missing_paths(a.drop_first(), b)).push(record.0));
            }
        }
    }
}

/// Whether `records` holds a record whose derived name equals `name`.
fn contains_name(records: &Vec<(String, String)>, name: &String) -> (r: bool)
    ensures
        r == name_in(records.deep_view(), name@),
{
    let mut j: usize = 0;
    while j < records.len()
        invariant
            j <= records@.len(),
            forall|l: int| 0 <= l < j ==> records.deep_view()[l].1 != name@,
        decreases records@.len() - j,
    {
        if records[j].1.eq(name) {
            assert(records.deep_view()[j as int].1 == name@);
            return true;
        }
        j = j + 1;
    }
    false
}

/// Checks that every record of `folder1` has a record in `folder2` with the
/// same derived name.  Returns that verdict together with the paths of the
/// records of `folder1` whose names were not found, in order, so that the
/// caller can report and recover them.
pub fn compare_paths_vectors(folder1: Vec<(String, String)>, folder2: Vec<(String, String)>) -> (r: (
    bool,
    Vec<String>,
))
    ensures
        r.0 == names_subset(folder1.deep_view(), folder2.deep_view()),
        r.1.deep_view() == missing_paths(folder1.deep_view(), folder2.deep_view()),
{
    let mut has_same_elements = true;
    let mut missing: Vec<String> = Vec::new();
    let mut i: usize = 0;
    while i < folder1.len()
        invariant
            i <= folder1@.len(),
            has_same_elements == names_subset(
                folder1.deep_view().take(i as int),
                folder2.deep_view(),
            ),
            missing.deep_view() == missing_paths(
                folder1.deep_view().take(i as int),
                folder2.deep_view(),
            ),
        decreases folder1@.len() - i,
    {
        let ghost pre_missing = missing.deep_view();
        let found = contains_name(&folder2, &folder1[i].1);
        if !found {
            let path = folder1[i].0.clone();
            missing.push(path);
            has_same_elements = false;
            proof {
                assert(missing.deep_view() =~= pre_missing.push(folder1.deep_view()[i as int].0));
            }
        }
        proof {
            let a1 = folder1.deep_view();
            let b1 = folder2.deep_view();
            assert(a1[i as int] == (folder1@[i as int].0@, folder1@[i as int].1@));
            lemma_missing_paths_push(a1.take(i as int), b1, a1[i as int]);
            assert(a1.take(i as int).push(a1[i as int]) =~= a1.take(i as int + 1));
            assert(missing.deep_view() == missing_paths(a1.take(i as int + 1), b1));
            if !found {
                assert(a1.take(i as int + 1)[i as int] == a1[i as int]);
                assert(!names_subset(a1.take(i as int + 1), b1));
            } else {
                if names_subset(a1.take(i as int), b1) {
                    assert forall|k: int| 0 <= k < i + 1 implies name_in(
                        b1,
                        #[trigger] a1.take(i as int + 1)[k].1,
                    ) by {
                        if k < i {
                            assert(a1.take(i as int + 1)[k] == a1.take(i as int)[k]);
                            assert(name_in(b1, a1.take(i as int)[k].1));
                        } else {
                            assert(a1.take(i as int + 1)[k] == a1[i as int]);
                        }
                    }
                } else {
                    let k = choose|k: int|
                        0 <= k < a1.take(i as int).len() && !name_in(b1, a1.take(i as int)[k].1);
                    assert(a1.take(i as int + 1)[k] == a1.take(i as int)[k]);
                    assert(!names_subset(a1.take(i as int + 1), b1));
                }
            }
        }
        i = i + 1;
    }
    proof {
        assert(folder1.deep_view().take(folder1@.len() as int) =~= folder1.deep_view());
    }
    (has_same_elements, missing)
}

} // verus!
