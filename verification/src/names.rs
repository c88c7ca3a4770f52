//! Name-mode keys: the display name derived from a file name by truncating
//! at the first dot that is not the first character.  A name that begins
//! with a dot keeps that leading dot; everything from the first interior dot
//! on is dropped.

use vstd::prelude::*;
use vstd::string::StrSliceExecFns;
use vstd::string::StringExecFns;

verus! {

/// The index of the first `'.'` in `s` at or after `from`, or `s.len()` if
/// there is none.
pub open spec fn first_dot_from(s: Seq<char>, from: int) -> int
    decreases s.len() - from,
{
    if from >= s.len() {
        s.len() as int
    } else if s[from] == '.' {
        from
    } else {
        first_dot_from(s, from + 1)
    }
}

/// Where the derived name of a file name ends: at the first interior dot,
/// or at the end of the name if there is none.  The character at index 0 is
/// never treated as a cut point, so a leading dot survives.
pub open spec fn cut_index(s: Seq<char>) -> int {
    first_dot_from(s, 1)
}

/// The name-mode comparison key of a file name: its prefix up to the first
/// interior dot.
pub open spec fn derived_name(s: Seq<char>) -> Seq<char> {
    s.take(cut_index(s))
}

/// Pins `first_dot_from` down when a witness scan is available: if no dot
/// stands in `[from, upto)` and `upto` is the length or holds a dot, the
/// first dot from `from` is at `upto`.
pub proof fn lemma_first_dot_from_witness(s: Seq<char>, from: int, upto: int)
    requires
        0 <= from <= upto <= s.len(),
        forall|j: int| from <= j < upto ==> s[j] != '.',
        upto == s.len() || s[upto] == '.',
    ensures
        first_dot_from(s, from) == upto,
    decreases upto - from,
{
    if from < upto {
        lemma_first_dot_from_witness(s, from + 1, upto);
    }
}

/// Derives the name-mode key of a file name: the characters up to the first
/// dot whose index is not 0; the rest is dropped.
pub fn get_name(full_name: &str) -> (r: String)
    ensures
        r@ == derived_name(full_name@),
{
    let len = full_name.unicode_len();
    let mut cut: usize = len;
    let mut i: usize = 0;
    while i < len
        invariant_except_break
            i <= len,
            len == full_name@.len(),
            cut == len,
            forall|j: int| 1 <= j < i ==> full_name@[j] != '.',
        ensures
            cut <= len,
            len == full_name@.len(),
            cut < len ==> 1 <= cut && full_name@[cut as int] == '.' && forall|j: int|
                1 <= j < cut ==> full_name@[j] != '.',
            cut == len ==> forall|j: int| 1 <= j < len ==> full_name@[j] != '.',
        decreases len - i,
    {
        let c = full_name.get_char(i);
        if c == '.' && i != 0 {
            cut = i;
            break ;
        }
        i = i + 1;
    }
    proof {
        if len == 0 {
            assert(cut_index(full_name@) == 0);
        } else {
            lemma_first_dot_from_witness(full_name@, 1, cut as int);
        }
    }
    let prefix = full_name.substring_char(0, cut);
    String::from_str(prefix)
}

/// One immediate entry of a directory, as handed in by the caller in
/// name-mode: either a subdirectory, or a file with its full path and its
/// bare file name.
pub enum PathEntry {
    Directory,
    File { path: String, file_name: String },
}

/// The name-mode records of a sequence of directory entries, in order:
/// subdirectory entries contribute nothing, each file entry contributes its
/// path paired with the derived name of its file name.
pub open spec fn named_records_of(entries: Seq<PathEntry>) -> Seq<(Seq<char>, Seq<char>)>
    decreases entries.len(),
{
    if entries.len() == 0 {
        Seq::empty()
    } else {
        let rest = named_records_of(entries.drop_first());
        match entries[0] {
            PathEntry::Directory => rest,
            PathEntry::File { path, file_name } => seq![(path@, derived_name(file_name@))] + rest,
        }
    }
}

/// The record contribution of one entry alone.
pub proof fn lemma_named_records_of_singleton(entry: PathEntry)
    ensures
        entry is Directory ==> named_records_of(seq![entry]) =~= Seq::<(
            Seq<char>,
            Seq<char>,
        )>::empty(),
        entry matches PathEntry::File { path, file_name } ==> named_records_of(seq![entry]) =~= seq![
            (path@, derived_name(file_name@)),
        ],
{
    assert(seq![entry].drop_first() =~= Seq::<PathEntry>::empty());
    match entry {
        PathEntry::Directory => {
            assert(named_records_of(Seq::<PathEntry>::empty()) =~= Seq::<(
                Seq<char>,
                Seq<char>,
            )>::empty());
        },
        PathEntry::File { path, file_name } => {
            assert(seq![(path@, derived_name(file_name@))] + named_records_of(
                Seq::<PathEntry>::empty(),
            ) =~= seq![(path@, derived_name(file_name@))]);
        },
    }
}

/// Appending one entry appends its record contribution.
pub proof fn lemma_named_records_of_push(entries: Seq<PathEntry>, entry: PathEntry)
    ensures
        named_records_of(entries.push(entry)) == named_records_of(entries) + named_records_of(
            seq![entry],
        ),
    decreases entries.len(),
{
    if entries.len() == 0 {
        assert(entries.push(entry) =~= seq![entry]);
        assert(named_records_of(entries) + named_records_of(seq![entry]) =~= named_records_of(
            seq![entry],
        ));
    } else {
        assert(entries.push(entry).drop_first() =~= entries.drop_first().push(entry));
        lemma_named_records_of_push(entries.drop_first(), entry);
        assert(entries.push(entry)[0] == entries[0]);
        match entries[0] {
            PathEntry::Directory => {},
            PathEntry::File { path, file_name } => {
                assert(seq![(path@, derived_name(file_name@))] + (named_records_of(
                    entries.drop_first(),
                ) + named_records_of(seq![entry])) =~= (seq![(path@, derived_name(file_name@))]
                    + named_records_of(entries.drop_first())) + named_records_of(seq![entry]));
            },
        }
    }
}

/// Computes the name-mode records of a directory's entries: the path and
/// derived name of each file entry, in order; subdirectory entries are
/// skipped.
pub fn get_paths_from_folder(entries: &Vec<PathEntry>) -> (r: Vec<(String, String)>)
    ensures
        r.deep_view() == named_records_of(entries@),
{
    let mut out: Vec<(String, String)> = Vec::new();
    let mut i: usize = 0;
    while i < entries.len()
        invariant
            i <= entries@.len(),
            out.deep_view() == named_records_of(entries@.take(i as int)),
        decreases entries@.len() - i,
    {
        let ghost pre = out.deep_view();
        match &entries[i] {
            PathEntry::Directory => {},
            PathEntry::File { path, file_name } => {
                let name = get_name(file_name.as_str());
                let record = (path.clone(), name);
                out.push(record);
                proof {
                    assert(out.deep_view() =~= pre.push(record.deep_view()));
                }
            },
        }
        proof {
            lemma_named_records_of_push(entries@.take(i as int), entries@[i as int]);
            lemma_named_records_of_singleton(entries@[i as int]);
            assert(entries@.take(i as int).push(entries@[i as int]) =~= entries@.take(
                i as int + 1,
            ));
            assert(out.deep_view() =~= named_records_of(entries@.take(i as int + 1)));
        }
        i = i + 1;
    }
    proof {
        assert(entries@.take(entries@.len() as int) =~= entries@);
    }
    out
}

} // verus!
