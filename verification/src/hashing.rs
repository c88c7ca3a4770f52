//! Digest-mode keys: the SHA-256 digest of a file's contents, rendered as
//! 64 lowercase hexadecimal characters.

use vstd::prelude::*;
use vstd::string::StringExecFns;

verus! {

/// The SHA-256 digest of a byte sequence: 32 bytes, a function of the input
/// bytes alone.
pub uninterp spec fn sha256_of(bytes: Seq<u8>) -> Seq<u8>;

/// Relies on `sha2::Sha256::digest` (via the `digest` crate's
/// `Digest::digest`): returns the 32-byte SHA-256 hash of the input, a pure
/// function of the input bytes.
#[verifier::external_body]
fn sha256(data: &Vec<u8>) -> (r: Vec<u8>)
    ensures
        r@ == sha256_of(data@),
        r@.len() == 32,
{
    <sha2::Sha256 as sha2::Digest>::digest(data.as_slice()).to_vec()
}

/// The lowercase hexadecimal digit for a value below 16.
pub open spec fn hex_digit_char(n: int) -> char {
    if n == 0 {
        '0'
    } else if n == 1 {
        '1'
    } else if n == 2 {
        '2'
    } else if n == 3 {
        '3'
    } else if n == 4 {
        '4'
    } else if n == 5 {
        '5'
    } else if n == 6 {
        '6'
    } else if n == 7 {
        '7'
    } else if n == 8 {
        '8'
    } else if n == 9 {
        '9'
    } else if n == 10 {
        'a'
    } else if n == 11 {
        'b'
    } else if n == 12 {
        'c'
    } else if n == 13 {
        'd'
    } else if n == 14 {
        'e'
    } else {
        'f'
    }
}

/// The lowercase hexadecimal rendering of a byte sequence: two digits per
/// byte, high nibble first.
pub open spec fn hex_of(bytes: Seq<u8>) -> Seq<char> {
    Seq::new(
        bytes.len() * 2,
        |i: int|
            if i % 2 == 0 {
                hex_digit_char(bytes[i / 2] as int / 16)
            } else {
                hex_digit_char(bytes[i / 2] as int % 16)
            },
    )
}

fn hex_digit_str(n: u8) -> (r: &'static str)
    requires
        n < 16,
    ensures
        r@.len() == 1,
        r@[0] == hex_digit_char(n as int),
{
    if n == 0 {
        proof {
            reveal_strlit("0");
        }
        "0"
    } else if n == 1 {
        proof {
            reveal_strlit("1");
        }
        "1"
    } else if n == 2 {
        proof {
            reveal_strlit("2");
        }
        "2"
    } else if n == 3 {
        proof {
            reveal_strlit("3");
        }
        "3"
    } else if n == 4 {
        proof {
            reveal_strlit("4");
        }
        "4"
    } else if n == 5 {
        proof {
            reveal_strlit("5");
        }
        "5"
    } else if n == 6 {
        proof {
            reveal_strlit("6");
        }
        "6"
    } else if n == 7 {
        proof {
            reveal_strlit("7");
        }
        "7"
    } else if n == 8 {
        proof {
            reveal_strlit("8");
        }
        "8"
    } else if n == 9 {
        proof {
            reveal_strlit("9");
        }
        "9"
    } else if n == 10 {
        proof {
            reveal_strlit("a");
        }
        "a"
    } else if n == 11 {
        proof {
            reveal_strlit("b");
        }
        "b"
    } else if n == 12 {
        proof {
            reveal_strlit("c");
        }
        "c"
    } else if n == 13 {
        proof {
            reveal_strlit("d");
        }
        "d"
    } else if n == 14 {
        proof {
            reveal_strlit("e");
        }
        "e"
    } else {
        proof {
            reveal_strlit("f");
        }
        "f"
    }
}

/// Renders a byte sequence as lowercase hexadecimal, two digits per byte.
pub fn to_hex(bytes: &Vec<u8>) -> (r: String)
    ensures
        r@ == hex_of(bytes@),
{
    let mut out = String::new();
    let mut i: usize = 0;
    while i < bytes.len()
        invariant
            i <= bytes@.len(),
            out@ == hex_of(bytes@).take(2 * i as int),
        decreases bytes@.len() - i,
    {
        let b = bytes[i];
        let hi = hex_digit_str(b / 16);
        out.append(hi);
        let lo = hex_digit_str(b % 16);
        out.append(lo);
        proof {
            assert(out@ =~= hex_of(bytes@).take(2 * (i + 1) as int));
        }
        i = i + 1;
    }
    proof {
        assert(hex_of(bytes@).take(2 * bytes@.len() as int) =~= hex_of(bytes@));
    }
    out
}

/// The digest-mode comparison key for a file with the given contents.
pub open spec fn digest_key(content: Seq<u8>) -> Seq<char> {
    hex_of(sha256_of(content))
}

/// Computes the digest-mode key for one file's contents: the SHA-256 digest
/// of the bytes as 64 lowercase hexadecimal characters.
pub fn generate_hash_for_contents(content: &Vec<u8>) -> (r: String)
    ensures
        r@ == digest_key(content@),
        r@.len() == 64,
{
    let digest = sha256(content);
    to_hex(&digest)
}

/// One immediate entry of a directory, as handed in by the caller in
/// digest-mode: either a subdirectory, or a file with its contents read in
/// full.
pub enum FolderEntry {
    Directory,
    File { content: Vec<u8> },
}

/// The digest-mode keys of a sequence of directory entries, in order:
/// subdirectory entries contribute nothing, each file entry contributes the
/// digest key of its contents.
pub open spec fn digests_of(entries: Seq<FolderEntry>) -> Seq<Seq<char>>
    decreases entries.len(),
{
    if entries.len() == 0 {
        Seq::empty()
    } else {
        let rest = digests_of(entries.drop_first());
        match entries[0] {
            FolderEntry::Directory => rest,
            FolderEntry::File { content } => seq![digest_key(content@)] + rest,
        }
    }
}

/// Appending one entry appends its key contribution.
pub proof fn lemma_digests_of_push(entries: Seq<FolderEntry>, entry: FolderEntry)
    ensures
        digests_of(entries.push(entry)) == digests_of(entries) + digests_of(seq![entry]),
    decreases entries.len(),
{
    if entries.len() == 0 {
        assert(entries.push(entry) =~= seq![entry]);
        assert(digests_of(entries) + digests_of(seq![entry]) =~= digests_of(seq![entry]));
    } else {
        assert(entries.push(entry).drop_first() =~= entries.drop_first().push(entry));
        lemma_digests_of_push(entries.drop_first(), entry);
        assert(entries.push(entry)[0] == entries[0]);
        match entries[0] {
            FolderEntry::Directory => {},
            FolderEntry::File { content } => {
                assert(seq![digest_key(content@)] + (digests_of(entries.drop_first()) + digests_of(
                    seq![entry],
                )) =~= (seq![digest_key(content@)] + digests_of(entries.drop_first()))
                    + digests_of(seq![entry]));
            },
        }
    }
}

/// The key contribution of one entry alone.
pub proof fn lemma_digests_of_singleton(entry: FolderEntry)
    ensures
        entry is Directory ==> digests_of(seq![entry]) =~= Seq::<Seq<char>>::empty(),
        entry matches FolderEntry::File { content } ==> digests_of(seq![entry]) =~= seq![
            digest_key(content@),
        ],
{
    assert(seq![entry].drop_first() =~= Seq::<FolderEntry>::empty());
    match entry {
        FolderEntry::Directory => {
            assert(digests_of(Seq::<FolderEntry>::empty()) =~= Seq::<Seq<char>>::empty());
        },
        FolderEntry::File { content } => {
            assert(seq![digest_key(content@)] + digests_of(Seq::<FolderEntry>::empty()) =~= seq![
                digest_key(content@),
            ]);
        },
    }
}

/// Computes the digest-mode keys of a directory's entries: one key per file
/// entry, in order; subdirectory entries are skipped.
pub fn generate_hashes_for_folder(entries: &Vec<FolderEntry>) -> (r: Vec<String>)
    ensures
        r.deep_view() == digests_of(entries@),
{
    let mut out: Vec<String> = Vec::new();
    let mut i: usize = 0;
    while i < entries.len()
        invariant
            i <= entries@.len(),
            out.deep_view() == digests_of(entries@.take(i as int)),
        decreases entries@.len() - i,
    {
        let ghost pre = out.deep_view();
        match &entries[i] {
            FolderEntry::Directory => {},
            FolderEntry::File { content } => {
                let key = generate_hash_for_contents(content);
                out.push(key);
                proof {
                    assert(out.deep_view() =~= pre.push(key@));
                }
            },
        }
        proof {
            lemma_digests_of_push(entries@.take(i as int), entries@[i as int]);
            lemma_digests_of_singleton(entries@[i as int]);
            assert(entries@.take(i as int).push(entries@[i as int]) =~= entries@.take(
                i as int + 1,
            ));
            assert(out.deep_view() =~= digests_of(entries@.take(i as int + 1)));
        }
        i = i + 1;
    }
    proof {
        assert(entries@.take(entries@.len() as int) =~= entries@);
    }
    out
}

} // verus!
