//! Finding files with the same content by their SHA-256 hash.

use sha2::Digest;
use vstd::prelude::*;

verus! {

/// The SHA-256 digest of a byte string.
pub uninterp spec fn sha256(data: Seq<u8>) -> Seq<u8>;

/// `Sha256::digest` of the `sha2` crate: the SHA-256 digest of `data`,
/// which is 32 bytes long.
#[verifier::external_body]
fn sha256_digest(data: &[u8]) -> (digest: Vec<u8>)
    ensures
        digest@ == sha256(data@),
        digest@.len() == 32,
{
    sha2::Sha256::digest(data).to_vec()
}

/// The character of a hexadecimal digit, small letters for ten to fifteen.
pub open spec fn hex_char(n: nat) -> char {
    if n == 0 {
        '0'
    } else if n == 1 {
        '1'
    } else if n == 2 {
        '2'
    } else if n == 3 {
        '3'
    } else if n == 4 {
        '4'
    } else if n == 5 {
        '5'
    } else if n == 6 {
        '6'
    } else if n == 7 {
        '7'
    } else if n == 8 {
        '8'
    } else if n == 9 {
        '9'
    } else if n == 10 {
        'a'
    } else if n == 11 {
        'b'
    } else if n == 12 {
        'c'
    } else if n == 13 {
        'd'
    } else if n == 14 {
        'e'
    } else {
        'f'
    }
}

/// The bytes written in hexadecimal, two characters for each byte, the high
/// half first.
pub open spec fn hex_lower(bytes: Seq<u8>) -> Seq<char> {
    Seq::new(
        2 * bytes.len(),
        |i: int|
            if i % 2 == 0 {
                hex_char((bytes[i / 2] / 16) as nat)
            } else {
                hex_char((bytes[i / 2] % 16) as nat)
            },
    )
}

/// The one-character string of a hexadecimal digit.
fn hex_str(n: u8) -> (s: &'static str)
    requires
        n < 16,
    ensures
        s@ == seq![hex_char(n as nat)],
{
    proof {
        reveal_strlit("0");
        reveal_strlit("1");
        reveal_strlit("2");
        reveal_strlit("3");
        reveal_strlit("4");
        reveal_strlit("5");
        reveal_strlit("6");
        reveal_strlit("7");
        reveal_strlit("8");
        reveal_strlit("9");
        reveal_strlit("a");
        reveal_strlit("b");
        reveal_strlit("c");
        reveal_strlit("d");
        reveal_strlit("e");
        reveal_strlit("f");
    }
    let s = if n == 0 {
        "0"
    } else if n == 1 {
        "1"
    } else if n == 2 {
        "2"
    } else if n == 3 {
        "3"
    } else if n == 4 {
        "4"
    } else if n == 5 {
        "5"
    } else if n == 6 {
        "6"
    } else if n == 7 {
        "7"
    } else if n == 8 {
        "8"
    } else if n == 9 {
        "9"
    } else if n == 10 {
        "a"
    } else if n == 11 {
        "b"
    } else if n == 12 {
        "c"
    } else if n == 13 {
        "d"
    } else if n == 14 {
        "e"
    } else {
        "f"
    };
    s
}

/// Writes bytes in hexadecimal with small letters.
pub fn hex_string(bytes: &Vec<u8>) -> (text: String)
    ensures
        text@ == hex_lower(bytes@),
{
    let mut text = String::new();
    let mut i: usize = 0;
    while i < bytes.len()
        invariant
            i <= bytes@.len(),
            text@ == hex_lower(bytes@.subrange(0, i as int)),
        decreases bytes@.len() - i,
    {
        let b = bytes[i];
        text.append(hex_str(b / 16));
        text.append(hex_str(b % 16));
        i += 1;
    }
    text
}

/// The hash by which files are compared: the SHA-256 digest of the content,
/// in hexadecimal with small letters, 64 characters long.
pub fn content_hash(data: &[u8]) -> (hash: String)
    ensures
        hash@ == hex_lower(sha256(data@)),
        hash@.len() == 64,
{
    let digest = sha256_digest(data);
    hex_string(&digest)
}

/// Entries `i` and `j` have the same hash.
pub open spec fn same_hash(hashes: Seq<String>, i: int, j: int) -> bool {
    hashes[i]@ == hashes[j]@
}

/// No entry before `i` has the hash of entry `i`.
pub open spec fn is_first(hashes: Seq<String>, i: int) -> bool {
    forall|j: int| 0 <= j < i ==> !#[trigger] same_hash(hashes, j, i)
}

/// `group` lists, in rising order, exactly the entries that have the hash of
/// its first member, and there are at least two of them.
pub open spec fn is_duplicate_group(hashes: Seq<String>, group: Seq<usize>) -> bool {
    &&& group.len() >= 2
    &&& forall|a: int| 0 <= a < group.len() ==> #[trigger] group[a] < hashes.len()
    &&& forall|a: int, b: int| 0 <= a < b < group.len() ==> group[a] < group[b]
    &&& forall|a: int|
        0 <= a < group.len() ==> #[trigger] same_hash(hashes, group[a] as int, group[0] as int)
    &&& forall|i: int|
        0 <= i < hashes.len() && #[trigger] same_hash(hashes, i, group[0] as int)
            ==> group.contains(i as usize)
}

/// Entry `i` is a member of one of the groups.
pub open spec fn is_reported(groups: Seq<Vec<usize>>, i: int) -> bool {
    exists|g: int| 0 <= g < groups.len() && (#[trigger] groups[g])@.contains(i as usize)
}

/// Whether an earlier entry has the hash of entry `i`.
fn seen_before(hashes: &Vec<String>, i: usize) -> (b: bool)
    requires
        i < hashes@.len(),
    ensures
        b == !is_first(hashes@, i as int),
{
    let mut j: usize = 0;
    while j < i
        invariant
            j <= i < hashes@.len(),
            forall|k: int| 0 <= k < j ==> !#[trigger] same_hash(hashes@, k, i as int),
        decreases i - j,
    {
        if hashes[j] == hashes[i] {
            assert(same_hash(hashes@, j as int, i as int));
            return true;
        }
        j += 1;
    }
    false
}

/// The entries from `first` on that have the hash of entry `first`.
fn collect_same(hashes: &Vec<String>, first: usize) -> (group: Vec<usize>)
    requires
        first < hashes@.len(),
    ensures
        group@.len() >= 1,
        group@[0] == first,
        forall|a: int| 0 <= a < group@.len() ==> first <= #[trigger] group@[a] < hashes@.len(),
        forall|a: int, b: int| 0 <= a < b < group@.len() ==> group@[a] < group@[b],
        forall|a: int|
            0 <= a < group@.len() ==> #[trigger] same_hash(
                hashes@,
                group@[a] as int,
                first as int,
            ),
        forall|i: int|
            first <= i < hashes@.len() && #[trigger] same_hash(hashes@, i, first as int)
                ==> group@.contains(i as usize),
{
    let n = hashes.len();
    let mut group: Vec<usize> = Vec::new();
    group.push(first);
    let mut k: usize = first + 1;
    assert(group@[0] == first);
    while k < n
        invariant
            n == hashes@.len(),
            first < k <= hashes@.len(),
            group@.len() >= 1,
            group@[0] == first,
            forall|a: int| 0 <= a < group@.len() ==> first <= #[trigger] group@[a] < k,
            forall|a: int, b: int| 0 <= a < b < group@.len() ==> group@[a] < group@[b],
            forall|a: int|
                0 <= a < group@.len() ==> #[trigger] same_hash(
                    hashes@,
                    group@[a] as int,
                    first as int,
                ),
            forall|i: int|
                first <= i < k && #[trigger] same_hash(hashes@, i, first as int)
                    ==> group@.contains(i as usize),
        decreases hashes@.len() - k,
    {
        let ghost before = group@;
        if hashes[k] == hashes[first] {
            group.push(k);
            assert(group@[before.len() as int] == k);
            assert forall|i: int|
                first <= i < k + 1 && #[trigger] same_hash(
                    hashes@,
                    i,
                    first as int,
                ) implies group@.contains(i as usize) by {
                if i < k {
                    let a = choose|a: int| 0 <= a < before.len() && before[a] == i as usize;
                    assert(group@[a] == i as usize);
                }
            }
        }
        k += 1;
    }
    group
}

/// Groups the entries that share a hash. Entries are named by their
/// position in `hashes`. Every hash that occurs more than once gets one
/// group with all its entries in rising order; the groups come in the order
/// of their first entries. An entry whose hash occurs once is in no group.
pub fn duplicate_groups(hashes: &Vec<String>) -> (groups: Vec<Vec<usize>>)
    ensures
        forall|g: int|
            0 <= g < groups@.len() ==> is_duplicate_group(hashes@, (#[trigger] groups@[g])@),
        forall|g: int|
            0 <= g < groups@.len() ==> is_first(hashes@, (#[trigger] groups@[g])@[0] as int),
        forall|g: int, h: int|
            0 <= g < h < groups@.len() ==> (#[trigger] groups@[g])@[0] < (#[trigger] groups@[h])@[0],
        forall|i: int, j: int|
            0 <= i < hashes@.len() && 0 <= j < hashes@.len() && i != j && #[trigger] same_hash(
                hashes@,
                i,
                j,
            ) ==> is_reported(groups@, i),
{
    let mut groups: Vec<Vec<usize>> = Vec::new();
    let mut i: usize = 0;
    while i < hashes.len()
        invariant
            i <= hashes@.len(),
            forall|g: int|
                0 <= g < groups@.len() ==> is_duplicate_group(hashes@, (#[trigger] groups@[g])@),
            forall|g: int|
                0 <= g < groups@.len() ==> is_first(hashes@, (#[trigger] groups@[g])@[0] as int),
            forall|g: int| 0 <= g < groups@.len() ==> (#[trigger] groups@[g])@[0] < i,
            forall|g: int, h: int|
                0 <= g < h < groups@.len() ==> (#[trigger] groups@[g])@[0] < (
                #[trigger] groups@[h])@[0],
            forall|f: int, other: int|
                0 <= f < i && is_first(hashes@, f) && 0 <= other < hashes@.len() && other != f
                    && #[trigger] same_hash(hashes@, other, f) ==> exists|g: int|
                    0 <= g < groups@.len() && (#[trigger] groups@[g])@[0] == f,
        decreases hashes@.len() - i,
    {
        let ghost before = groups@;
        if !seen_before(hashes, i) {
            let group = collect_same(hashes, i);
            if group.len() >= 2 {
                proof {
                    // Nothing before `i` has its hash, so the group is complete.
                    assert forall|k: int|
                        0 <= k < hashes@.len() && #[trigger] same_hash(
                            hashes@,
                            k,
                            group@[0] as int,
                        ) implies group@.contains(k as usize) by {}
                }
                groups.push(group);
                proof {
                    assert forall|g: int| 0 <= g < groups@.len() implies is_duplicate_group(
                        hashes@,
                        (#[trigger] groups@[g])@,
                    ) && is_first(hashes@, groups@[g]@[0] as int) && groups@[g]@[0] < i + 1 by {}
                    assert forall|g: int, h: int| 0 <= g < h < groups@.len() implies (
                    #[trigger] groups@[g])@[0] < (#[trigger] groups@[h])@[0] by {}
                }
            } else {
                proof {
                    // The group holds `i` alone, so no other entry has its hash.
                    assert forall|other: int|
                        0 <= other < hashes@.len() && other != i && #[trigger] same_hash(
                            hashes@,
                            other,
                            i as int,
                        ) implies false by {
                        if other > i {
                            let a = choose|a: int|
                                0 <= a < group@.len() && group@[a] == other as usize;
                            assert(a == 0);
                        }
                    }
                }
            }
        }
        proof {
            assert forall|f: int, other: int|
                0 <= f < i + 1 && is_first(hashes@, f) && 0 <= other < hashes@.len() && other != f
                    && #[trigger] same_hash(hashes@, other, f) implies exists|g: int|
                0 <= g < groups@.len() && (#[trigger] groups@[g])@[0] == f by {
                if f < i {
                    let g = choose|g: int| 0 <= g < before.len() && (#[trigger] before[g])@[0] == f;
                    assert(groups@[g] == before[g]);
                } else {
                    assert(groups@[before.len() as int]@[0] == f);
                }
            }
        }
        i += 1;
    }
    proof {
        assert forall|a: int, b: int|
            0 <= a < hashes@.len() && 0 <= b < hashes@.len() && a != b && #[trigger] same_hash(
                hashes@,
                a,
                b,
            ) implies is_reported(groups@, a) by {
            let f = lemma_first_with_hash(hashes@, a);
            let other = if f == a {
                b
            } else {
                a
            };
            assert(same_hash(hashes@, other, f));
            let g = choose|g: int| 0 <= g < groups@.len() && (#[trigger] groups@[g])@[0] == f;
        }
    }
    groups
}

/// Every hash has a first entry.
pub proof fn lemma_first_with_hash(hashes: Seq<String>, i: int) -> (f: int)
    requires
        0 <= i < hashes.len(),
    ensures
        0 <= f <= i,
        same_hash(hashes, i, f),
        same_hash(hashes, f, i),
        is_first(hashes, f),
    decreases i,
{
    if is_first(hashes, i) {
        i
    } else {
        let j = choose|j: int| 0 <= j < i && same_hash(hashes, j, i);
        lemma_first_with_hash(hashes, j)
    }
}

} // verus!
