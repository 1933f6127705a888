//! The names under which tiles and chunks are written out.

use crate::tiles::Tile;
use vstd::prelude::*;

verus! {

/// The character for a decimal digit.
pub open spec fn digit_char(d: nat) -> char {
    if d == 0 {
        '0'
    } else if d == 1 {
        '1'
    } else if d == 2 {
        '2'
    } else if d == 3 {
        '3'
    } else if d == 4 {
        '4'
    } else if d == 5 {
        '5'
    } else if d == 6 {
        '6'
    } else if d == 7 {
        '7'
    } else if d == 8 {
        '8'
    } else {
        '9'
    }
}

/// `n` written in decimal, without leading zeros.
pub open spec fn decimal(n: nat) -> Seq<char>
    decreases n,
{
    if n < 10 {
        seq![digit_char(n)]
    } else {
        decimal(n / 10).push(digit_char(n % 10))
    }
}

/// How many digits `n` has in decimal.
pub open spec fn digit_count(n: nat) -> nat
    decreases n,
{
    if n < 10 {
        1
    } else {
        1 + digit_count(n / 10)
    }
}

/// `n` in decimal, with zeros in front until it is `width` characters long.
/// A number with more digits than `width` is written in full.
pub open spec fn zero_padded(n: nat, width: nat) -> Seq<char> {
    let missing = if width > digit_count(n) {
        (width - digit_count(n)) as nat
    } else {
        0
    };
    Seq::new(missing, |i: int| '0') + decimal(n)
}

/// The width to which chunk indices are padded: the number of digits of the
/// last index, and one where there is no chunk at all.
pub open spec fn padding_width(num_chunks: nat) -> nat {
    if num_chunks == 0 {
        1
    } else {
        digit_count((num_chunks - 1) as nat)
    }
}

/// The file name of chunk `index` out of `num_chunks`:
/// the stem, `@`, the zero-padded index, `.wav`.
pub open spec fn chunk_name(stem: Seq<char>, index: nat, num_chunks: nat) -> Seq<char> {
    stem + seq!['@'] + zero_padded(index, padding_width(num_chunks)) + seq!['.', 'w', 'a', 'v']
}

/// The file name of tile `index`: the stem, `_id` and the index, `_w` and the
/// columns the tile spans, `_h` and the rows it spans, a dot and the
/// extension.
pub open spec fn tile_name(stem: Seq<char>, index: nat, tile: Tile, ext: Seq<char>) -> Seq<char> {
    stem + seq!['_', 'i', 'd'] + decimal(index) + seq!['_', 'w'] + decimal(
        tile.horizontal.start as nat,
    ) + seq!['-'] + decimal(tile.horizontal.end as nat) + seq!['_', 'h'] + decimal(
        tile.vertical.start as nat,
    ) + seq!['-'] + decimal(tile.vertical.end as nat) + seq!['.'] + ext
}

/// A number has as many digits as its decimal form has characters: at least
/// one, and no more than twenty where it fits in 64 bits.
pub proof fn lemma_digit_count(n: nat)
    ensures
        decimal(n).len() == digit_count(n),
        digit_count(n) >= 1,
        n <= u64::MAX ==> digit_count(n) <= 20,
    decreases n,
{
    if n >= 10 {
        lemma_digit_count(n / 10);
    }
    if n <= u64::MAX {
        reveal_with_fuel(digit_count, 21);
    }
}

/// The digits held in `rev`, least significant first, read from the most
/// significant down.
spec fn digits_from_reversed(rev: Seq<u64>) -> Seq<char> {
    Seq::new(rev.len(), |i: int| digit_char(rev[rev.len() - 1 - i] as nat))
}

/// The one-character string of a digit.
fn digit_str(d: u64) -> (s: &'static str)
    requires
        d < 10,
    ensures
        s@ == seq![digit_char(d as nat)],
{
    proof {
        reveal_strlit("0");
        reveal_strlit("1");
        reveal_strlit("2");
        reveal_strlit("3");
        reveal_strlit("4");
        reveal_strlit("5");
        reveal_strlit("6");
        reveal_strlit("7");
        reveal_strlit("8");
        reveal_strlit("9");
    }
    let s = if d == 0 {
        "0"
    } else if d == 1 {
        "1"
    } else if d == 2 {
        "2"
    } else if d == 3 {
        "3"
    } else if d == 4 {
        "4"
    } else if d == 5 {
        "5"
    } else if d == 6 {
        "6"
    } else if d == 7 {
        "7"
    } else if d == 8 {
        "8"
    } else {
        "9"
    };
    s
}

/// Writes `n` in decimal.
pub fn decimal_string(n: u64) -> (s: String)
    ensures
        s@ == decimal(n as nat),
{
    let mut rev: Vec<u64> = Vec::new();
    let mut m: u64 = n / 10;
    rev.push(n % 10);
    while m > 0
        invariant
            rev@.len() >= 1,
            forall|k: int| 0 <= k < rev@.len() ==> #[trigger] rev@[k] < 10,
            decimal(n as nat) == (if m > 0 {
                decimal(m as nat)
            } else {
                Seq::<char>::empty()
            }) + digits_from_reversed(rev@),
        decreases m,
    {
        rev.push(m % 10);
        m = m / 10;
    }
    let mut s = String::new();
    let mut left: usize = rev.len();
    while left > 0
        invariant
            left <= rev@.len(),
            forall|k: int| 0 <= k < rev@.len() ==> #[trigger] rev@[k] < 10,
            s@ == digits_from_reversed(rev@).subrange(0, rev@.len() - left),
        decreases left,
    {
        left -= 1;
        s.append(digit_str(rev[left]));
    }
    s
}

/// Counts the decimal digits of `n`.
pub fn count_digits(n: u64) -> (c: usize)
    ensures
        c == digit_count(n as nat),
        c >= 1,
{
    let mut c: usize = 1;
    let mut m: u64 = n;
    proof {
        lemma_digit_count(n as nat);
    }
    while m >= 10
        invariant
            c >= 1,
            c - 1 + digit_count(m as nat) == digit_count(n as nat),
            digit_count(n as nat) <= 20,
        decreases m,
    {
        proof {
            lemma_digit_count((m / 10) as nat);
        }
        m = m / 10;
        c += 1;
    }
    c
}

/// Writes `n` in decimal, with zeros in front until it is `width` characters
/// long.
pub fn zero_padded_string(n: u64, width: usize) -> (s: String)
    ensures
        s@ == zero_padded(n as nat, width as nat),
{
    let digits = count_digits(n);
    let mut s = String::new();
    let mut k: usize = digits;
    while k < width
        invariant
            digits <= k,
            k <= width || k == digits,
            s@ == Seq::new((k - digits) as nat, |i: int| '0'),
        decreases width - k,
    {
        proof {
            reveal_strlit("0");
        }
        s.append("0");
        k += 1;
    }
    let number = decimal_string(n);
    s.append(number.as_str());
    s
}

/// The width to which the indices of `num_chunks` chunks are padded.
pub fn chunk_padding_width(num_chunks: usize) -> (w: usize)
    ensures
        w == padding_width(num_chunks as nat),
        w >= 1,
{
    if num_chunks == 0 {
        1
    } else {
        count_digits((num_chunks - 1) as u64)
    }
}

/// Names chunk `index` out of `num_chunks` cut from the file with this stem.
pub fn chunk_file_name(stem: &str, index: usize, num_chunks: usize) -> (name: String)
    ensures
        name@ == chunk_name(stem@, index as nat, num_chunks as nat),
{
    let width = chunk_padding_width(num_chunks);
    let padded = zero_padded_string(index as u64, width);
    proof {
        reveal_strlit("@");
        reveal_strlit(".wav");
    }
    let mut name = String::new();
    name.append(stem);
    name.append("@");
    name.append(padded.as_str());
    name.append(".wav");
    name
}

/// Names tile `index` cut from the file with this stem and extension. The
/// name carries the pixel bounds of the tile on both axes.
pub fn tile_file_name(stem: &str, index: usize, tile: &Tile, ext: &str) -> (name: String)
    ensures
        name@ == tile_name(stem@, index as nat, *tile, ext@),
{
    proof {
        reveal_strlit("_id");
        reveal_strlit("_w");
        reveal_strlit("_h");
        reveal_strlit("-");
        reveal_strlit(".");
    }
    let mut name = String::new();
    name.append(stem);
    name.append("_id");
    name.append(decimal_string(index as u64).as_str());
    name.append("_w");
    name.append(decimal_string(tile.horizontal.start as u64).as_str());
    name.append("-");
    name.append(decimal_string(tile.horizontal.end as u64).as_str());
    name.append("_h");
    name.append(decimal_string(tile.vertical.start as u64).as_str());
    name.append("-");
    name.append(decimal_string(tile.vertical.end as u64).as_str());
    name.append(".");
    name.append(ext);
    name
}

/// Names all chunks cut from one file, in order.
pub fn chunk_file_names(stem: &str, num_chunks: usize) -> (names: Vec<String>)
    ensures
        names@.len() == num_chunks,
        forall|k: int|
            0 <= k < num_chunks ==> (#[trigger] names@[k])@ == chunk_name(
                stem@,
                k as nat,
                num_chunks as nat,
            ),
{
    let mut names: Vec<String> = Vec::new();
    let mut k: usize = 0;
    while k < num_chunks
        invariant
            k <= num_chunks,
            names@.len() == k,
            forall|j: int|
                0 <= j < k ==> (#[trigger] names@[j])@ == chunk_name(
                    stem@,
                    j as nat,
                    num_chunks as nat,
                ),
        decreases num_chunks - k,
    {
        names.push(chunk_file_name(stem, k, num_chunks));
        k += 1;
    }
    names
}

/// Names all tiles cut from one file, in the order of the grid: the index
/// in the name is the position of the tile in `tiles`.
pub fn tile_file_names(stem: &str, tiles: &Vec<Tile>, ext: &str) -> (names: Vec<String>)
    ensures
        names@.len() == tiles@.len(),
        forall|k: int|
            0 <= k < tiles@.len() ==> (#[trigger] names@[k])@ == tile_name(
                stem@,
                k as nat,
                tiles@[k],
                ext@,
            ),
{
    let mut names: Vec<String> = Vec::new();
    let mut k: usize = 0;
    while k < tiles.len()
        invariant
            k <= tiles@.len(),
            names@.len() == k,
            forall|j: int|
                0 <= j < k ==> (#[trigger] names@[j])@ == tile_name(
                    stem@,
                    j as nat,
                    tiles@[j],
                    ext@,
                ),
        decreases tiles@.len() - k,
    {
        names.push(tile_file_name(stem, k, &tiles[k], ext));
        k += 1;
    }
    names
}

} // verus!
