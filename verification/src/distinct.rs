//! The different values of a list, each once.

use vstd::prelude::*;

verus! {

/// The values of a list without repetitions: each value stands where it
/// first occurs, and later occurrences are left out.
pub open spec fn first_occurrences<T>(values: Seq<T>) -> Seq<T>
    decreases values.len(),
{
    if values.len() == 0 {
        Seq::empty()
    } else if values.drop_last().contains(values.last()) {
        first_occurrences(values.drop_last())
    } else {
        first_occurrences(values.drop_last()).push(values.last())
    }
}

/// What is left holds no value twice and holds exactly the values of the
/// list.
pub proof fn lemma_first_occurrences<T>(values: Seq<T>)
    ensures
        first_occurrences(values).no_duplicates(),
        first_occurrences(values).len() <= values.len(),
        forall|v: T| first_occurrences(values).contains(v) <==> values.contains(v),
    decreases values.len(),
{
    if values.len() > 0 {
        let shorter = values.drop_last();
        let last = values.last();
        let kept = first_occurrences(shorter);
        lemma_first_occurrences(shorter);
        assert(values =~= shorter.push(last));
        assert forall|v: T| values.contains(v) <==> (shorter.contains(v) || v == last) by {
            vstd::seq_lib::lemma_seq_contains_after_push(shorter, last, v);
        }
        if !shorter.contains(last) {
            assert forall|v: T| kept.push(last).contains(v) <==> (kept.contains(v) || v
                == last) by {
                vstd::seq_lib::lemma_seq_contains_after_push(kept, last, v);
            }
        }
    }
}

/// Taking one more value of the list into account changes nothing where the
/// value has occurred before, and adds it at the end where it has not.
pub proof fn lemma_first_occurrences_step<T>(values: Seq<T>, k: int)
    requires
        0 <= k < values.len(),
    ensures
        first_occurrences(values.subrange(0, k + 1)) == if values.subrange(0, k).contains(
            values[k],
        ) {
            first_occurrences(values.subrange(0, k))
        } else {
            first_occurrences(values.subrange(0, k)).push(values[k])
        },
{
    assert(values.subrange(0, k + 1).drop_last() =~= values.subrange(0, k));
}

/// Whether `value` occurs in the list.
fn occurs(values: &Vec<u64>, value: u64) -> (b: bool)
    ensures
        b == values@.contains(value),
{
    let mut i: usize = 0;
    while i < values.len()
        invariant
            i <= values@.len(),
            forall|j: int| 0 <= j < i ==> #[trigger] values@[j] != value,
        decreases values@.len() - i,
    {
        if values[i] == value {
            return true;
        }
        i += 1;
    }
    false
}

/// The different values of a list, each once, in the order in which they
/// first occur.
pub fn distinct(values: &Vec<u64>) -> (unique: Vec<u64>)
    ensures
        unique@ == first_occurrences(values@),
        unique@.no_duplicates(),
        forall|v: u64| unique@.contains(v) <==> values@.contains(v),
{
    let mut unique: Vec<u64> = Vec::new();
    let mut i: usize = 0;
    while i < values.len()
        invariant
            i <= values@.len(),
            unique@ == first_occurrences(values@.subrange(0, i as int)),
        decreases values@.len() - i,
    {
        proof {
            lemma_first_occurrences(values@.subrange(0, i as int));
            lemma_first_occurrences_step(values@, i as int);
        }
        if !occurs(&unique, values[i]) {
            unique.push(values[i]);
        }
        i += 1;
    }
    proof {
        assert(values@.subrange(0, i as int) =~= values@);
        lemma_first_occurrences(values@);
    }
    unique
}

/// Whether the pair occurs in the list.
fn pair_occurs(pairs: &Vec<(u32, u32)>, pair: (u32, u32)) -> (b: bool)
    ensures
        b == pairs@.contains(pair),
{
    let mut i: usize = 0;
    while i < pairs.len()
        invariant
            i <= pairs@.len(),
            forall|j: int| 0 <= j < i ==> #[trigger] pairs@[j] != pair,
        decreases pairs@.len() - i,
    {
        if pairs[i].0 == pair.0 && pairs[i].1 == pair.1 {
            return true;
        }
        i += 1;
    }
    false
}

/// The different pairs of a list, such as the heights and widths of a set
/// of images, each once, in the order in which they first occur.
pub fn distinct_pairs(pairs: &Vec<(u32, u32)>) -> (unique: Vec<(u32, u32)>)
    ensures
        unique@ == first_occurrences(pairs@),
        unique@.no_duplicates(),
        forall|p: (u32, u32)| unique@.contains(p) <==> pairs@.contains(p),
{
    let mut unique: Vec<(u32, u32)> = Vec::new();
    let mut i: usize = 0;
    while i < pairs.len()
        invariant
            i <= pairs@.len(),
            unique@ == first_occurrences(pairs@.subrange(0, i as int)),
        decreases pairs@.len() - i,
    {
        proof {
            lemma_first_occurrences(pairs@.subrange(0, i as int));
            lemma_first_occurrences_step(pairs@, i as int);
        }
        if !pair_occurs(&unique, pairs[i]) {
            unique.push(pairs[i]);
        }
        i += 1;
    }
    proof {
        assert(pairs@.subrange(0, i as int) =~= pairs@);
        lemma_first_occurrences(pairs@);
    }
    unique
}

} // verus!
