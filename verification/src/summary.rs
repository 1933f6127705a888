//! Figures for the summary of a set of media files.

use crate::distinct::{
    first_occurrences, lemma_first_occurrences, lemma_first_occurrences_step,
};
use crate::naming::{zero_padded, zero_padded_string};
use vstd::prelude::*;

verus! {

/// The sum of a list of durations.
pub open spec fn total_of(durations: Seq<u64>) -> nat
    decreases durations.len(),
{
    if durations.len() == 0 {
        0
    } else {
        total_of(durations.drop_last()) + durations.last() as nat
    }
}

/// Adds up durations. There is no result where the sum does not fit in 64
/// bits.
pub fn total_duration(durations: &Vec<u64>) -> (r: Option<u64>)
    ensures
        r is Some <==> total_of(durations@) <= u64::MAX,
        r matches Some(total) ==> total == total_of(durations@),
{
    let mut total: u64 = 0;
    let mut i: usize = 0;
    while i < durations.len()
        invariant
            i <= durations@.len(),
            total == total_of(durations@.subrange(0, i as int)),
        decreases durations@.len() - i,
    {
        proof {
            assert(durations@.subrange(0, i + 1).drop_last() =~= durations@.subrange(0, i as int));
            lemma_total_of_prefix(durations@, i + 1);
        }
        match total.checked_add(durations[i]) {
            Some(next) => {
                total = next;
            },
            None => {
                return None;
            },
        }
        i += 1;
    }
    assert(durations@.subrange(0, i as int) =~= durations@);
    Some(total)
}

/// The sum over a prefix is no more than the sum over the whole list.
pub proof fn lemma_total_of_prefix(durations: Seq<u64>, k: int)
    requires
        0 <= k <= durations.len(),
    ensures
        total_of(durations.subrange(0, k)) <= total_of(durations),
    decreases durations.len() - k,
{
    if k < durations.len() {
        assert(durations.subrange(0, k + 1).drop_last() =~= durations.subrange(0, k));
        lemma_total_of_prefix(durations, k + 1);
    } else {
        assert(durations.subrange(0, k) =~= durations);
    }
}

/// A duration in hours, minutes and seconds.
#[derive(Debug, Clone, Copy, PartialEq, Eq, Structural)]
pub struct Clock {
    pub hours: u64,
    pub minutes: u64,
    pub seconds: u64,
}

/// Splits a number of seconds into hours, minutes below 60 and seconds
/// below 60.
pub fn split_clock(total_seconds: u64) -> (c: Clock)
    ensures
        c.hours * 3600 + c.minutes * 60 + c.seconds == total_seconds,
        c.minutes < 60,
        c.seconds < 60,
{
    let hours = total_seconds / 3600;
    let remainder = total_seconds % 3600;
    Clock { hours, minutes: remainder / 60, seconds: remainder % 60 }
}

/// A duration as `hh:mm:ss`, each part with at least two digits.
pub open spec fn clock_text(c: Clock) -> Seq<char> {
    zero_padded(c.hours as nat, 2) + seq![':'] + zero_padded(c.minutes as nat, 2) + seq![':']
        + zero_padded(c.seconds as nat, 2)
}

/// Writes a duration as `hh:mm:ss`.
pub fn format_clock(c: Clock) -> (text: String)
    ensures
        text@ == clock_text(c),
{
    proof {
        reveal_strlit(":");
    }
    let mut text = String::new();
    text.append(zero_padded_string(c.hours, 2).as_str());
    text.append(":");
    text.append(zero_padded_string(c.minutes, 2).as_str());
    text.append(":");
    text.append(zero_padded_string(c.seconds, 2).as_str());
    text
}

/// The whole seconds that a file lasts on average. There is no average of
/// no files.
pub fn average_duration(total_seconds: u64, n_files: usize) -> (r: Option<u64>)
    ensures
        n_files == 0 <==> r is None,
        r matches Some(average) ==> average == total_seconds as nat / n_files as nat,
{
    if n_files == 0 {
        None
    } else {
        Some(total_seconds / (n_files as u64))
    }
}

/// The least and the greatest of a list of values, where there are any.
pub fn min_max(values: &Vec<u64>) -> (r: Option<(u64, u64)>)
    ensures
        values@.len() == 0 <==> r is None,
        r matches Some((least, greatest)) ==> {
            &&& values@.contains(least)
            &&& values@.contains(greatest)
            &&& forall|i: int| 0 <= i < values@.len() ==> least <= #[trigger] values@[i] <= greatest
        },
{
    if values.len() == 0 {
        return None;
    }
    let mut least = values[0];
    let mut greatest = values[0];
    let mut i: usize = 1;
    while i < values.len()
        invariant
            1 <= i <= values@.len(),
            values@.contains(least),
            values@.contains(greatest),
            forall|j: int| 0 <= j < i ==> least <= #[trigger] values@[j] <= greatest,
        decreases values@.len() - i,
    {
        if values[i] < least {
            least = values[i];
        }
        if values[i] > greatest {
            greatest = values[i];
        }
        i += 1;
    }
    Some((least, greatest))
}

/// The shortest and the longest of a list of durations in nanoseconds,
/// where there are any.
pub fn duration_bounds(durations: &Vec<u128>) -> (r: Option<(u128, u128)>)
    ensures
        durations@.len() == 0 <==> r is None,
        r matches Some((shortest, longest)) ==> {
            &&& durations@.contains(shortest)
            &&& durations@.contains(longest)
            &&& forall|i: int|
                0 <= i < durations@.len() ==> shortest <= #[trigger] durations@[i] <= longest
        },
{
    if durations.len() == 0 {
        return None;
    }
    let mut shortest = durations[0];
    let mut longest = durations[0];
    let mut i: usize = 1;
    while i < durations.len()
        invariant
            1 <= i <= durations@.len(),
            durations@.contains(shortest),
            durations@.contains(longest),
            forall|j: int| 0 <= j < i ==> shortest <= #[trigger] durations@[j] <= longest,
        decreases durations@.len() - i,
    {
        if durations[i] < shortest {
            shortest = durations[i];
        }
        if durations[i] > longest {
            longest = durations[i];
        }
        i += 1;
    }
    Some((shortest, longest))
}

/// Whether the duration occurs in the list.
fn duration_occurs(durations: &Vec<u128>, duration: u128) -> (b: bool)
    ensures
        b == durations@.contains(duration),
{
    let mut i: usize = 0;
    while i < durations.len()
        invariant
            i <= durations@.len(),
            forall|j: int| 0 <= j < i ==> #[trigger] durations@[j] != duration,
        decreases durations@.len() - i,
    {
        if durations[i] == duration {
            return true;
        }
        i += 1;
    }
    false
}

/// The different durations of a list in nanoseconds, each once, in the
/// order in which they first occur.
pub fn distinct_durations(durations: &Vec<u128>) -> (unique: Vec<u128>)
    ensures
        unique@ == first_occurrences(durations@),
        unique@.no_duplicates(),
        forall|d: u128| unique@.contains(d) <==> durations@.contains(d),
{
    let mut unique: Vec<u128> = Vec::new();
    let mut i: usize = 0;
    while i < durations.len()
        invariant
            i <= durations@.len(),
            unique@ == first_occurrences(durations@.subrange(0, i as int)),
        decreases durations@.len() - i,
    {
        proof {
            lemma_first_occurrences(durations@.subrange(0, i as int));
            lemma_first_occurrences_step(durations@, i as int);
        }
        if !duration_occurs(&unique, durations[i]) {
            unique.push(durations[i]);
        }
        i += 1;
    }
    proof {
        assert(durations@.subrange(0, i as int) =~= durations@);
        lemma_first_occurrences(durations@);
    }
    unique
}

} // verus!
