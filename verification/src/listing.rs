//! Counting what a directory listing holds: files, directories, and the
//! extensions of the files.

use crate::distinct::{first_occurrences, lemma_first_occurrences, lemma_first_occurrences_step};
use vstd::prelude::*;

verus! {

/// What the caller found out about one entry of a directory walk.
#[derive(Debug, Clone, Copy, PartialEq, Eq, Structural)]
pub struct EntryFacts {
    /// The entry is a file.
    pub is_file: bool,
    /// The entry is a directory.
    pub is_dir: bool,
    /// How far below the target the entry lies; the target itself is at 0.
    pub depth: usize,
}

impl EntryFacts {
    /// The entry counts as a directory of the target: it is one, and it
    /// lies directly below the target.
    pub open spec fn is_sub_directory(self) -> bool {
        !self.is_file && self.is_dir && self.depth == 1
    }
}

/// How many of the entries are files.
pub open spec fn files_among(entries: Seq<EntryFacts>) -> nat
    decreases entries.len(),
{
    if entries.len() == 0 {
        0
    } else {
        files_among(entries.drop_last()) + if entries.last().is_file {
            1nat
        } else {
            0nat
        }
    }
}

/// How many of the entries are directories directly below the target.
pub open spec fn sub_directories_among(entries: Seq<EntryFacts>) -> nat
    decreases entries.len(),
{
    if entries.len() == 0 {
        0
    } else {
        sub_directories_among(entries.drop_last()) + if entries.last().is_sub_directory() {
            1nat
        } else {
            0nat
        }
    }
}

/// Neither count is more than the number of entries.
pub proof fn lemma_counts_bounded(entries: Seq<EntryFacts>)
    ensures
        files_among(entries) + sub_directories_among(entries) <= entries.len(),
    decreases entries.len(),
{
    if entries.len() > 0 {
        lemma_counts_bounded(entries.drop_last());
    }
}

/// Counts the files and the directories directly below the target among
/// the entries of a walk. An entry that is a file counts as a file wherever
/// it lies.
pub fn count_entries(entries: &Vec<EntryFacts>) -> (counts: (usize, usize))
    ensures
        counts.0 == files_among(entries@),
        counts.1 == sub_directories_among(entries@),
{
    let mut files: usize = 0;
    let mut directories: usize = 0;
    let mut i: usize = 0;
    while i < entries.len()
        invariant
            i <= entries@.len(),
            files == files_among(entries@.subrange(0, i as int)),
            directories == sub_directories_among(entries@.subrange(0, i as int)),
        decreases entries@.len() - i,
    {
        proof {
            lemma_counts_bounded(entries@.subrange(0, i as int));
            assert(entries@.subrange(0, i + 1).drop_last() =~= entries@.subrange(0, i as int));
        }
        if entries[i].is_file {
            files += 1;
        } else if entries[i].is_dir && entries[i].depth == 1 {
            directories += 1;
        }
        i += 1;
    }
    assert(entries@.subrange(0, i as int) =~= entries@);
    (files, directories)
}

/// How often `text` occurs among `items`.
pub open spec fn occurrences(items: Seq<String>, text: Seq<char>) -> nat
    decreases items.len(),
{
    if items.len() == 0 {
        0
    } else {
        occurrences(items.drop_last(), text) + if items.last()@ == text {
            1nat
        } else {
            0nat
        }
    }
}

/// Nothing occurs more often than there are items, and what stands in the
/// list occurs at least once.
pub proof fn lemma_occurrences(items: Seq<String>, text: Seq<char>)
    ensures
        occurrences(items, text) <= items.len(),
        (exists|k: int| 0 <= k < items.len() && (#[trigger] items[k])@ == text) <==> occurrences(
            items,
            text,
        ) >= 1,
    decreases items.len(),
{
    if items.len() > 0 {
        let shorter = items.drop_last();
        lemma_occurrences(shorter, text);
        if occurrences(items, text) >= 1 {
            if items.last()@ != text {
                let k = choose|k: int| 0 <= k < shorter.len() && (#[trigger] shorter[k])@ == text;
                assert(items[k]@ == text);
            }
        }
        if exists|k: int| 0 <= k < items.len() && (#[trigger] items[k])@ == text {
            let k = choose|k: int| 0 <= k < items.len() && (#[trigger] items[k])@ == text;
            if k < shorter.len() {
                assert(shorter[k]@ == text);
            }
        }
    }
}

/// The texts of a list of strings.
pub open spec fn texts(items: Seq<String>) -> Seq<Seq<char>> {
    Seq::new(items.len(), |i: int| items[i]@)
}

/// The different extensions of a list, in the order in which they first
/// occur.
pub open spec fn extensions_found(items: Seq<String>) -> Seq<Seq<char>> {
    first_occurrences(texts(items))
}

/// How often the text of item `at` occurs in the list.
fn count_of(items: &Vec<String>, at: usize) -> (count: usize)
    requires
        at < items@.len(),
    ensures
        count == occurrences(items@, items@[at as int]@),
        count >= 1,
{
    let mut count: usize = 0;
    let mut k: usize = 0;
    while k < items.len()
        invariant
            at < items@.len(),
            k <= items@.len(),
            count == occurrences(items@.subrange(0, k as int), items@[at as int]@),
        decreases items@.len() - k,
    {
        proof {
            lemma_occurrences(items@.subrange(0, k as int), items@[at as int]@);
            assert(items@.subrange(0, k + 1).drop_last() =~= items@.subrange(0, k as int));
        }
        if items[k] == items[at] {
            count += 1;
        }
        k += 1;
    }
    proof {
        assert(items@.subrange(0, k as int) =~= items@);
        lemma_occurrences(items@, items@[at as int]@);
    }
    count
}

/// Whether the text of item `at` stands earlier in the list.
fn stands_earlier(items: &Vec<String>, at: usize) -> (b: bool)
    requires
        at < items@.len(),
    ensures
        b == exists|j: int| 0 <= j < at && (#[trigger] items@[j])@ == items@[at as int]@,
{
    let mut j: usize = 0;
    while j < at
        invariant
            j <= at < items@.len(),
            forall|k: int| 0 <= k < j ==> (#[trigger] items@[k])@ != items@[at as int]@,
        decreases at - j,
    {
        if items[j] == items[at] {
            return true;
        }
        j += 1;
    }
    false
}

/// Counts how often each extension occurs. Every extension of the list
/// comes once, in the order of first occurrence, with the number of its
/// occurrences.
pub fn count_extensions(extensions: &Vec<String>) -> (counts: Vec<(String, usize)>)
    ensures
        counts@.len() == extensions_found(extensions@).len(),
        forall|g: int|
            0 <= g < counts@.len() ==> (#[trigger] counts@[g]).0@ == extensions_found(
                extensions@,
            )[g],
        forall|g: int|
            0 <= g < counts@.len() ==> (#[trigger] counts@[g]).1 == occurrences(
                extensions@,
                counts@[g].0@,
            ) && counts@[g].1 >= 1,
{
    let mut counts: Vec<(String, usize)> = Vec::new();
    let mut i: usize = 0;
    while i < extensions.len()
        invariant
            i <= extensions@.len(),
            counts@.len() == first_occurrences(texts(extensions@).subrange(0, i as int)).len(),
            forall|g: int|
                0 <= g < counts@.len() ==> (#[trigger] counts@[g]).0@ == first_occurrences(
                    texts(extensions@).subrange(0, i as int),
                )[g],
            forall|g: int|
                0 <= g < counts@.len() ==> (#[trigger] counts@[g]).1 == occurrences(
                    extensions@,
                    counts@[g].0@,
                ) && counts@[g].1 >= 1,
        decreases extensions@.len() - i,
    {
        let ghost prefix = texts(extensions@).subrange(0, i as int);
        let earlier = stands_earlier(extensions, i);
        proof {
            lemma_first_occurrences_step(texts(extensions@), i as int);
            if earlier {
                let j = choose|j: int|
                    0 <= j < i && (#[trigger] extensions@[j])@ == extensions@[i as int]@;
                assert(prefix[j] == texts(extensions@)[i as int]);
            } else {
                assert forall|j: int| 0 <= j < prefix.len() implies prefix[j] != texts(
                    extensions@,
                )[i as int] by {}
            }
        }
        if !earlier {
            let count = count_of(extensions, i);
            let text = extensions[i].clone();
            counts.push((text, count));
            proof {
                assert forall|g: int| 0 <= g < counts@.len() implies (#[trigger] counts@[g]).0@
                    == first_occurrences(prefix).push(texts(extensions@)[i as int])[g]
                    && counts@[g].1 == occurrences(extensions@, counts@[g].0@) && counts@[g].1
                    >= 1 by {}
            }
        }
        i += 1;
    }
    proof {
        assert(texts(extensions@).subrange(0, i as int) =~= texts(extensions@));
    }
    counts
}

/// The extensions counted differ from one another, and every extension of
/// the list is among them.
pub proof fn lemma_extensions_found(items: Seq<String>)
    ensures
        extensions_found(items).no_duplicates(),
        forall|i: int|
            0 <= i < items.len() ==> extensions_found(items).contains((#[trigger] items[i])@),
        forall|g: int|
            0 <= g < extensions_found(items).len() ==> occurrences(
                items,
                #[trigger] extensions_found(items)[g],
            ) >= 1,
{
    lemma_first_occurrences(texts(items));
    assert forall|i: int| 0 <= i < items.len() implies extensions_found(items).contains(
        (#[trigger] items[i])@,
    ) by {
        assert(texts(items)[i] == items[i]@);
        assert(texts(items).contains(items[i]@));
    }
    assert forall|g: int| 0 <= g < extensions_found(items).len() implies occurrences(
        items,
        #[trigger] extensions_found(items)[g],
    ) >= 1 by {
        let text = extensions_found(items)[g];
        assert(texts(items).contains(text));
        let k = choose|k: int| 0 <= k < texts(items).len() && texts(items)[k] == text;
        lemma_occurrences(items, text);
    }
}

} // verus!
