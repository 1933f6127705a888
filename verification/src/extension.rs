//! Which files a command takes, judged by their extension.

use crate::error::RushError;
use vstd::prelude::*;
use vstd::string::StringSliceAdditionalSpecFns;

verus! {

/// A byte with an ASCII capital letter turned into its small letter.
pub open spec fn fold_ascii(b: u8) -> u8 {
    if 0x41 <= b <= 0x5a {
        (b + 0x20) as u8
    } else {
        b
    }
}

/// The two byte strings are equal but for the case of ASCII letters.
pub open spec fn same_ignoring_ascii_case(a: Seq<u8>, b: Seq<u8>) -> bool {
    &&& a.len() == b.len()
    &&& forall|i: int| 0 <= i < a.len() ==> fold_ascii(#[trigger] a[i]) == fold_ascii(b[i])
}

/// The extension is one of the admissible ones, whatever the case of its
/// ASCII letters.
pub open spec fn is_admissible(extension: &str, extensions: Seq<&str>) -> bool {
    exists|k: int|
        0 <= k < extensions.len() && same_ignoring_ascii_case(
            extension.spec_bytes(),
            (#[trigger] extensions[k]).spec_bytes(),
        )
}

/// Turns an ASCII capital letter into its small letter.
fn fold_byte(b: u8) -> (f: u8)
    ensures
        f == fold_ascii(b),
{
    if 0x41 <= b && b <= 0x5a {
        b + 0x20
    } else {
        b
    }
}

/// Compares two strings without regard to the case of ASCII letters.
pub fn eq_ignore_ascii_case(a: &str, b: &str) -> (same: bool)
    ensures
        same == same_ignoring_ascii_case(a.spec_bytes(), b.spec_bytes()),
{
    let x = a.as_bytes();
    let y = b.as_bytes();
    if x.len() != y.len() {
        return false;
    }
    let mut i: usize = 0;
    while i < x.len()
        invariant
            i <= x@.len(),
            x@.len() == y@.len(),
            x@ == a.spec_bytes(),
            y@ == b.spec_bytes(),
            forall|j: int| 0 <= j < i ==> fold_ascii(#[trigger] x@[j]) == fold_ascii(y@[j]),
        decreases x@.len() - i,
    {
        if fold_byte(x[i]) != fold_byte(y[i]) {
            return false;
        }
        i += 1;
    }
    true
}

/// Accepts a file whose extension is among `extensions`, whatever the case
/// of its ASCII letters. A file without extension is not accepted.
pub fn file_has_right_extension(extension: Option<&str>, extensions: &[&str]) -> (r: Result<
    (),
    RushError,
>)
    ensures
        r is Ok <==> (extension matches Some(e) && is_admissible(e, extensions@)),
        r is Err ==> r == Err::<(), RushError>(RushError::UnsupportedFormat),
{
    match extension {
        Some(e) => {
            let mut k: usize = 0;
            while k < extensions.len()
                invariant
                    extension == Some(e),
                    k <= extensions@.len(),
                    forall|j: int|
                        0 <= j < k ==> !same_ignoring_ascii_case(
                            e.spec_bytes(),
                            (#[trigger] extensions@[j]).spec_bytes(),
                        ),
                decreases extensions@.len() - k,
            {
                if eq_ignore_ascii_case(e, extensions[k]) {
                    return Ok(());
                }
                k += 1;
            }
            Err(RushError::UnsupportedFormat)
        },
        None => Err(RushError::UnsupportedFormat),
    }
}

} // verus!
