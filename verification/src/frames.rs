//! Frame sequences on their way into a video: how the frames are named, and
//! whether the files found already follow that naming.

use crate::error::RushError;
use crate::naming::{decimal, decimal_string, zero_padded, zero_padded_string};
use vstd::prelude::*;

verus! {

/// `regex::Regex`: a compiled regular expression.
#[verifier::external_type_specification]
#[verifier::external_body]
pub struct ExRegex(regex::Regex);

/// `regex::Error`: why a pattern did not compile.
#[verifier::external_type_specification]
#[verifier::external_body]
pub struct ExRegexError(regex::Error);

/// Whether a compiled regular expression matches somewhere in `haystack`.
pub uninterp spec fn regex_accepts(re: regex::Regex, haystack: Seq<char>) -> bool;

/// Whether the regular expression written as `pattern`, compiled with the
/// options that `Regex::new` uses, matches somewhere in `haystack`.
pub uninterp spec fn pattern_matches(pattern: Seq<char>, haystack: Seq<char>) -> bool;

/// Whether `Regex::new` compiles the pattern on a machine whose words have
/// `word_bits` bits. The engine turns down a pattern with a syntax error,
/// and one whose compiled form is larger than a fixed limit in bytes; how
/// many bytes a compiled form takes depends on the word size, which is why
/// it is an argument here.
pub uninterp spec fn pattern_compiles(pattern: Seq<char>, word_bits: nat) -> bool;

/// `Regex::new`: compiles a pattern. Whether that succeeds is a matter of
/// the pattern and of the word size of the machine. Where it succeeds, the
/// result matches what the pattern matches.
pub assume_specification[ regex::Regex::new ](re: &str) -> (r: Result<regex::Regex, regex::Error>)
    ensures
        r is Ok <==> pattern_compiles(re@, usize::BITS as nat),
        r matches Ok(compiled) ==> forall|haystack: Seq<char>|
            #[trigger] regex_accepts(compiled, haystack) == pattern_matches(re@, haystack),
;

/// `Regex::is_match`: whether the expression matches anywhere in the
/// haystack.
pub assume_specification[ regex::Regex::is_match ](re: &regex::Regex, haystack: &str) -> (b: bool)
    ensures
        b == regex_accepts(*re, haystack@),
;

/// The name of frame `index` in a sequence ready for encoding: `frame`, the
/// index, `.png`.
pub open spec fn frame_name(index: nat) -> Seq<char> {
    seq!['f', 'r', 'a', 'm', 'e'] + decimal(index) + seq!['.', 'p', 'n', 'g']
}

/// Names frame `index` of a sequence ready for encoding.
pub fn frame_file_name(index: usize) -> (name: String)
    ensures
        name@ == frame_name(index as nat),
{
    proof {
        reveal_strlit("frame");
        reveal_strlit(".png");
    }
    let mut name = String::new();
    name.append("frame");
    name.append(decimal_string(index as u64).as_str());
    name.append(".png");
    name
}

/// Every one of the names is matched by the compiled rule.
pub open spec fn all_accepted(rule: regex::Regex, names: Seq<String>) -> bool {
    forall|k: int| 0 <= k < names.len() ==> regex_accepts(rule, (#[trigger] names[k])@)
}

/// Every one of the names is matched by the pattern.
pub open spec fn all_match(pattern: Seq<char>, names: Seq<String>) -> bool {
    forall|k: int| 0 <= k < names.len() ==> pattern_matches(pattern, (#[trigger] names[k])@)
}

/// Holds the names of the frame files against a compiled rule. A rule that
/// did not compile is an invalid argument; otherwise the result says whether
/// every name is matched by the rule.
pub fn check_frames(compiled: Result<regex::Regex, regex::Error>, names: &Vec<String>) -> (r:
    Result<bool, RushError>)
    ensures
        compiled is Err <==> r == Err::<bool, RushError>(RushError::InvalidArgument),
        compiled matches Ok(rule) ==> r == Ok::<bool, RushError>(all_accepted(rule, names@)),
{
    match compiled {
        Ok(rule) => {
            let mut k: usize = 0;
            while k < names.len()
                invariant
                    compiled == Ok::<regex::Regex, regex::Error>(rule),
                    k <= names@.len(),
                    forall|j: int| 0 <= j < k ==> regex_accepts(rule, (#[trigger] names@[j])@),
                decreases names@.len() - k,
            {
                if !rule.is_match(names[k].as_str()) {
                    return Ok(false);
                }
                k += 1;
            }
            Ok(true)
        },
        Err(_) => Err(RushError::InvalidArgument),
    }
}

/// Compiles the naming rule and holds the names of the frame files against
/// it. A rule that the regular expression engine does not compile on this
/// machine is an invalid argument; for any other rule the result says
/// whether every name is matched by it.
pub fn frames_obey_rule(pattern: &str, names: &Vec<String>) -> (r: Result<bool, RushError>)
    ensures
        r is Ok <==> pattern_compiles(pattern@, usize::BITS as nat),
        r matches Ok(all) ==> all == all_match(pattern@, names@),
        r is Err ==> r == Err::<bool, RushError>(RushError::InvalidArgument),
{
    let compiled = regex::Regex::new(pattern);
    proof {
        if compiled is Ok {
            let rule = compiled->Ok_0;
            assert forall|k: int| 0 <= k < names@.len() implies regex_accepts(
                rule,
                (#[trigger] names@[k])@,
            ) == pattern_matches(pattern@, names@[k]@) by {}
        }
    }
    check_frames(compiled, names)
}

/// The name of frame `index` taken out of a video: `frame_`, the index with
/// at least four digits, `.jpg`.
pub open spec fn extracted_frame_name(index: nat) -> Seq<char> {
    seq!['f', 'r', 'a', 'm', 'e', '_'] + zero_padded(index, 4) + seq!['.', 'j', 'p', 'g']
}

/// Names frame `index` taken out of a video.
pub fn extracted_frame_file_name(index: usize) -> (name: String)
    ensures
        name@ == extracted_frame_name(index as nat),
{
    proof {
        reveal_strlit("frame_");
        reveal_strlit(".jpg");
    }
    let mut name = String::new();
    name.append("frame_");
    name.append(zero_padded_string(index as u64, 4).as_str());
    name.append(".jpg");
    name
}

/// Names the thumbnail of a video: the stem of the video and `.jpeg`.
pub fn thumbnail_file_name(stem: &str) -> (name: String)
    ensures
        name@ == stem@ + seq!['.', 'j', 'p', 'e', 'g'],
{
    proof {
        reveal_strlit(".jpeg");
    }
    let mut name = String::new();
    name.append(stem);
    name.append(".jpeg");
    name
}

} // verus!
