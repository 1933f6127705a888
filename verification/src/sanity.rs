//! Whether a command may start, given what is known of its input and output
//! paths. Looking at the file system is the caller's part.

use vstd::prelude::*;

verus! {

/// What the caller found out about the two paths.
#[derive(Debug, Clone, Copy, PartialEq, Eq, Structural)]
pub struct PathFacts {
    /// The input path exists, as a file or as a directory.
    pub input_exists: bool,
    /// The input path is a directory.
    pub input_is_dir: bool,
    /// The output path has an extension, so it is meant as a file.
    pub output_is_file: bool,
    /// The output path exists.
    pub output_exists: bool,
}

/// Why a command may not start.
#[derive(Debug, Clone, Copy, PartialEq, Eq, Structural)]
pub enum SanityError {
    /// There is nothing at the input path.
    InputMissing,
    /// The output is a file, and this command writes into a directory.
    OutputFileNotAllowed,
    /// The input is a directory and the output a single file.
    ManyToOne,
    /// The output would replace the input, and overwriting was not asked for.
    WouldOverwrite,
}

impl SanityError {
    /// The sentence shown to the user.
    pub fn message(&self) -> (text: &'static str)
        ensures
            text@ == match *self {
                SanityError::InputMissing => "Input file or directory does not exist"@,
                SanityError::OutputFileNotAllowed => "Output being a file is not allowed"@,
                SanityError::ManyToOne => "Cannot convert directory contents to a single file"@,
                SanityError::WouldOverwrite => "Can't overwrite files"@,
            },
    {
        match self {
            SanityError::InputMissing => "Input file or directory does not exist",
            SanityError::OutputFileNotAllowed => "Output being a file is not allowed",
            SanityError::ManyToOne => "Cannot convert directory contents to a single file",
            SanityError::WouldOverwrite => "Can't overwrite files",
        }
    }
}

/// Decides whether a command may start. The input must exist. An output
/// that is meant as a file is refused unless `allow_output_file` is set,
/// and for a whole directory of inputs also unless `allow_many_to_one` is
/// set. On success the result says whether the output directory has to be
/// created first: that is so where the output is meant as a directory and
/// is not there yet.
pub fn perform_io_sanity_check(
    facts: PathFacts,
    allow_many_to_one: bool,
    allow_output_file: bool,
) -> (r: Result<bool, SanityError>)
    ensures
        r == Err::<bool, SanityError>(SanityError::InputMissing) <==> !facts.input_exists,
        r == Err::<bool, SanityError>(SanityError::OutputFileNotAllowed) <==> facts.input_exists
            && facts.output_is_file && !allow_output_file,
        r == Err::<bool, SanityError>(SanityError::ManyToOne) <==> facts.input_exists
            && facts.output_is_file && allow_output_file && facts.input_is_dir
            && !allow_many_to_one,
        r == Ok::<bool, SanityError>(true) <==> facts.input_exists && !facts.output_is_file
            && !facts.output_exists,
        r == Ok::<bool, SanityError>(false) <==> facts.input_exists && (if facts.output_is_file {
            allow_output_file && !(facts.input_is_dir && !allow_many_to_one)
        } else {
            facts.output_exists
        }),
{
    if !facts.input_exists {
        return Err(SanityError::InputMissing);
    }
    if !facts.output_is_file {
        return Ok(!facts.output_exists);
    }
    if !allow_output_file {
        return Err(SanityError::OutputFileNotAllowed);
    }
    if facts.input_is_dir && !allow_many_to_one {
        return Err(SanityError::ManyToOne);
    }
    Ok(false)
}

/// Refuses to write a result over its own input unless overwriting was
/// asked for.
pub fn check_overwrite(output_is_input: bool, overwrite: bool) -> (r: Result<(), SanityError>)
    ensures
        r is Err <==> output_is_input && !overwrite,
        r is Err ==> r == Err::<(), SanityError>(SanityError::WouldOverwrite),
{
    if output_is_input && !overwrite {
        Err(SanityError::WouldOverwrite)
    } else {
        Ok(())
    }
}

/// Where a copy goes. A target that exists is taken for what it is. One
/// that does not exist is taken for a directory exactly when a directory
/// is copied, and must then be created first. The result holds whether the
/// target is a directory, and whether it has to be created.
pub fn copy_target(source_is_dir: bool, target_exists: bool, target_is_dir: bool) -> (plan: (
    bool,
    bool,
))
    ensures
        plan.0 == if target_exists {
            target_is_dir
        } else {
            source_is_dir
        },
        plan.1 == (!target_exists && source_is_dir),
{
    if target_exists {
        (target_is_dir, false)
    } else {
        (source_is_dir, source_is_dir)
    }
}

} // verus!
