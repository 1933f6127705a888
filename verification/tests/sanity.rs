use rush::sanity::{check_overwrite, copy_target, perform_io_sanity_check, PathFacts, SanityError};

fn facts(input_exists: bool, input_is_dir: bool, output_is_file: bool, output_exists: bool) -> PathFacts {
    PathFacts { input_exists, input_is_dir, output_is_file, output_exists }
}

#[test]
fn missing_input_is_refused_first() {
    for bits in 0..32u32 {
        let f = facts(false, bits & 1 != 0, bits & 2 != 0, bits & 4 != 0);
        assert_eq!(
            perform_io_sanity_check(f, bits & 8 != 0, bits & 16 != 0),
            Err(SanityError::InputMissing)
        );
    }
}

#[test]
fn missing_output_directory_is_to_be_created() {
    assert_eq!(
        perform_io_sanity_check(facts(true, false, false, false), false, false),
        Ok(true)
    );
    assert_eq!(
        perform_io_sanity_check(facts(true, true, false, false), false, true),
        Ok(true)
    );
}

#[test]
fn existing_output_directory_is_left_alone() {
    assert_eq!(
        perform_io_sanity_check(facts(true, false, false, true), false, false),
        Ok(false)
    );
    assert_eq!(
        perform_io_sanity_check(facts(true, true, false, true), true, true),
        Ok(false)
    );
}

#[test]
fn output_file_needs_permission() {
    assert_eq!(
        perform_io_sanity_check(facts(true, false, true, false), false, false),
        Err(SanityError::OutputFileNotAllowed)
    );
    assert_eq!(
        perform_io_sanity_check(facts(true, true, true, true), true, false),
        Err(SanityError::OutputFileNotAllowed)
    );
    assert_eq!(
        perform_io_sanity_check(facts(true, false, true, false), false, true),
        Ok(false)
    );
}

#[test]
fn directory_into_one_file_needs_permission() {
    assert_eq!(
        perform_io_sanity_check(facts(true, true, true, false), false, true),
        Err(SanityError::ManyToOne)
    );
    assert_eq!(
        perform_io_sanity_check(facts(true, true, true, false), true, true),
        Ok(false)
    );
}

#[test]
fn sanity_messages() {
    assert_eq!(
        SanityError::InputMissing.message(),
        "Input file or directory does not exist"
    );
    assert_eq!(
        SanityError::OutputFileNotAllowed.message(),
        "Output being a file is not allowed"
    );
    assert_eq!(
        SanityError::ManyToOne.message(),
        "Cannot convert directory contents to a single file"
    );
    assert_eq!(SanityError::WouldOverwrite.message(), "Can't overwrite files");
}

#[test]
fn overwriting_needs_the_flag() {
    assert_eq!(check_overwrite(true, false), Err(SanityError::WouldOverwrite));
    assert_eq!(check_overwrite(true, true), Ok(()));
    assert_eq!(check_overwrite(false, false), Ok(()));
    assert_eq!(check_overwrite(false, true), Ok(()));
}

#[test]
fn copy_target_follows_the_source_where_it_is_new() {
    assert_eq!(copy_target(true, false, false), (true, true));
    assert_eq!(copy_target(false, false, false), (false, false));
    assert_eq!(copy_target(true, true, true), (true, false));
    assert_eq!(copy_target(false, true, true), (true, false));
    assert_eq!(copy_target(true, true, false), (false, false));
    assert_eq!(copy_target(false, true, false), (false, false));
}
