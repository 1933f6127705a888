use rush::error::RushError;
use rush::frames::{
    check_frames, extracted_frame_file_name, frame_file_name, frames_obey_rule,
    thumbnail_file_name,
};

fn strings(items: &[&str]) -> Vec<String> {
    items.iter().map(|s| s.to_string()).collect()
}

#[test]
fn frames_are_named_by_index() {
    assert_eq!(frame_file_name(0), "frame0.png");
    assert_eq!(frame_file_name(7), "frame7.png");
    assert_eq!(frame_file_name(120), "frame120.png");
}

#[test]
fn extracted_frames_have_four_digits() {
    assert_eq!(extracted_frame_file_name(0), "frame_0000.jpg");
    assert_eq!(extracted_frame_file_name(42), "frame_0042.jpg");
    assert_eq!(extracted_frame_file_name(9999), "frame_9999.jpg");
    assert_eq!(extracted_frame_file_name(12345), "frame_12345.jpg");
}

#[test]
fn thumbnail_takes_the_stem() {
    assert_eq!(thumbnail_file_name("clip"), "clip.jpeg");
    assert_eq!(thumbnail_file_name(""), ".jpeg");
}

#[test]
fn names_that_follow_the_rule() {
    let names = strings(&["frame0.png", "frame1.png", "frame25.png"]);
    assert_eq!(frames_obey_rule(r"^frame\d+\.png", &names), Ok(true));
    assert_eq!(frames_obey_rule(r"^frame\d+\.png", &strings(&[])), Ok(true));
}

#[test]
fn a_name_that_breaks_the_rule() {
    let names = strings(&["frame0.png", "shot1.png", "frame2.png"]);
    assert_eq!(frames_obey_rule(r"^frame\d+\.png", &names), Ok(false));
    assert_eq!(
        frames_obey_rule(r"^frame\d+\.png", &strings(&["frame.png"])),
        Ok(false)
    );
}

#[test]
fn the_rule_is_matched_anywhere_in_the_name() {
    let names = strings(&["xframe1.png"]);
    assert_eq!(frames_obey_rule(r"frame\d+\.png", &names), Ok(true));
    assert_eq!(frames_obey_rule(r"^frame\d+\.png", &names), Ok(false));
    assert_eq!(frames_obey_rule(r"^dir/frame\d+\.png", &strings(&["frame1.png"])), Ok(false));
}

#[test]
fn a_rule_that_does_not_compile() {
    let names = strings(&["frame0.png"]);
    assert_eq!(frames_obey_rule(r"frame(\d+", &names), Err(RushError::InvalidArgument));
    assert_eq!(frames_obey_rule(r"[", &strings(&[])), Err(RushError::InvalidArgument));
}

#[test]
fn check_takes_the_compiled_rule() {
    let names = strings(&["a1", "a2"]);
    assert_eq!(check_frames(regex::Regex::new(r"^a\d$"), &names), Ok(true));
    assert_eq!(check_frames(regex::Regex::new(r"^a1$"), &names), Ok(false));
    assert_eq!(check_frames(regex::Regex::new(r"("), &names), Err(RushError::InvalidArgument));
}
