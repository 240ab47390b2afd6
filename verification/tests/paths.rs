use engiffen::parse_args::{
    directory_of, invalid_filename_message, path_and_filename, range_source, split_from,
    usage_brief, ArgsError, SourceImages,
};
use std::path::PathBuf;

#[test]
fn bare_name_lies_in_the_current_directory() {
    assert_eq!(
        path_and_filename("thing001.jpg"),
        Ok((PathBuf::from("."), PathBuf::from("thing001.jpg")))
    );
}

#[test]
fn directory_is_split_from_the_name() {
    assert_eq!(
        path_and_filename("../dir/thing001.jpg"),
        Ok((PathBuf::from("../dir"), PathBuf::from("thing001.jpg")))
    );
    assert_eq!(
        path_and_filename("/thing.png"),
        Ok((PathBuf::from("/"), PathBuf::from("thing.png")))
    );
}

#[test]
fn name_without_a_file_name_is_refused() {
    assert_eq!(
        path_and_filename(".."),
        Err(ArgsError::ImageRange("Invalid filename \"..\"".to_owned()))
    );
    assert_eq!(
        path_and_filename("/"),
        Err(ArgsError::ImageRange("Invalid filename \"/\"".to_owned()))
    );
    assert_eq!(
        path_and_filename(""),
        Err(ArgsError::ImageRange("Invalid filename \"\"".to_owned()))
    );
}

#[test]
fn directory_is_the_parent_unless_it_is_missing_or_empty() {
    let here = PathBuf::from(".");
    assert_eq!(directory_of(Some(PathBuf::from("x")), false, here.clone()), PathBuf::from("x"));
    assert_eq!(directory_of(Some(PathBuf::from("")), true, here.clone()), here.clone());
    assert_eq!(directory_of(None, false, here.clone()), here.clone());
    assert_eq!(directory_of(None, true, here.clone()), here);
}

#[test]
fn messages_are_put_together_from_their_parts() {
    assert_eq!(invalid_filename_message("\"a/..\""), "Invalid filename \"a/..\"");
    assert_eq!(invalid_filename_message(""), "Invalid filename ");
    assert_eq!(usage_brief("engiffen"), "Usage: engiffen <files ...>");
    assert_eq!(usage_brief(""), "Usage:  <files ...>");
}

#[test]
fn unprintable_characters_are_escaped_in_the_message() {
    assert_eq!(
        path_and_filename("a\n/.."),
        Err(ArgsError::ImageRange("Invalid filename \"a\\n/..\"".to_owned()))
    );
}

#[test]
fn range_needs_one_directory() {
    let start = (PathBuf::from("d"), PathBuf::from("a.png"));
    let end = (PathBuf::from("d"), PathBuf::from("z.png"));
    assert_eq!(
        range_source(start.clone(), end.clone(), true),
        Ok(SourceImages::StartEnd(
            PathBuf::from("d"),
            PathBuf::from("a.png"),
            PathBuf::from("z.png")
        ))
    );
    assert_eq!(
        range_source(start, end, false),
        Err(ArgsError::ImageRange(
            "start and end files are from different directories".to_owned()
        ))
    );
}

#[test]
fn split_from_gives_the_name_found_or_refuses() {
    let here = PathBuf::from(".");
    let name = PathBuf::from("a.png");
    assert_eq!(
        split_from(Some(PathBuf::from("d")), false, Some(name.clone()), here.clone(), "\"d/a.png\""),
        Ok((PathBuf::from("d"), name.clone()))
    );
    assert_eq!(
        split_from(Some(PathBuf::from("")), true, Some(name.clone()), here.clone(), "\"a.png\""),
        Ok((here.clone(), name.clone()))
    );
    assert_eq!(
        split_from(None, false, Some(name.clone()), here.clone(), "\"a.png\""),
        Ok((here.clone(), name))
    );
    assert_eq!(
        split_from(Some(PathBuf::from("d")), false, None, here.clone(), "\"d/..\""),
        Err(ArgsError::ImageRange("Invalid filename \"d/..\"".to_owned()))
    );
    assert_eq!(
        split_from(None, false, None, here, ""),
        Err(ArgsError::ImageRange("Invalid filename ".to_owned()))
    );
}
