use textutils::rle::args::{Args, Flags};
use textutils::rle::error::RleError;

fn tokens(texts: &[&str]) -> Vec<String> {
    texts.iter().map(|t| t.to_string()).collect()
}

#[test]
fn rle_flags_start_unset() {
    assert!(!Flags::new().use_decoder);
}

#[test]
fn rle_path_only_means_encode() {
    let args = Args::new(&tokens(&["file.txt"])).unwrap();
    assert!(!args.flags.use_decoder);
    assert_eq!(args.file_path, "file.txt");
}

#[test]
fn rle_decode_flag() {
    let args = Args::new(&tokens(&["-d", "file.txt"])).unwrap();
    assert!(args.flags.use_decoder);
    assert_eq!(args.file_path, "file.txt");
    let args = Args::new(&tokens(&["file.txt", "-d"])).unwrap();
    assert!(args.flags.use_decoder);
    assert_eq!(args.file_path, "file.txt");
}

#[test]
fn rle_invalid_flag() {
    assert_eq!(
        Args::new(&tokens(&["-z", "file.txt"])),
        Err(RleError::InvalidArg("-z".to_string()))
    );
    assert_eq!(Args::new(&tokens(&["-"])), Err(RleError::InvalidArg("-".to_string())));
    assert_eq!(
        Args::new(&tokens(&["-dd", "file.txt"])),
        Err(RleError::InvalidArg("-dd".to_string()))
    );
    assert_eq!(
        Args::new(&tokens(&["-l", "file.txt"])),
        Err(RleError::InvalidArg("-l".to_string()))
    );
}

#[test]
fn rle_first_invalid_flag_is_named() {
    assert_eq!(
        Args::new(&tokens(&["-d", "-x", "-y"])),
        Err(RleError::InvalidArg("-x".to_string()))
    );
}

#[test]
fn rle_invalid_flag_before_missing_file() {
    assert_eq!(Args::new(&tokens(&["-q"])), Err(RleError::InvalidArg("-q".to_string())));
}

#[test]
fn rle_missing_file() {
    assert_eq!(Args::new(&tokens(&[])), Err(RleError::NoFileProvided));
    assert_eq!(Args::new(&tokens(&["-d"])), Err(RleError::NoFileProvided));
}

#[test]
fn rle_last_path_counts() {
    let args = Args::new(&tokens(&["a.txt", "-d", "b.txt"])).unwrap();
    assert_eq!(args.file_path, "b.txt");
    let args = Args::new(&tokens(&["a.txt", ""])).unwrap();
    assert_eq!(args.file_path, "");
}

#[test]
fn rle_messages() {
    assert_eq!(RleError::NoFileProvided.message(), "Usage: rle <file_path>");
    assert_eq!(RleError::Io("no such file".to_string()).message(), "io error: no such file");
    assert_eq!(RleError::InvalidArg("-z".to_string()).message(), "Invalid arg: -z");
    assert_eq!(
        RleError::ParseCount(String::new()).message(),
        "Error parsing number: cannot parse integer from empty string"
    );
    assert_eq!(
        RleError::ParseCount("99999999999999999999".to_string()).message(),
        "Error parsing number: number too large to fit in target type: 99999999999999999999"
    );
}
