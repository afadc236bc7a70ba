use textutils::wc::args::Args;
use textutils::wc::count::{tally, Counts};
use textutils::wc::error::WcError;
use textutils::wc::flags::Flags;
use textutils::wc::report::report;
use textutils::wc::words::{count_words, is_whitespace};

fn strings(texts: &[&str]) -> Vec<String> {
    texts.iter().map(|t| t.to_string()).collect()
}

fn all_flags() -> Flags {
    Flags { lines: true, words: true, bytes: true }
}

#[test]
fn new_flags_have_nothing_set() {
    let flags = Flags::new();
    assert!(flags.none_set());
    assert_eq!(flags, Flags { lines: false, words: false, bytes: false });
}

#[test]
fn none_set_sees_each_flag() {
    assert!(!Flags { lines: true, words: false, bytes: false }.none_set());
    assert!(!Flags { lines: false, words: true, bytes: false }.none_set());
    assert!(!Flags { lines: false, words: false, bytes: true }.none_set());
    assert!(!all_flags().none_set());
}

#[test]
fn set_all_sets_every_flag() {
    let mut flags = Flags::new();
    flags.set_all();
    assert_eq!(flags, all_flags());
    let mut flags = Flags { lines: false, words: true, bytes: false };
    flags.set_all();
    assert_eq!(flags, all_flags());
}

#[test]
fn whitespace_matches_std() {
    for code in 0..=0x10FFFFu32 {
        if let Some(c) = char::from_u32(code) {
            assert_eq!(is_whitespace(c), c.is_whitespace(), "U+{:04X}", code);
        }
    }
}

#[test]
fn count_words_examples() {
    assert_eq!(count_words(""), 0);
    assert_eq!(count_words("   "), 0);
    assert_eq!(count_words("hello"), 1);
    assert_eq!(count_words("hello world"), 2);
    assert_eq!(count_words("  hello   world  "), 2);
    assert_eq!(count_words("a\tb\u{a0}c\u{3000}d\u{2003}e"), 5);
    assert_eq!(count_words("x"), 1);
    assert_eq!(count_words(" x"), 1);
    assert_eq!(count_words("x "), 1);
}

#[test]
fn count_words_matches_split_whitespace() {
    let samples = [
        "",
        " ",
        "one",
        "one two",
        " one  two\tthree\u{2028}four ",
        "\u{85}a\u{1680}b\u{205f}",
        "zero\u{200b}width is no space",
        "tab\tand\rreturn\u{b}\u{c}",
    ];
    for text in samples {
        assert_eq!(count_words(text), text.split_whitespace().count(), "{:?}", text);
    }
}

#[test]
fn extra_whitespace_keeps_word_count() {
    let text = "alpha beta  gamma";
    let base = count_words(text);
    assert_eq!(base, 3);
    assert_eq!(count_words("alpha  beta  gamma"), base);
    assert_eq!(count_words("alpha \t beta \u{a0} gamma"), base);
    assert_eq!(count_words("  alpha beta  gamma"), base);
    assert_eq!(count_words("alpha beta  gamma   "), base);
    assert_eq!(count_words("al pha beta  gamma"), base + 1);
}

#[test]
fn tally_of_two_lines() {
    let lines = strings(&["hello world", "foo"]);
    let counts = tally(&all_flags(), &lines, 16);
    assert_eq!(counts, Counts { lines: 2, words: 3, bytes: 16 });
    assert_eq!(report(&all_flags(), &counts), "2 3 16 ");
}

#[test]
fn tally_empty_file() {
    let counts = tally(&all_flags(), &Vec::new(), 0);
    assert_eq!(counts, Counts { lines: 0, words: 0, bytes: 0 });
    assert_eq!(report(&all_flags(), &counts), "0 0 0 ");
}

#[test]
fn tally_counts_only_what_is_asked() {
    let lines = strings(&["a b c", "", "d"]);
    let only_lines = Flags { lines: true, words: false, bytes: false };
    assert_eq!(tally(&only_lines, &lines, 9), Counts { lines: 3, words: 0, bytes: 0 });
    let only_words = Flags { lines: false, words: true, bytes: false };
    assert_eq!(tally(&only_words, &lines, 9), Counts { lines: 0, words: 4, bytes: 0 });
    let only_bytes = Flags { lines: false, words: false, bytes: true };
    assert_eq!(tally(&only_bytes, &lines, 9), Counts { lines: 0, words: 0, bytes: 9 });
}

#[test]
fn report_prints_selected_counts_in_order() {
    let counts = Counts { lines: 12, words: 345, bytes: 6789 };
    assert_eq!(report(&all_flags(), &counts), "12 345 6789 ");
    let flags = Flags { lines: true, words: false, bytes: true };
    assert_eq!(report(&flags, &counts), "12 6789 ");
    let flags = Flags { lines: false, words: true, bytes: false };
    assert_eq!(report(&flags, &counts), "345 ");
    assert_eq!(report(&Flags::new(), &counts), "");
}

#[test]
fn report_large_counts() {
    let counts = Counts { lines: usize::MAX, words: u128::MAX, bytes: u64::MAX };
    assert_eq!(
        report(&all_flags(), &counts),
        format!("{} {} {} ", usize::MAX, u128::MAX, u64::MAX)
    );
}

#[test]
fn wc_no_flags_means_all() {
    let plain = Args::new(&strings(&["file.txt"])).unwrap();
    let full = Args::new(&strings(&["-l", "-w", "-c", "file.txt"])).unwrap();
    assert_eq!(plain, full);
    assert_eq!(plain.flags, all_flags());
    assert_eq!(plain.file_path, "file.txt");
}

#[test]
fn wc_single_flags() {
    let args = Args::new(&strings(&["-l", "f"])).unwrap();
    assert_eq!(args.flags, Flags { lines: true, words: false, bytes: false });
    let args = Args::new(&strings(&["f", "-w"])).unwrap();
    assert_eq!(args.flags, Flags { lines: false, words: true, bytes: false });
    let args = Args::new(&strings(&["-c", "f", "-c"])).unwrap();
    assert_eq!(args.flags, Flags { lines: false, words: false, bytes: true });
    let args = Args::new(&strings(&["-c", "-l", "f"])).unwrap();
    assert_eq!(args.flags, Flags { lines: true, words: false, bytes: true });
}

#[test]
fn wc_invalid_flag() {
    assert_eq!(
        Args::new(&strings(&["-z", "file.txt"])),
        Err(WcError::InvalidArg("-z".to_string()))
    );
    assert_eq!(
        Args::new(&strings(&["-l", "-lw", "-q"])),
        Err(WcError::InvalidArg("-lw".to_string()))
    );
    assert_eq!(Args::new(&strings(&["-d"])), Err(WcError::InvalidArg("-d".to_string())));
}

#[test]
fn wc_missing_file() {
    assert_eq!(Args::new(&strings(&[])), Err(WcError::NoFileProvided));
    assert_eq!(Args::new(&strings(&["-l", "-w"])), Err(WcError::NoFileProvided));
}

#[test]
fn wc_last_path_counts() {
    let args = Args::new(&strings(&["a.txt", "b.txt"])).unwrap();
    assert_eq!(args.file_path, "b.txt");
}

#[test]
fn wc_messages() {
    assert_eq!(WcError::NoFileProvided.message(), "Usage: wc [-l] [-w] [-c] <file_path>");
    assert_eq!(WcError::Io("denied".to_string()).message(), "Error reading file: denied");
    assert_eq!(WcError::InvalidArg("-z".to_string()).message(), "Invalid arg: -z");
}
