use mwc::{render_run, Counter, CountsConfig, CountsName, Error, FileCounts, Input, InputAction,
    RunOutput};

fn flags(lines: bool, words: bool, bytes: bool, chars: bool, max_line_length: bool)
    -> CountsConfig {
    CountsConfig::from_flags(lines, words, bytes, chars, max_line_length)
}

fn count_file(counter: &mut Counter, name: &str, data: &[u8]) {
    match counter.count_input(Input::File(name.to_string())) {
        InputAction::OpenFile(path) => {
            counter.count_reader(CountsName::File(path), data);
        }
        _ => panic!("a file input must ask to be opened"),
    }
}

fn count_stdin(counter: &mut Counter, data: &[u8]) {
    match counter.count_input(Input::StdIn) {
        InputAction::ReadStdin => counter.count_reader(CountsName::StdIn, data),
        InputAction::Recorded => {}
        InputAction::OpenFile(_) => panic!("stdin never asks for a file"),
    }
}

fn single_file_run(name: &str, data: &[u8], cfg: CountsConfig) -> RunOutput {
    let mut counter = Counter::new();
    count_file(&mut counter, name, data);
    render_run(&counter, cfg, 1)
}

#[test]
fn test_default_behavior_single_file() {
    let out = single_file_run(
        "test.txt",
        b"Hello world\nThis is a test file\nWith multiple lines\n",
        CountsConfig::default(),
    );
    assert_eq!(out.output, " 3 10 52 test.txt\n");
    assert!(!out.any_errors);
}

#[test]
fn test_lines_only() {
    let out = single_file_run(
        "test.txt",
        b"Line 1\nLine 2\nLine 3\n",
        flags(true, false, false, false, false),
    );
    assert_eq!(out.output, " 3 test.txt\n");
}

#[test]
fn test_words_only() {
    let out = single_file_run(
        "test.txt",
        b"one two three four five",
        flags(false, true, false, false, false),
    );
    assert_eq!(out.output, " 5 test.txt\n");
}

#[test]
fn test_bytes_only() {
    let out = single_file_run("test.txt", b"Hello", flags(false, false, true, false, false));
    assert_eq!(out.output, " 5 test.txt\n");
}

#[test]
fn test_characters_only() {
    let out = single_file_run(
        "test.txt",
        "Hello \u{4e16}\u{754c}".as_bytes(),
        flags(false, false, false, true, false),
    );
    assert_eq!(out.output, " 8 test.txt\n");
}

#[test]
fn test_max_line_length() {
    let out = single_file_run(
        "test.txt",
        b"short\nthis is a much longer line\nmedium line",
        flags(false, false, false, false, true),
    );
    assert_eq!(out.output, " 26 test.txt\n");
}

#[test]
fn test_multiple_files() {
    let mut counter = Counter::new();
    count_file(&mut counter, "test1.txt", b"File 1\nContent\n");
    count_file(&mut counter, "test2.txt", b"File 2\nDifferent content\nWith more lines\n");
    let out = render_run(&counter, CountsConfig::default(), 2);
    assert!(out.output.contains("total"));
    assert!(!out.any_errors);
}

#[test]
fn test_stdin_input() {
    let mut counter = Counter::new();
    count_stdin(&mut counter, b"Hello world\nFrom stdin\n");
    let out = render_run(&counter, CountsConfig::default(), 1);
    assert_eq!(out.output, " 2 4 23\n");
}

#[test]
fn test_implicit_stdin_input() {
    let mut counter = Counter::new();
    counter.count_reader(CountsName::StdIn, b"Hello world\nFrom stdin\n");
    let out = render_run(&counter, CountsConfig::default(), 0);
    assert_eq!(out.output, " 2 4 23\n");
}

#[test]
fn test_empty_file() {
    let out = single_file_run("empty.txt", b"", CountsConfig::default());
    assert_eq!(out.output, " 0 0 0 empty.txt\n");
}

#[test]
fn test_combined_flags() {
    let out = single_file_run(
        "test.txt",
        b"Hello world\nSecond line\n",
        flags(true, true, false, false, false),
    );
    assert_eq!(out.output, " 2 4 test.txt\n");
}

#[test]
fn test_long_flags() {
    let data: &[u8] = b"Hello world\n";
    let out = single_file_run("test.txt", data, flags(true, false, false, false, false));
    assert_eq!(out.output, " 1 test.txt\n");
    let out = single_file_run("test.txt", data, flags(false, true, false, false, false));
    assert_eq!(out.output, " 2 test.txt\n");
    let out = single_file_run("test.txt", data, flags(false, false, true, false, false));
    assert_eq!(out.output, " 12 test.txt\n");
    let out = single_file_run("test.txt", data, flags(false, false, false, true, false));
    assert_eq!(out.output, " 12 test.txt\n");
    let out = single_file_run("test.txt", data, flags(false, false, false, false, true));
    assert_eq!(out.output, " 11 test.txt\n");
}

#[test]
fn test_whitespace_handling() {
    let counts = FileCounts::from_reader(b"  word1   word2  \n\n  word3\t\tword4  \n");
    assert_eq!(counts.lines, 3);
    assert_eq!(counts.words, 4);
    let out = single_file_run(
        "whitespace.txt",
        b"  word1   word2  \n\n  word3\t\tword4  \n",
        CountsConfig::default(),
    );
    assert_eq!(out.output, " 3 4 36 whitespace.txt\n");
}

#[test]
fn test_utf8_characters() {
    let data = "Hello \u{4e16}\u{754c} \u{1f30d}\n".as_bytes();
    let chars_run = single_file_run("utf8.txt", data, flags(false, false, false, true, false));
    assert!(!chars_run.any_errors);
    let bytes_run = single_file_run("utf8.txt", data, flags(false, false, true, false, false));
    assert!(!bytes_run.any_errors);
}

#[test]
fn test_duplicate_filenames() {
    let mut counter = Counter::new();
    for _ in 0..3 {
        count_file(&mut counter, "test.txt", b"Line 1\nLine 2\nLine 3\n");
    }
    let out = render_run(&counter, CountsConfig::default(), 3);
    assert!(out.output.ends_with(" 9 18 63 total\n"));
}

#[test]
fn test_binary_file_handling() {
    let binary_data: &[u8] = &[0xFF, 0xFE, 0x00, 0x48, 0x65, 0x6C, 0x6C, 0x6F, 0x0B, 0x80, 0x81];
    let counts = FileCounts::from_reader(binary_data);
    assert_eq!(counts.lines, 1);
    assert_eq!(counts.bytes, 11);
    assert_eq!(counts.chars, 0);
    let out = single_file_run("binary.bin", binary_data, flags(false, false, true, false, false));
    assert_eq!(out.output, " 11 binary.bin\n");
}

#[test]
fn test_byte_vs_character_count_difference() {
    let data = "caf\u{e9}\n".as_bytes();
    let out = single_file_run("multibyte.txt", data, flags(false, false, true, false, false));
    assert_eq!(out.output, " 6 multibyte.txt\n");
    let out = single_file_run("multibyte.txt", data, flags(false, false, false, true, false));
    assert_eq!(out.output, " 5 multibyte.txt\n");
    let out = single_file_run("multibyte.txt", data, CountsConfig::default());
    assert_eq!(out.output, " 1 1 6 multibyte.txt\n");
}

#[test]
fn test_encoding_agnostic_line_counting() {
    let data = "Hello\nw\u{f6}rld \u{1f30d}\nLine 3\n".as_bytes();
    let out = single_file_run("mixed_content.txt", data, flags(true, false, false, false, false));
    assert_eq!(out.output, " 3 mixed_content.txt\n");
    let out = single_file_run("mixed_content.txt", data, flags(false, true, false, false, false));
    assert_eq!(out.output, " 5 mixed_content.txt\n");
}

#[test]
fn test_single_file_minimal_padding() {
    let out = single_file_run("small.txt", b"Hello\n", CountsConfig::default());
    assert_eq!(out.output, " 1 1 6 small.txt\n");
}

#[test]
fn test_multiple_files_columnar_alignment() {
    let large_content = format!("{}\n", "x".repeat(1_500_000));
    let mut counter = Counter::new();
    count_file(&mut counter, "small.txt", b"Hello\n");
    count_file(&mut counter, "large.txt", large_content.as_bytes());
    let out = render_run(&counter, CountsConfig::default(), 2);
    assert_eq!(out.output.lines().count(), 3);
    assert!(out.output.contains(" 1 1       6 small.txt"));
    assert!(out.output.contains(" 1 1 1500001 large.txt"));
}

#[test]
fn test_stdin_mixed_with_files() {
    let mut counter = Counter::new();
    count_stdin(&mut counter, b"hello world\n");
    count_file(&mut counter, "test.txt", b"file content\nwith multiple lines\n");
    let out = render_run(&counter, CountsConfig::default(), 2);
    assert!(out.output.contains(" 1 2 12 -"));
    assert!(out.output.contains("2 5 33"));
    assert!(out.output.contains("total"));
}

#[test]
fn test_multiple_stdin_args() {
    let mut counter = Counter::new();
    count_stdin(&mut counter, b"test input\n");
    count_stdin(&mut counter, b"test input\n");
    let out = render_run(&counter, CountsConfig::default(), 2);
    assert!(out.output.contains(" 1 2 11 -"));
    assert!(out.output.contains(" 0 0  0 -"));
    assert!(out.output.contains("total"));
}

#[test]
fn test_word_counting_across_lines() {
    let out = single_file_run(
        "multiline_words.txt",
        b"word1 word2\nword3 word4\nword5",
        flags(false, true, false, false, false),
    );
    assert_eq!(out.output, " 5 multiline_words.txt\n");
}

#[test]
fn test_no_final_newline_line_counting() {
    let out = single_file_run(
        "no_final_newline.txt",
        b"line1\nline2\nline3",
        flags(true, false, false, false, false),
    );
    assert_eq!(out.output, " 3 no_final_newline.txt\n");
}

#[test]
fn test_exit_status_success() {
    let out = single_file_run("test.txt", b"hello world\n", CountsConfig::default());
    assert!(!out.any_errors);
}

#[test]
fn test_exit_status_file_not_found() {
    let mut counter = Counter::new();
    counter.record_error(Error::NoFile("nonexistent_file.txt".to_string()));
    let out = render_run(&counter, CountsConfig::default(), 1);
    assert!(out.any_errors);
    assert!(out.errors.contains("No such file"));
}

#[test]
fn test_directory_handling() {
    let mut counter = Counter::new();
    counter.record_error(Error::IsDirectory("subdir".to_string()));
    let out = render_run(&counter, CountsConfig::default(), 1);
    assert!(out.any_errors);
    assert!(out.errors.contains("Is a directory"));
}

#[test]
fn test_mixed_existing_and_nonexistent_files() {
    let mut counter = Counter::new();
    count_file(&mut counter, "file1.txt", b"Hello world\n");
    counter.record_error(Error::NoFile("nonexistent.txt".to_string()));
    count_file(&mut counter, "file2.txt", b"Test content\nSecond line\n");
    let out = render_run(&counter, CountsConfig::default(), 3);
    assert!(out.any_errors);
    assert!(out.output.contains("total"));
    assert!(out.errors.contains("No such file"));
}

#[test]
fn test_combined_c_and_m_options() {
    let out = single_file_run(
        "test.txt",
        "caf\u{e9}\n".as_bytes(),
        flags(false, false, true, true, false),
    );
    assert_eq!(out.output, " 6 5 test.txt\n");
}

#[test]
fn test_all_options_together() {
    let out = single_file_run(
        "test.txt",
        b"hello world\nsecond line\n",
        flags(true, true, true, true, true),
    );
    assert_eq!(out.output, " 2 4 24 24 11 test.txt\n");
}
