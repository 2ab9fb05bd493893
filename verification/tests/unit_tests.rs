use mwc::{digits, ColumnWidths, CountsConfig, FileCounts, Printer};

#[test]
fn test_digits() {
    assert_eq!(digits(0), 1);
    assert_eq!(digits(9), 1);
    assert_eq!(digits(10), 2);
    assert_eq!(digits(99), 2);
    assert_eq!(digits(100), 3);
    assert_eq!(digits(101), 3);
}

#[test]
fn test_output_format() {
    let output = Printer {
        display: CountsConfig::default(),
        widths: ColumnWidths::default(),
    }
    .print_counts(&FileCounts {
        lines: 1,
        words: 1,
        bytes: 6,
        chars: 2,
        max_line_length: 1,
    });
    assert_eq!(" 1 1 6", output);
}

#[test]
fn default_config_selects_lines_words_bytes() {
    let cfg = CountsConfig::default();
    assert!(cfg.lines && cfg.words && cfg.bytes);
    assert!(!cfg.chars && !cfg.max_line_length);
}

#[test]
fn explicit_flags_replace_the_default_set() {
    let cfg = CountsConfig::from_flags(false, false, false, true, false);
    assert!(!cfg.lines && !cfg.words && !cfg.bytes);
    assert!(cfg.chars && !cfg.max_line_length);
    let cfg = CountsConfig::from_flags(false, false, false, false, false);
    assert_eq!(cfg, CountsConfig::default());
}

#[test]
fn column_width_grows_with_the_largest_value() {
    let w = ColumnWidths::default();
    assert_eq!((w.lines, w.words, w.bytes, w.chars, w.max_line_length), (2, 2, 2, 2, 2));
    let wide = w.max(ColumnWidths::from_counts(&FileCounts {
        lines: 7,
        words: 42,
        bytes: 1500001,
        chars: 0,
        max_line_length: 99,
    }));
    assert_eq!(wide.lines, 2);
    assert_eq!(wide.words, 3);
    assert_eq!(wide.bytes, 8);
    assert_eq!(wide.chars, 2);
    assert_eq!(wide.max_line_length, 3);
}

#[test]
fn padding_is_right_aligned_to_the_column() {
    let output = Printer {
        display: CountsConfig::from_flags(false, false, true, false, false),
        widths: ColumnWidths {
            lines: 2,
            words: 2,
            bytes: 8,
            chars: 2,
            max_line_length: 2,
        },
    }
    .print_counts(&FileCounts {
        lines: 1,
        words: 1,
        bytes: 6,
        chars: 6,
        max_line_length: 5,
    });
    assert_eq!("       6", output);
}
