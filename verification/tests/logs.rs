use wsl_memory_agent::logging::{
    names_archive, placeholder_name, rotated_name, HostLoggingConfig, LogFile, DAY, MB,
};
use wsl_memory_agent::text::{
    decimal_text, ends_with, parse_number, pieces, push_places, starts_with, to_chars, to_text,
    tokens, trimmed,
};

fn config(max_file_size_mb: u64, max_files: usize, max_age_days: u64) -> HostLoggingConfig {
    HostLoggingConfig {
        max_file_size_mb,
        max_files,
        max_age_days,
        ..HostLoggingConfig::default()
    }
}

#[test]
fn default_logging() {
    let c = HostLoggingConfig::default();
    assert_eq!(c.level, "info");
    assert_eq!(c.max_bytes(), 8 * MB);
    assert_eq!(c.max_files, 5);
    assert_eq!(c.retention(), Some(7 * DAY));
}

#[test]
fn limits_of_log_files() {
    assert_eq!(config(0, 1, 0).max_bytes(), MB);
    assert_eq!(config(3, 1, 0).max_bytes(), 3 * MB);
    assert_eq!(config(u64::MAX, 1, 0).max_bytes(), u64::MAX);
    assert_eq!(config(1, 1, 0).retention(), None);
    assert_eq!(config(1, 1, 2).retention(), Some(2 * DAY));
    assert_eq!(config(1, 1, u64::MAX).retention(), Some(u64::MAX));
    let c = config(1, 1, 7);
    assert!(!c.rotates(0, MB as usize - 1));
    assert!(c.rotates(0, MB as usize));
    assert!(c.rotates(MB, 0));
    assert!(c.rotates(u64::MAX, 1));
    assert!(config(u64::MAX, 1, 7).rotates(u64::MAX, 0));
    assert!(!config(u64::MAX, 1, 7).rotates(u64::MAX - 1, 0));
}

#[test]
fn names_of_log_files() {
    assert_eq!(rotated_name("host.log", 1700000000), "host.log.1700000000");
    assert_eq!(placeholder_name("host.log"), "host.log.active");
}

fn file(name: &str, modified: Option<i128>) -> LogFile {
    LogFile {
        name: name.to_string(),
        modified,
    }
}

#[test]
fn archives_that_go() {
    let files = vec![
        file("host.log", Some(1)),
        file("host.log.5", Some(50)),
        file("host.log.1", Some(10)),
        file("other.log.1", Some(1)),
        file("host.log.4", Some(40)),
        file("host.log.x", None),
        file("host.log.4b", Some(40)),
    ];
    // without a cutoff only the number counts
    assert_eq!(
        config(1, 2, 0).doomed_archives("host.log", &files, None),
        vec![5, 2, 4]
    );
    // what is expired goes first, in the order of the listing
    assert_eq!(
        config(1, 2, 7).doomed_archives("host.log", &files, Some(40)),
        vec![2, 5, 4]
    );
    assert_eq!(
        config(1, 9, 7).doomed_archives("host.log", &files, Some(41)),
        vec![2, 4, 6]
    );
    assert_eq!(
        config(1, 0, 7).doomed_archives("host.log", &files, Some(45)),
        vec![2, 4, 6, 5, 1]
    );
    assert_eq!(
        config(1, 9, 7).doomed_archives("none", &files, Some(1000)),
        Vec::<usize>::new()
    );
}

#[test]
fn white_space_and_words() {
    assert_eq!(trimmed("\u{3000} a b\t\r\n\u{85}"), "a b");
    assert_eq!(trimmed(" \n"), "");
    let chars = to_chars("  one\ttwo\n\u{2003}three ");
    let words: Vec<String> = tokens(&chars).iter().map(|w| to_text(w)).collect();
    assert_eq!(words, vec!["one", "two", "three"]);
    let chars = to_chars("a,,b,");
    let parts: Vec<String> = pieces(&chars, ',').iter().map(|w| to_text(w)).collect();
    assert_eq!(parts, vec!["a", "", "b", ""]);
    assert!(starts_with(&chars, "a,") && !starts_with(&chars, "a,b"));
    assert!(ends_with(&chars, "b,") && !ends_with(&chars, "xa,,b,"));
}

#[test]
fn white_space_is_that_of_unicode() {
    for n in 0..0x11_0000u32 {
        if let Some(c) = char::from_u32(n) {
            assert_eq!(wsl_memory_agent::text::space(c), c.is_whitespace(), "{:x}", n);
        }
    }
}

#[test]
fn numbers_are_read_like_those_of_rust() {
    for s in [
        "0",
        "007",
        "+5",
        "+",
        "-1",
        "",
        "12a",
        " 1",
        "++1",
        "18446744073709551615",
        "18446744073709551616",
        "99999999999999999999999",
        "٣",
    ] {
        assert_eq!(
            parse_number(&to_chars(s), u64::MAX),
            s.parse::<u64>().ok(),
            "{}",
            s
        );
        assert_eq!(
            parse_number(&to_chars(s), 65535),
            s.parse::<u16>().ok().map(|n| n as u64)
        );
    }
}

#[test]
fn numbers_are_written_like_those_of_rust() {
    for n in [0u128, 7, 10, 99, 100, 12345678901234567890, u128::MAX] {
        assert_eq!(decimal_text(n), n.to_string());
    }
    for n in [0u128, 5, 99, 100, 101, 12345] {
        let mut s = String::from("x");
        push_places(&mut s, n, 2);
        assert_eq!(s, format!("x{}.{:02}", n / 100, n % 100));
    }
}

#[test]
fn two_large_writes_leave_one_archive() {
    let config = config(1, 1, 7);
    let big = MB as usize + 128;
    let mut current: u64 = 0;
    let mut files = vec![file("host.log", Some(0))];
    for secs in [100u64, 101, 102] {
        let nanos = secs as i128 * 1_000_000_000;
        assert!(config.rotates(current, big));
        files.push(file(&rotated_name("host.log", secs), Some(nanos)));
        current = 0;
        let cutoff = nanos - config.retention().map_or(0, |r| r as i128) * 1_000_000_000;
        let gone = config.doomed_archives("host.log", &files, Some(cutoff));
        files = files
            .into_iter()
            .enumerate()
            .filter(|(i, _)| !gone.contains(i))
            .map(|(_, f)| f)
            .collect();
        current += big as u64;
    }
    let names: Vec<&str> = files.iter().map(|f| f.name.as_str()).collect();
    assert_eq!(names, vec!["host.log", "host.log.102"]);
    assert!(names_archive("host.log.102", "host.log"));
    assert!(!names_archive("host.log", "host.log"));
}
