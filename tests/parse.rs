use patch_fix::line::{
    is_delimiter_line, match_author_line, match_date_line, match_hash_line, match_subject_line,
};
use patch_fix::{apply_patches, parse_lines, ParseError, Patch, PatchScanner};

const HASH_LINE: &str = "From aaaaaaaaaaaaaaaaaaaaaaaaaaaaaaaaaaaaaaaa Mon Jan 2 03:04:05 2023";
const AUTHOR_LINE: &str = "From: J. Doe <j@example.com>";
const DATE_LINE: &str = "Date: Mon, 2 Jan 2023 03:04:05 -0500";
const SUBJECT_LINE: &str = "Subject: [PATCH 1/1] Fix bug";

fn sample() -> Vec<String> {
    vec![
        HASH_LINE.to_string(),
        AUTHOR_LINE.to_string(),
        DATE_LINE.to_string(),
        SUBJECT_LINE.to_string(),
        String::new(),
        "Fixes the thing.".to_string(),
        "---".to_string(),
        " src/lib.rs | 2 +-".to_string(),
        "diff --git a/src/lib.rs b/src/lib.rs".to_string(),
    ]
}

fn parse(lines: &Vec<String>, signature: Option<&str>) -> Result<Patch, ParseError> {
    parse_lines(lines, "patches/0001-fix.patch", signature)
}

#[test]
fn sample_file_gives_record() {
    let p = parse(&sample(), None).unwrap();
    assert_eq!(p.hash, "a".repeat(40));
    assert_eq!(p.from_date, "Jan 2 03:04:05 2023");
    assert_eq!(p.orig_author, "J. Doe <j@example.com>");
    assert_eq!(p.orig_date, "2 Jan 2023 03:04:05 -0500");
    assert_eq!(p.message, "Fix bug\n\nFixes the thing.\n");
    assert_eq!(p.new_author, None);
    assert_eq!(p.path, "patches/0001-fix.patch");
}

#[test]
fn sample_file_with_signature() {
    let p = parse(&sample(), Some("Jane <jane@example.com>")).unwrap();
    assert_eq!(
        p.message,
        "Fix bug\n\nFixes the thing.\nSigned-off-by: Jane <jane@example.com>\n"
    );
    assert!(p.message.ends_with("Signed-off-by: Jane <jane@example.com>\n"));
}

#[test]
fn subject_renamed_fails_at_subject() {
    let mut lines = sample();
    lines[3] = "Title: Fix bug".to_string();
    assert_eq!(parse(&lines, None).err(), Some(ParseError::InvalidSubjectLine));
    assert_eq!(lines[3], "Title: Fix bug");
}

#[test]
fn parsing_twice_gives_equal_records() {
    let lines = sample();
    let a = parse(&lines, Some("Jane <jane@example.com>")).unwrap();
    let b = parse(&lines, Some("Jane <jane@example.com>")).unwrap();
    assert_eq!(a.hash, b.hash);
    assert_eq!(a.from_date, b.from_date);
    assert_eq!(a.orig_author, b.orig_author);
    assert_eq!(a.orig_date, b.orig_date);
    assert_eq!(a.message, b.message);
    assert_eq!(a.new_author, b.new_author);
    assert_eq!(a.path, b.path);
}

#[test]
fn signature_adds_one_line_and_nothing_else() {
    let lines = sample();
    let without = parse(&lines, None).unwrap();
    let with = parse(&lines, Some("A <a@b.c>")).unwrap();
    assert_eq!(with.message, format!("{}Signed-off-by: A <a@b.c>\n", without.message));
    assert_eq!(with.message.matches("Signed-off-by:").count(), 1);
    assert_eq!(with.hash, without.hash);
    assert_eq!(with.orig_author, without.orig_author);
}

#[test]
fn truncation_before_delimiter_fails() {
    let lines = sample();
    for t in 0..6 {
        let cut: Vec<String> = lines[..t].to_vec();
        assert!(parse(&cut, None).is_err(), "cut at {}", t);
    }
    for t in 4..6 {
        let cut: Vec<String> = lines[..t].to_vec();
        assert_eq!(parse(&cut, None).err(), Some(ParseError::UnterminatedMessage));
    }
    assert_eq!(parse(&Vec::new(), None).err(), Some(ParseError::UnterminatedMessage));
}

#[test]
fn delimiter_as_last_line_succeeds() {
    let lines = sample()[..7].to_vec();
    let p = parse(&lines, None).unwrap();
    assert_eq!(p.message, "Fix bug\n\nFixes the thing.\n");
}

#[test]
fn each_bad_header_fails_at_its_stage() {
    let cases = [
        (0, "From zzzzzzzzzzzzzzzzzzzzzzzzzzzzzzzzzzzzzzzz Mon Jan 2 03:04:05 2023", ParseError::InvalidHashLine),
        (1, "Author: J. Doe <j@example.com>", ParseError::InvalidAuthorLine),
        (2, "Date: 2 Jan 2023", ParseError::InvalidDateLine),
        (3, "Subject: Fix bug", ParseError::InvalidSubjectLine),
    ];
    for (i, bad, err) in cases.iter() {
        let mut lines = sample();
        lines[*i] = bad.to_string();
        assert_eq!(parse(&lines, None).err(), Some(*err));
    }
}

#[test]
fn message_stops_at_first_delimiter() {
    let mut lines = sample();
    lines.push("---".to_string());
    lines.push("more".to_string());
    let p = parse(&lines, None).unwrap();
    assert_eq!(p.message, "Fix bug\n\nFixes the thing.\n");
    assert!(!p.message.contains("---"));
}

#[test]
fn blank_body_lines_are_kept() {
    let mut lines = sample();
    lines.insert(5, String::new());
    lines.insert(5, String::new());
    let p = parse(&lines, None).unwrap();
    assert_eq!(p.message, "Fix bug\n\n\n\nFixes the thing.\n");
}

#[test]
fn hash_line_shapes() {
    let (h, d) = match_hash_line(HASH_LINE).unwrap();
    assert_eq!(h, "a".repeat(40));
    assert_eq!(d, "Jan 2 03:04:05 2023");
    let long = "From 0123456789abcdef0123456789abcdef01234567 Tue Feb 14 23:59:00 1999";
    assert_eq!(match_hash_line(long).unwrap().0, "0123456789abcdef0123456789abcdef01234567");
    // 39 digits, upper-case digits, letters past f, a missing weekday
    assert!(match_hash_line("From aaaaaaaaaaaaaaaaaaaaaaaaaaaaaaaaaaaaaaa Mon Jan 2 03:04:05 2023").is_none());
    assert!(match_hash_line("From AAAAAAAAAAAAAAAAAAAAAAAAAAAAAAAAAAAAAAAA Mon Jan 2 03:04:05 2023").is_none());
    assert!(match_hash_line("From gggggggggggggggggggggggggggggggggggggggg Mon Jan 2 03:04:05 2023").is_none());
    assert!(match_hash_line("From aaaaaaaaaaaaaaaaaaaaaaaaaaaaaaaaaaaaaaaa Jan 2 03:04:05 2023").is_none());
    assert!(match_hash_line("From aaaaaaaaaaaaaaaaaaaaaaaaaaaaaaaaaaaaaaaa Mon Jan 2 3:04:05 2023").is_none());
    assert!(match_hash_line("").is_none());
}

#[test]
fn author_line_shapes() {
    assert_eq!(match_author_line(AUTHOR_LINE).unwrap(), "J. Doe <j@example.com>");
    assert_eq!(match_author_line("From: x").unwrap(), "x");
    assert!(match_author_line("From: ").is_none());
    assert!(match_author_line("From:x").is_none());
    assert!(match_author_line(HASH_LINE).is_none());
}

#[test]
fn date_line_shapes() {
    assert_eq!(match_date_line(DATE_LINE).unwrap(), "2 Jan 2023 03:04:05 -0500");
    assert_eq!(
        match_date_line("Date: Fri, 17 Mar 2017 10:00:59 -0700").unwrap(),
        "17 Mar 2017 10:00:59 -0700"
    );
    assert_eq!(
        match_date_line("Date: Fri, 17 Mar 2017 10:00:59 +0100").unwrap(),
        "17 Mar 2017 10:00:59 +0100"
    );
    assert!(match_date_line("Date: Fri, 17 Mar 2017 10:00:59 ~0100").is_none());
    assert!(match_date_line("Date: Fri 17 Mar 2017 10:00:59 -0700").is_none());
    assert!(match_date_line("Date: Fri, 17 Mar 17 10:00:59 -0700").is_none());
    assert!(match_date_line("Date: Fri, Mar 2017 10:00:59 -0700").is_none());
}

#[test]
fn subject_line_shapes() {
    assert_eq!(match_subject_line(SUBJECT_LINE).unwrap(), "Fix bug");
    assert_eq!(match_subject_line("Subject: [PATCH] Add x").unwrap(), "Add x");
    assert_eq!(match_subject_line("Subject: [PATCH 03/12] a [b] c").unwrap(), "a [b] c");
    assert_eq!(match_subject_line("Subject: [PATCH12] y").unwrap(), "y");
    assert_eq!(match_subject_line("Subject: [PATCH //] z").unwrap(), "z");
    assert!(match_subject_line("Subject: [PATCH v2] Add x").is_none());
    assert!(match_subject_line("Subject: [PATCH 1/2/3] Add x").is_none());
    assert!(match_subject_line("Subject: [PATCH]  ").is_some());
    assert!(match_subject_line("Subject: [PATCH] ").is_none());
    assert!(match_subject_line("Subject: [PATCH  1] x").is_none());
    assert!(match_subject_line("Title: Fix bug").is_none());
}

#[test]
fn delimiter_line_shapes() {
    assert!(is_delimiter_line("---"));
    assert!(!is_delimiter_line("----"));
    assert!(!is_delimiter_line("-- "));
    assert!(!is_delimiter_line(""));
}

#[test]
fn error_descriptions_name_the_stage() {
    assert_eq!(ParseError::InvalidHashLine.describe(), "Invalid hash line.");
    assert_eq!(ParseError::InvalidAuthorLine.describe(), "Invalid author line.");
    assert_eq!(ParseError::InvalidDateLine.describe(), "Invalid date line.");
    assert_eq!(ParseError::InvalidSubjectLine.describe(), "Invalid subject line.");
    assert_eq!(ParseError::UnterminatedMessage.describe(), "Message is not terminated.");
}

#[test]
fn apply_stops_at_first_failure() {
    let mut second = sample();
    second[3] = "Subject: [PATCH 2/3] Second".to_string();
    let mut third = sample();
    third[3] = "Subject: [PATCH 3/3] Third".to_string();
    let patches = vec![
        parse(&sample(), None).unwrap(),
        parse(&second, None).unwrap(),
        parse(&third, None).unwrap(),
    ];
    let seen = std::cell::RefCell::new(Vec::new());
    let all = apply_patches(&patches, 5, "1", |p: &Patch, n: usize, s: &str| {
        seen.borrow_mut().push((p.message.clone(), n, s.to_string()));
        n != 6
    });
    assert!(!all);
    assert_eq!(
        *seen.borrow(),
        vec![
            ("Fix bug\n\nFixes the thing.\n".to_string(), 5, "1".to_string()),
            ("Second\n\nFixes the thing.\n".to_string(), 6, "1".to_string()),
        ]
    );
    let count = std::cell::Cell::new(0usize);
    assert!(apply_patches(&patches, 1, "0", |_: &Patch, _: usize, _: &str| {
        count.set(count.get() + 1);
        true
    }));
    assert_eq!(count.get(), 3);
    assert!(apply_patches(&Vec::new(), 1, "0", |_: &Patch, _: usize, _: &str| false));
}

#[test]
fn positive_offset_date_parses() {
    let mut lines = sample();
    lines[2] = "Date: Mon, 2 Jan 2023 08:04:05 +0000".to_string();
    let p = parse(&lines, None).unwrap();
    assert_eq!(p.orig_date, "2 Jan 2023 08:04:05 +0000");
    lines[3] = "Title: Fix bug".to_string();
    assert_eq!(parse(&lines, None).err(), Some(ParseError::InvalidSubjectLine));
}

#[test]
fn scanner_stops_at_delimiter() {
    let mut scanner = PatchScanner::new("patches/0001-fix.patch", Some("Jane <jane@example.com>"));
    let lines = sample();
    let mut used = 0;
    for line in lines.iter() {
        if scanner.is_done() {
            break;
        }
        scanner.step(line);
        used += 1;
    }
    assert_eq!(used, 7);
    scanner.step("ignored");
    let p = scanner.finish().unwrap();
    assert_eq!(
        p.message,
        "Fix bug\n\nFixes the thing.\nSigned-off-by: Jane <jane@example.com>\n"
    );
    assert_eq!(p.hash, "a".repeat(40));
}

#[test]
fn scanner_stops_at_bad_header() {
    let mut scanner = PatchScanner::new("p", None);
    scanner.step(HASH_LINE);
    assert!(!scanner.is_done());
    scanner.step("Author: x");
    assert!(scanner.is_done());
    scanner.step(DATE_LINE);
    assert_eq!(scanner.finish().err(), Some(ParseError::InvalidAuthorLine));
    let unfinished = PatchScanner::new("p", None);
    assert!(!unfinished.is_done());
    assert_eq!(unfinished.finish().err(), Some(ParseError::UnterminatedMessage));
}

#[test]
fn apply_numbers_reach_the_largest_start() {
    let patches = vec![parse(&sample(), None).unwrap()];
    let seen = std::cell::Cell::new(0usize);
    assert!(apply_patches(&patches, usize::MAX, "0", |_: &Patch, n: usize, _: &str| {
        seen.set(n);
        true
    }));
    assert_eq!(seen.get(), usize::MAX);
}
