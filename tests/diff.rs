use giga::diff::PatchType::{Added, Changed, Deleted};
use giga::diff::{classify, compute_diff, parse_diff_result, untracked_marks, Patch, PatchType, Patches};

const LONG_DIFF: &str = "1c1
< use std::io;
---
> use std::io::Write;
5,14c5,14
< old five
---
> new five
38c38
< old
---
> new
40d39
< gone
42c42
< a
---
> b
45c45
< c
---
> d
48a49,50
> added one
> added two
55a57,97
> many
100a102
> one more
107d105
< removed
125,161c125,161
< old block
---
> new block
";

#[test]
fn git_test_parse_diff_result() {
    let diff = "1c1,3
< Hello, World !
---
> Hello
> World
> ";
    let expected = vec![Patch { start: 0, count: 3, patch_type: PatchType::Changed }];

    let parsed = parse_diff_result(diff);
    assert!(parsed.is_ok());
    let parsed = parsed.unwrap();
    assert_eq!(parsed, expected);
}

#[test]
fn git_test_long_parse_diff_result() {
    let parsed = parse_diff_result(LONG_DIFF);
    assert!(parsed.is_ok());
    let parsed = parsed.unwrap();
    let expected = vec![
        Patch { start: 0, count: 1, patch_type: Changed },
        Patch { start: 4, count: 10, patch_type: Changed },
        Patch { start: 37, count: 1, patch_type: Changed },
        Patch { start: 38, count: 1, patch_type: Deleted },
        Patch { start: 41, count: 1, patch_type: Changed },
        Patch { start: 44, count: 1, patch_type: Changed },
        Patch { start: 48, count: 2, patch_type: Added },
        Patch { start: 56, count: 41, patch_type: Added },
        Patch { start: 101, count: 1, patch_type: Added },
        Patch { start: 104, count: 1, patch_type: Deleted },
        Patch { start: 124, count: 37, patch_type: Changed },
    ];
    println!("{:?}", parsed);
    assert_eq!(parsed, expected);
}

#[test]
fn mod_test_parse_diff_result() {
    let diff = "1c1,3
< Hello, World !
---
> Hello
> World
> ";
    let expected = vec![Patches::Changed { start: 0, count: 3 }];

    let parsed = parse_diff_result(diff);
    assert!(parsed.is_ok());
    let parsed: Vec<Patches> = parsed.unwrap().iter().map(|p| p.to_patches()).collect();
    assert_eq!(parsed, expected);
}

#[test]
fn mod_test_long_parse_diff_result() {
    let parsed = parse_diff_result(LONG_DIFF);
    assert!(parsed.is_ok());
    let parsed: Vec<Patches> = parsed.unwrap().iter().map(|p| p.to_patches()).collect();
    let expected = vec![
        Patches::Changed { start: 0, count: 1 },
        Patches::Changed { start: 4, count: 10 },
        Patches::Changed { start: 37, count: 1 },
        Patches::Deleted { start: 38 },
        Patches::Changed { start: 41, count: 1 },
        Patches::Changed { start: 44, count: 1 },
        Patches::Added { start: 48, count: 2 },
        Patches::Added { start: 56, count: 41 },
        Patches::Added { start: 101, count: 1 },
        Patches::Deleted { start: 104 },
        Patches::Changed { start: 124, count: 37 },
    ];
    assert_eq!(parsed, expected);
}

#[test]
fn unreadable_header_is_an_error() {
    assert!(parse_diff_result("1c\n").is_err());
    assert!(parse_diff_result("1c99999999999999999999999\n").is_err());
    assert_eq!(parse_diff_result("no header\n< x\n"), Ok(vec![]));
}

#[test]
fn test_get_diff_result_new_file() {
    let marks = compute_diff("", "Hello, World !").unwrap();
    assert_eq!(marks.len(), 1);
    assert_eq!(marks.get(&0), Some(&PatchType::Added));
}

#[test]
fn diff_marks_changes_additions_deletions() {
    let marks = compute_diff("a\nb\nc\n", "a\nB\nc\n").unwrap();
    assert_eq!(marks.len(), 1);
    assert_eq!(marks.get(&1), Some(&PatchType::Changed));

    let marks = compute_diff("a\nc\n", "a\nb\nb2\nc\n").unwrap();
    assert_eq!(marks.get(&1), Some(&PatchType::Added));
    assert_eq!(marks.get(&2), Some(&PatchType::Added));
    assert_eq!(marks.len(), 2);

    let marks = compute_diff("a\nb\nc\n", "a\nc\n").unwrap();
    assert_eq!(marks.len(), 1);
    assert_eq!(marks.get(&1), Some(&PatchType::Deleted));

    let same = compute_diff("a\nb\n", "a\nb\n").unwrap();
    assert!(same.is_empty());
}

#[test]
fn hunk_classification() {
    assert_eq!(classify(3, 2, 2), Patch { start: 2, count: 2, patch_type: PatchType::Changed });
    assert_eq!(classify(3, 1, 4), Patch { start: 2, count: 4, patch_type: PatchType::Added });
    assert_eq!(classify(3, 4, 1), Patch { start: 3, count: 1, patch_type: PatchType::Deleted });
    assert_eq!(classify(0, 0, 2), Patch { start: 0, count: 2, patch_type: PatchType::Added });
}

#[test]
fn untracked_file_marks_non_empty_lines() {
    let marks = untracked_marks("a\n\nb\n");
    assert_eq!(marks.len(), 2);
    assert_eq!(marks.get(&0), Some(&PatchType::Added));
    assert_eq!(marks.get(&1), None);
    assert_eq!(marks.get(&2), Some(&PatchType::Added));
}
