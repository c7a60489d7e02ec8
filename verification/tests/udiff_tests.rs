use difflib::unified_diff;
use regex::Regex;
use sad::udiff::{udiff, DiffRange, DiffRanges, Diffs, Patchable, Picker, Selection};

fn sample_texts() -> Vec<String> {
    let mut texts = Vec::new();
    texts.push(String::from(
        "use std::collections::HashSet;\nuse std::fmt;\n\nfn first() -> usize {\n    1\n}\n\nfn second() -> usize {\n    2\n}\n\nfn third() -> std::io::Result<()> {\n    Ok(())\n}\n\nfn fourth() {\n    let x = 4;\n    let y = x + 1;\n    let z = y + 1;\n    let w = z + 1;\n    let v = w + 1;\n    let u = v + 1;\n    print(u);\n    std::mem::drop(u);\n}\n",
    ));
    texts.push(String::from("nothing to replace here\nnor here\n"));
    texts.push(String::from("mod a;\nmod b;\nuse std::env;\nmod c;\nmod d;\n"));
    let mut long = String::new();
    for i in 0..450 {
        if i % 37 == 5 {
            long.push_str("    let v = std::vec::Vec::new();\n");
        } else if i % 3 == 0 {
            long.push_str("}\n");
        } else {
            long.push_str(&format!("    let item{} = {};\n", i, i * 7));
        }
    }
    texts.push(long);
    texts
}

fn odd_texts() -> Vec<String> {
    vec![
        String::from("std\n"),
        String::from("a line\nstd at the end without newline"),
        String::from("first std\r\nsecond line\r\nthird std\r\nfourth\r\nfifth\r\n"),
        String::new(),
        String::from("\n\nstd\n\n"),
        String::from("std"),
    ]
}

fn regexes() -> Vec<(Regex, String)> {
    vec![("std", "owo")]
        .into_iter()
        .map(|(s1, s2)| (Regex::new(s1).unwrap(), s2.to_string()))
        .collect::<Vec<(Regex, String)>>()
}

fn diffs() -> Vec<(String, String)> {
    diffs_of(sample_texts())
}

fn odd_diffs() -> Vec<(String, String)> {
    diffs_of(odd_texts())
}

fn diffs_of(texts: Vec<String>) -> Vec<(String, String)> {
    let regexes = regexes();
    let mut acc = Vec::new();
    for text in texts {
        for re in &regexes {
            let before = text.clone();
            let after = re.0.replace_all(text.as_str(), re.1.as_str());
            acc.push((before, after.to_string()))
        }
    }
    acc
}

fn with_newlines(text: &str) -> String {
    let mut joined = String::new();
    for line in text.lines() {
        joined.push_str(line);
        joined.push('\n');
    }
    joined
}

#[test]
fn patch() {
    let diffs = diffs();
    for (before, after) in diffs {
        let unified = 3;
        let ranges: DiffRanges = Picker::new(unified, &before, &after);
        let rangeset = Selection::of(ranges);
        let diffs: Diffs = Patchable::new(unified, &before, &after);
        let patched = diffs.patch(&rangeset, &before);
        assert_eq!(after, patched);
    }
}

#[test]
fn patch_of_texts_with_other_line_ends_gives_the_lines_with_newlines() {
    for (before, after) in odd_diffs() {
        let unified = 3;
        let ranges: DiffRanges = Picker::new(unified, &before, &after);
        let diffs: Diffs = Patchable::new(unified, &before, &after);
        assert_eq!(diffs.patch(&Selection::of(ranges), &before), with_newlines(&after));
        assert_eq!(diffs.patch(&Selection::new(), &before), with_newlines(&before));
    }
}

#[test]
fn unified() {
    let mut diffs = diffs();
    diffs.extend(odd_diffs());
    let mut hunks_seen = 0;
    for (before, after) in diffs {
        let unified = 3;
        let bb = before.lines().collect::<Vec<&str>>();
        let aa = after.lines().collect::<Vec<&str>>();
        let canon = unified_diff(&bb, &aa, "", "", "", "", unified);
        let imp = udiff(None, unified, "", &before, &after);
        let head = "\ndiff --git  \n--- \n+++ ";
        assert!(imp.starts_with(head));
        let body = &imp[head.len()..];
        if canon.is_empty() {
            assert_eq!(body, "");
            continue;
        }
        assert_eq!(canon[0], "--- \t\n");
        assert_eq!(canon[1], "+++ \t\n");
        let mut expected = String::new();
        for line in &canon[2..] {
            expected.push('\n');
            if line.starts_with("@@") {
                hunks_seen += 1;
                let header = line.trim_end_matches('\n');
                let ranges: Vec<&str> = header
                    .trim_start_matches("@@ -")
                    .trim_end_matches(" @@")
                    .split(" +")
                    .collect();
                assert_eq!(ranges.len(), 2);
                expected.push_str("@@ -");
                expected.push_str(&with_length(ranges[0]));
                expected.push_str(" +");
                expected.push_str(&with_length(ranges[1]));
                expected.push_str(" @@");
            } else {
                expected.push_str(line);
            }
        }
        assert_eq!(expected, body);
    }
    assert!(hunks_seen >= 5);
}

fn with_length(range: &str) -> String {
    if range.contains(',') {
        let parts: Vec<&str> = range.split(',').collect();
        if parts[1] == "0" {
            let start: usize = parts[0].parse().unwrap();
            format!("{},0", start + 1)
        } else {
            range.to_string()
        }
    } else {
        format!("{},1", range)
    }
}

#[test]
fn unified_matches_the_reference_text_for_text_where_hunks_span_several_lines() {
    let before = "one\ntwo\nthree\nfour\nfive\nsix\nseven\neight\nnine\nten\n";
    let after = "one\ntwo\nthree\nfour\nFIVE\nsix\nseven\neight\nnine\nten\n";
    let bb = before.lines().collect::<Vec<&str>>();
    let aa = after.lines().collect::<Vec<&str>>();
    let canon = unified_diff(&bb, &aa, "", "", "", "", 3);
    let canon_hunks: Vec<String> =
        canon[2..].iter().map(|l| l.trim_end_matches('\n').to_string()).collect();
    let imp = udiff(None, 3, "", before, after);
    let imp_lines: Vec<String> = imp.split('\n').map(|l| l.to_string()).collect();
    assert_eq!(imp_lines[0], "");
    assert_eq!(imp_lines[1], "diff --git  ");
    assert_eq!(imp_lines[2], "--- ");
    assert_eq!(imp_lines[3], "+++ ");
    assert_eq!(&imp_lines[4..], &canon_hunks[..]);
}

#[test]
fn udiff_writes_the_exact_document() {
    let before = "a\nb\nc\nd\ne\nf\ng\nh\n";
    let after = "a\nb\nc\nD\ne\nf\ng\nh\n";
    let text = udiff(None, 2, "file.txt", before, after);
    assert_eq!(
        text,
        "\ndiff --git file.txt file.txt\n--- file.txt\n+++ file.txt\n@@ -2,5 +2,5 @@\n b\n c\n-d\n+D\n e\n f"
    );
}

#[test]
fn udiff_shows_deletions_before_insertions() {
    let before = "keep\nold one\nold two\nend\n";
    let after = "keep\nnew one\nend\nadded\n";
    let text = udiff(None, 1, "x", before, after);
    assert_eq!(
        text,
        "\ndiff --git x x\n--- x\n+++ x\n@@ -1,4 +1,4 @@\n keep\n-old one\n-old two\n+new one\n end\n+added"
    );
}

#[test]
fn udiff_of_a_pure_insertion_and_a_pure_deletion() {
    let text = udiff(None, 0, "n", "a\nb\n", "a\nnew\nb\n");
    assert_eq!(text, "\ndiff --git n n\n--- n\n+++ n\n@@ -2,0 +2,1 @@\n+new");
    let text = udiff(None, 0, "n", "a\nold\nb\n", "a\nb\n");
    assert_eq!(text, "\ndiff --git n n\n--- n\n+++ n\n@@ -2,1 +2,0 @@\n-old");
}

#[test]
fn no_op_diff_has_no_hunks_and_only_the_heading() {
    for text in ["", "one line\n", "a\nb\nc\n", "no newline at end"] {
        for unified in [0usize, 1, 3, 10] {
            let ranges: DiffRanges = Picker::new(unified, text, text);
            assert!(ranges.is_empty());
            let diffs: Diffs = Patchable::new(unified, text, text);
            assert!(diffs.is_empty());
            assert_eq!(udiff(None, unified, "same", text, text), "\ndiff --git same same\n--- same\n+++ same");
        }
    }
}

#[test]
fn texts_with_the_same_lines_have_no_hunks() {
    let ranges: DiffRanges = Picker::new(3, "a\r\nb", "a\nb\n");
    assert!(ranges.is_empty());
    assert_eq!(udiff(None, 3, "", "a\r\nb", "a\nb\n"), "\ndiff --git  \n--- \n+++ ");
}

#[test]
fn selective_patch_applies_one_hunk() {
    let before = "a\nb\nc\nd\n";
    let after = "a\nX\nc\nY\n";
    let ranges: DiffRanges = Picker::new(0, before, after);
    assert_eq!(
        ranges,
        vec![
            DiffRange { before: (1, 1), after: (1, 1) },
            DiffRange { before: (3, 1), after: (3, 1) },
        ]
    );
    let diffs: Diffs = Patchable::new(0, before, after);
    assert_eq!(diffs.len(), 2);
    assert_eq!(diffs[0].range(), ranges[0]);
    assert_eq!(diffs[0].new_lines(), &vec![String::from("X")]);
    assert_eq!(diffs[1].range(), ranges[1]);
    assert_eq!(diffs[1].new_lines(), &vec![String::from("Y")]);
    let first = Selection::of(vec![ranges[0]]);
    assert_eq!(diffs.patch(&first, before), "a\nX\nc\nd\n");
    let second = Selection::of(vec![ranges[1]]);
    assert_eq!(diffs.patch(&second, before), "a\nb\nc\nY\n");
    let both = Selection::of(ranges.clone());
    assert_eq!(diffs.patch(&both, before), after);
    assert_eq!(diffs.patch(&Selection::new(), before), before);
}

#[test]
fn changes_one_line_apart_share_a_hunk_with_one_line_of_context() {
    let before = "a\nb\nc\nd\n";
    let after = "a\nX\nc\nY\n";
    let ranges: DiffRanges = Picker::new(1, before, after);
    assert_eq!(ranges, vec![DiffRange { before: (0, 4), after: (0, 4) }]);
    let diffs: Diffs = Patchable::new(1, before, after);
    assert_eq!(diffs.len(), 1);
    assert_eq!(diffs.patch(&Selection::of(ranges), before), after);
    assert_eq!(diffs.patch(&Selection::new(), before), before);
}

#[test]
fn changes_far_apart_make_two_hunks_with_one_line_of_context() {
    let before = "a\nb\nc\nd\ne\nf\ng\n";
    let after = "a\nX\nc\nd\ne\nY\ng\n";
    let ranges: DiffRanges = Picker::new(1, before, after);
    assert_eq!(
        ranges,
        vec![
            DiffRange { before: (0, 3), after: (0, 3) },
            DiffRange { before: (4, 3), after: (4, 3) },
        ]
    );
    let diffs: Diffs = Patchable::new(1, before, after);
    let first = Selection::of(vec![ranges[0]]);
    assert_eq!(diffs.patch(&first, before), "a\nX\nc\nd\ne\nf\ng\n");
    let second = Selection::of(vec![ranges[1]]);
    assert_eq!(diffs.patch(&second, before), "a\nb\nc\nd\ne\nY\ng\n");
    let shown = udiff(Some(&second), 1, "t", before, after);
    assert_eq!(shown, "\ndiff --git t t\n--- t\n+++ t\n@@ -5,3 +5,3 @@\n e\n-f\n+Y\n g");
    let none = udiff(Some(&Selection::new()), 1, "t", before, after);
    assert_eq!(none, "\ndiff --git t t\n--- t\n+++ t");
}

#[test]
fn round_trip_with_empty_selection() {
    for (before, after) in diffs() {
        for unified in [0usize, 1, 3, 7] {
            let diffs: Diffs = Patchable::new(unified, &before, &after);
            let patched = diffs.patch(&Selection::new(), &before);
            assert_eq!(patched, before);
        }
    }
    let diffs: Diffs = Patchable::new(3, "a\nb\n", "a\nc\n");
    assert_eq!(diffs.patch(&Selection::new(), "a\nb\n"), "a\nb\n");
}

#[test]
fn round_trip_with_full_selection() {
    for (before, after) in diffs() {
        for unified in [0usize, 1, 3, 7] {
            let ranges: DiffRanges = Picker::new(unified, &before, &after);
            let diffs: Diffs = Patchable::new(unified, &before, &after);
            let patched = diffs.patch(&Selection::of(ranges), &before);
            assert_eq!(patched, after);
        }
    }
}

#[test]
fn round_trip_of_texts_that_share_nothing() {
    let before = "one\ntwo\nthree\n";
    let after = "uno\ndos\n";
    let ranges: DiffRanges = Picker::new(3, before, after);
    assert_eq!(ranges, vec![DiffRange { before: (0, 3), after: (0, 2) }]);
    let diffs: Diffs = Patchable::new(3, before, after);
    assert_eq!(diffs.patch(&Selection::of(ranges), before), after);
    assert_eq!(diffs.patch(&Selection::new(), before), before);
    let from_empty: Diffs = Patchable::new(3, "", after);
    let keys: DiffRanges = Picker::new(3, "", after);
    assert_eq!(keys, vec![DiffRange { before: (0, 0), after: (0, 2) }]);
    assert_eq!(from_empty.patch(&Selection::of(keys), ""), after);
    assert_eq!(from_empty.patch(&Selection::new(), ""), "");
}

#[test]
fn patch_ends_every_line_with_a_newline() {
    let before = "a\nb";
    let after = "a\nc";
    let ranges: DiffRanges = Picker::new(3, before, after);
    let diffs: Diffs = Patchable::new(3, before, after);
    assert_eq!(diffs.patch(&Selection::new(), before), "a\nb\n");
    assert_eq!(diffs.patch(&Selection::of(ranges), before), "a\nc\n");
}

#[test]
fn ranges_cover_the_text_in_order() {
    let mut all = diffs();
    all.extend(odd_diffs());
    for (before, after) in all {
        for unified in [0usize, 1, 3] {
            let ranges: DiffRanges = Picker::new(unified, &before, &after);
            let count = before.lines().count();
            let mut prev_end = 0;
            let mut prev_start = None;
            for range in &ranges {
                assert!(range.before.0 >= prev_end);
                if let Some(start) = prev_start {
                    assert!(range.before.0 > start);
                }
                prev_start = Some(range.before.0);
                prev_end = range.before.0 + range.before.1;
                assert!(prev_end <= count);
            }
        }
    }
}

#[test]
fn diff_range_header_counts_lines_from_one() {
    let range = DiffRange { before: (0, 7), after: (0, 7) };
    assert_eq!(range.to_string(), "@@ -1,7 +1,7 @@");
    let range = DiffRange { before: (41, 0), after: (9, 120) };
    assert_eq!(range.to_string(), "@@ -42,0 +10,120 @@");
    let range = DiffRange { before: (usize::MAX, usize::MAX), after: (99, 1000) };
    let max = usize::MAX as u128;
    assert_eq!(range.to_string(), format!("@@ -{},{} +100,1000 @@", max + 1, max));
}

#[test]
fn selection_holds_what_was_put_in() {
    let a = DiffRange { before: (1, 2), after: (1, 3) };
    let b = DiffRange { before: (1, 2), after: (1, 4) };
    let mut selection = Selection::new();
    assert!(!selection.contains(&a));
    selection.insert(a);
    assert!(selection.contains(&a));
    assert!(!selection.contains(&b));
    selection.insert(b);
    selection.insert(a);
    assert!(selection.contains(&a));
    assert!(selection.contains(&b));
    let of = Selection::of(vec![b]);
    assert!(of.contains(&b));
    assert!(!of.contains(&a));
    assert!(a.same(&a));
    assert!(!a.same(&b));
}
