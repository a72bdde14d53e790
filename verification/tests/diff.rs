//! The diff reporter.

use token_snapshot::diff::edit_script;
use token_snapshot::diff::file_diff;
use token_snapshot::diff::named_diff;
use token_snapshot::diff::split_lines;
use token_snapshot::diff::tree_diff;
use token_snapshot::diff::unified_diff;
use token_snapshot::diff::Edit;
use token_snapshot::listing::standing;
use token_snapshot::listing::DirectoryListing;
use token_snapshot::listing::Standing;
use token_snapshot::text::chars_of;

fn lines(text: &str) -> Vec<Vec<char>> {
    split_lines(&chars_of(text))
}

fn numbered(n: usize) -> String {
    (1..=n).map(|i| format!("line {}\n", i)).collect()
}

#[test]
fn a_text_is_split_after_each_line_feed() {
    let split = |text: &str| -> Vec<String> {
        lines(text).iter().map(|line| line.iter().collect()).collect()
    };
    assert_eq!(split(""), Vec::<String>::new());
    assert_eq!(split("a"), vec!["a"]);
    assert_eq!(split("a\n"), vec!["a\n"]);
    assert_eq!(split("a\nb"), vec!["a\n", "b"]);
    assert_eq!(split("\n\na\n"), vec!["\n", "\n", "a\n"]);
}

#[test]
fn equal_texts_have_no_diff() {
    assert_eq!(unified_diff("", ""), "");
    assert_eq!(unified_diff("a\nb\n", "a\nb\n"), "");
    assert_eq!(unified_diff("a", "a"), "");
    assert_eq!(file_diff("src/lib.rs", &numbered(30), &numbered(30)), "");
}

#[test]
fn a_changed_line_stands_between_three_lines_of_context() {
    let before = numbered(12);
    let after = before.replace("line 7\n", "line seven\n");
    assert_eq!(
        unified_diff(&before, &after),
        "--- Original\n+++ Updated\n@@ -4,7 +4,7 @@\n line 4\n line 5\n line 6\n-line 7\n+line seven\n line 8\n line 9\n line 10\n"
    );
    assert_eq!(
        named_diff("a/x", "b/x", &before, &after),
        "--- a/x\n+++ b/x\n@@ -4,7 +4,7 @@\n line 4\n line 5\n line 6\n-line 7\n+line seven\n line 8\n line 9\n line 10\n"
    );
}

#[test]
fn changes_far_apart_stand_in_hunks_of_their_own() {
    let before = numbered(20);
    let after = before.replace("line 2\n", "").replace("line 17\n", "line 17\nline 17b\n");
    assert_eq!(
        unified_diff(&before, &after),
        "--- Original\n+++ Updated\n@@ -1,5 +1,4 @@\n line 1\n-line 2\n line 3\n line 4\n line 5\n@@ -15,6 +14,7 @@\n line 15\n line 16\n line 17\n+line 17b\n line 18\n line 19\n line 20\n"
    );
}

#[test]
fn changes_six_lines_apart_share_a_hunk() {
    let before = numbered(12);
    let near = before.replace("line 2\n", "two\n").replace("line 9\n", "nine\n");
    assert_eq!(
        unified_diff(&before, &near),
        "--- Original\n+++ Updated\n@@ -1,12 +1,12 @@\n line 1\n-line 2\n+two\n line 3\n line 4\n line 5\n line 6\n line 7\n line 8\n-line 9\n+nine\n line 10\n line 11\n line 12\n"
    );
    let far = before.replace("line 2\n", "two\n").replace("line 10\n", "ten\n");
    assert_eq!(
        unified_diff(&before, &far),
        "--- Original\n+++ Updated\n@@ -1,5 +1,5 @@\n line 1\n-line 2\n+two\n line 3\n line 4\n line 5\n@@ -7,6 +7,6 @@\n line 7\n line 8\n line 9\n-line 10\n+ten\n line 11\n line 12\n"
    );
}

#[test]
fn a_range_of_one_line_has_no_count_and_an_empty_range_names_the_line_before() {
    assert_eq!(unified_diff("a\n", "b\n"), "--- Original\n+++ Updated\n@@ -1 +1 @@\n-a\n+b\n");
    assert_eq!(unified_diff("", "a\n"), "--- Original\n+++ Updated\n@@ -0,0 +1 @@\n+a\n");
    assert_eq!(unified_diff("a\nb\n", ""), "--- Original\n+++ Updated\n@@ -1,2 +0,0 @@\n-a\n-b\n");
    assert_eq!(
        unified_diff("a\nb\n", "a\nx\ny\nb\n"),
        "--- Original\n+++ Updated\n@@ -1,2 +1,4 @@\n a\n+x\n+y\n b\n"
    );
}

#[test]
fn a_last_line_without_line_feed_is_noted() {
    assert_eq!(
        unified_diff("a\nb", "a\nc"),
        "--- Original\n+++ Updated\n@@ -1,2 +1,2 @@\n a\n-b\n\\ No newline at end of file\n+c\n\\ No newline at end of file\n"
    );
    assert_eq!(
        unified_diff("a\n", "a"),
        "--- Original\n+++ Updated\n@@ -1 +1 @@\n-a\n+a\n\\ No newline at end of file\n"
    );
}

#[test]
#[allow(non_snake_case)]
fn as_many_lines_are_kept_as_can_be() {
    let script = |before: &str, after: &str| edit_script(&lines(before), &lines(after));
    let (K, D, I) = (Edit::Keep, Edit::Delete, Edit::Insert);
    assert_eq!(script("", ""), vec![]);
    assert_eq!(script("a\nb\n", "a\nb\n"), vec![K, K]);
    assert_eq!(script("a\n", "b\n"), vec![D, I]);
    assert_eq!(script("a\nb\nc\n", "a\nc\n"), vec![K, D, K]);
    assert_eq!(script("a\nc\n", "a\nb\nc\n"), vec![K, I, K]);
    assert_eq!(script("x\na\nb\ny\n", "x\nb\na\ny\n"), vec![K, D, K, I, K]);
    assert_eq!(script("a\nb\nc\nd\n", "b\nd\ne\n"), vec![D, K, D, K, I]);
    assert_eq!(script("a\na\n", "a\n"), vec![K, D]);
    assert_eq!(script("", "a\nb\n"), vec![I, I]);
}

#[test]
fn a_tree_is_listed_in_order_and_indented_by_depth() {
    let mut before = DirectoryListing::new();
    for path in ["src/lib.rs", "Cargo.toml", "src"] {
        before.insert(path);
    }
    let mut after = DirectoryListing::new();
    for path in ["src/snapshots/t.snap", "src", "src/snapshots", "Cargo.toml", "src/lib.rs", "src"] {
        after.insert(path);
    }
    assert_eq!(before.to_paths(), vec!["Cargo.toml", "src", "src/lib.rs"]);
    assert_eq!(after.len(), 5);
    assert_eq!(after.path(4), "src/snapshots/t.snap");
    assert_eq!(
        tree_diff(&before, &after),
        "--- Original file tree\n+++ Updated file tree\n@@ -1,3 +1,5 @@\n   Cargo.toml\n   src\n     src/lib.rs\n+    src/snapshots\n+      src/snapshots/t.snap\n"
    );
    assert_eq!(
        tree_diff(&after, &before),
        "--- Original file tree\n+++ Updated file tree\n@@ -1,5 +1,3 @@\n   Cargo.toml\n   src\n     src/lib.rs\n-    src/snapshots\n-      src/snapshots/t.snap\n"
    );
    assert_eq!(tree_diff(&before, &before), "");
    assert_eq!(tree_diff(&DirectoryListing::new(), &DirectoryListing::new()), "");
}

#[test]
fn a_listing_holds_each_path_once_in_ascending_order() {
    let paths: Vec<String> =
        ["b", "a/b", "a", "b", "B", "a.rs", "", "ab"].iter().map(|path| path.to_string()).collect();
    let listing = DirectoryListing::from_paths(&paths);
    assert_eq!(listing.to_paths(), vec!["", "B", "a", "a.rs", "a/b", "ab", "b"]);
    let mut sorted = paths.clone();
    sorted.sort();
    sorted.dedup();
    assert_eq!(listing.to_paths(), sorted);
}

#[test]
fn paths_are_ordered_character_by_character() {
    let order = |a: &str, b: &str| standing(&chars_of(a), &chars_of(b));
    assert_eq!(order("a", "b"), Standing::Before);
    assert_eq!(order("b", "a"), Standing::After);
    assert_eq!(order("a", "a"), Standing::Same);
    assert_eq!(order("", ""), Standing::Same);
    assert_eq!(order("", "a"), Standing::Before);
    assert_eq!(order("ab", "a"), Standing::After);
    assert_eq!(order("a/b", "ab"), Standing::Before);
    assert_eq!(order("Z", "a"), Standing::Before);
    assert_eq!(order("é", "z"), Standing::After);
}
