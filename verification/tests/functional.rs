//! Inline and file-based token snapshots, end to end: a project's source is
//! patched for the value its test produces, and the change is shown as a
//! diff.

use token_snapshot::diff::file_diff;
use token_snapshot::diff::tree_diff;
use token_snapshot::listing::DirectoryListing;
use token_snapshot::patch::patch_source;
use token_snapshot::scan::find_brace_end;
use token_snapshot::scan::find_placeholder;
use token_snapshot::settings::Settings;
use token_snapshot::text::chars_of;
use token_snapshot::tokenstream::pretty_print;
use token_snapshot::tokenstream::tokenize;

/// The files of a small project and what a run of its test left of them.
struct Project {
    files: Vec<(String, String)>,
    updated: Vec<(String, String)>,
}

/// What a run reports.
struct Output {
    success: bool,
    stderr: String,
}

impl Project {
    fn new(files: &[(&str, &str)]) -> Project {
        let files: Vec<(String, String)> =
            files.iter().map(|(path, text)| (path.to_string(), text.to_string())).collect();
        Project { updated: files.clone(), files }
    }

    fn file(&self, path: &str) -> &str {
        &self.files.iter().find(|(name, _)| name == path).unwrap().1
    }

    fn updated_file(&self, path: &str) -> &str {
        &self.updated.iter().find(|(name, _)| name == path).unwrap().1
    }

    /// The tokens that the test in `src/lib.rs` builds: what stands between
    /// the braces after `quote!`.
    fn value(&self) -> String {
        let source = self.file("src/lib.rs");
        let open = source.find("quote! {").unwrap() + "quote! {".len();
        let end = find_brace_end(&chars_of(source), open).unwrap();
        source[open..end - 1].to_string()
    }

    /// Runs the test of the project: compares the value with the inline
    /// literal, or with the snapshot file named in the assertion, and with
    /// `--accept` among the arguments writes what differs.
    fn run(&mut self, args: &[&str]) -> Output {
        let accept = args.contains(&"--accept");
        let settings = Settings::new();
        let source = self.file("src/lib.rs").to_string();
        let tokens = match tokenize(&self.value()) {
            Some(tokens) => tokens,
            None => return Output { success: false, stderr: "value does not tokenize".into() },
        };
        let call = source.find("assert_token_snapshot!(").unwrap();
        if let Some(place) = find_placeholder(&source, call) {
            match patch_source(&settings, &source, place.start, place.end, &tokens) {
                Ok(None) => Output { success: true, stderr: String::new() },
                Ok(Some(text)) => {
                    let diff = file_diff("src/lib.rs", &source, &text);
                    if accept {
                        let slot =
                            self.updated.iter_mut().find(|(name, _)| name == "src/lib.rs").unwrap();
                        slot.1 = text;
                    }
                    Output { success: accept, stderr: diff }
                }
                Err(error) => Output { success: false, stderr: format!("{:?}", error) },
            }
        } else {
            let open = source.find("assert_token_snapshot!(\"").unwrap()
                + "assert_token_snapshot!(\"".len();
            let name = &source[open..open + source[open..].find('"').unwrap()];
            let package = self.file("Cargo.toml");
            let at = package.find("name = \"").unwrap() + "name = \"".len();
            let package = &package[at..at + package[at..].find('"').unwrap()];
            let path = format!("src/snapshots/{}__{}.snap", package, name);
            let text = pretty_print(&settings, &tokens);
            if accept {
                self.updated.push(("Cargo.lock".to_string(), String::new()));
                self.updated.push((path, text));
            }
            Output { success: accept, stderr: String::new() }
        }
    }

    fn diff(&self, path: &str) -> String {
        file_diff(path, self.file(path), self.updated_file(path))
    }

    fn file_tree_diff(&self) -> String {
        tree_diff(&listing(&self.files), &listing(&self.updated))
    }
}

/// The listing of a tree: its files and the directories that hold them.
fn listing(files: &[(String, String)]) -> DirectoryListing {
    let mut paths = DirectoryListing::new();
    for (path, _) in files {
        let mut at = 0;
        while let Some(slash) = path[at..].find('/') {
            paths.insert(&path[..at + slash]);
            at += slash + 1;
        }
        paths.insert(path);
    }
    paths
}

fn manifest(name: &str) -> String {
    format!(
        "\n[package]\nname = \"{}\"\nversion = \"0.1.0\"\nedition = \"2021\"\n\n[dependencies]\nquote = \"1.0\"\nproc-macro2 = \"1.0\"\n",
        name
    )
}

fn joined(lines: &[&str]) -> String {
    let mut text = lines.join("\n");
    if !lines.is_empty() {
        text.push('\n');
    }
    text
}

#[test]
fn test_tokenstream_inline_empty_to_populated() {
    let mut test_project = Project::new(&[
        ("Cargo.toml", &manifest("test_tokenstream_inline_empty")),
        (
            "src/lib.rs",
            r#"
use proc_macro2::TokenStream;
use quote::quote;

#[test]
fn test_token_inline() {
    let tokens: TokenStream = quote! { struct Foo; };
    insta::assert_token_snapshot!(tokens, @{});
}
"#,
        ),
    ]);

    let output = test_project.run(&["test", "--accept", "--", "--nocapture"]);

    assert!(output.success, "Test failed: {}", output.stderr);

    assert_eq!(
        test_project.diff("src/lib.rs"),
        joined(&[
            "--- Original: src/lib.rs",
            "+++ Updated: src/lib.rs",
            "@@ -5,5 +5,5 @@",
            " #[test]",
            " fn test_token_inline() {",
            "     let tokens: TokenStream = quote! { struct Foo; };",
            "-    insta::assert_token_snapshot!(tokens, @{});",
            "+    insta::assert_token_snapshot!(tokens, @{ struct Foo; });",
            " }",
        ])
    );
}

#[test]
fn test_tokenstream_inline_matching() {
    let mut test_project = Project::new(&[
        ("Cargo.toml", &manifest("test_tokenstream_inline_matching")),
        (
            "src/lib.rs",
            r#"
use proc_macro2::TokenStream;
use quote::quote;

#[test]
fn test_token_inline() {
    let tokens: TokenStream = quote! { struct Foo; };
    insta::assert_token_snapshot!(tokens, @{ struct Foo; });
}
"#,
        ),
    ]);

    let output = test_project.run(&["test", "--", "--nocapture"]);

    assert!(output.success, "Test should pass when tokens match: {}", output.stderr);

    assert_eq!(test_project.diff("src/lib.rs"), "");
}

#[test]
fn test_tokenstream_file_based() {
    let mut test_project = Project::new(&[
        ("Cargo.toml", &manifest("test_tokenstream_file_based")),
        (
            "src/lib.rs",
            r#"
use proc_macro2::TokenStream;
use quote::quote;

#[test]
fn test_token_file() {
    let tokens: TokenStream = quote! {
        fn hello() {
            println!("Hello, world!");
        }
    };
    insta::assert_token_snapshot!("my_function", tokens);
}
"#,
        ),
    ]);

    let output = test_project.run(&["test", "--accept", "--", "--nocapture"]);

    assert!(output.success, "Test failed: {}", output.stderr);

    assert_eq!(
        test_project.file_tree_diff(),
        joined(&[
            "--- Original file tree",
            "+++ Updated file tree",
            "@@ -1,3 +1,6 @@",
            "+  Cargo.lock",
            "   Cargo.toml",
            "   src",
            "     src/lib.rs",
            "+    src/snapshots",
            "+      src/snapshots/test_tokenstream_file_based__my_function.snap",
        ])
    );
    assert_eq!(
        test_project.updated_file("src/snapshots/test_tokenstream_file_based__my_function.snap"),
        "fn hello() {\n    println!(\"Hello, world!\");\n}"
    );
}

#[test]
fn test_tokenstream_semantic_comparison() {
    let mut test_project = Project::new(&[
        ("Cargo.toml", &manifest("test_tokenstream_semantic")),
        (
            "src/lib.rs",
            r#"
use proc_macro2::TokenStream;
use quote::quote;

#[test]
fn test_semantic() {
    // Extra whitespace in the quote! should still match
    let tokens: TokenStream = quote! {
        struct    Foo   {
            x  :  i32
        }
    };
    // Reference has different whitespace but same structure
    insta::assert_token_snapshot!(tokens, @{ struct Foo { x: i32 } });
}
"#,
        ),
    ]);

    let output = test_project.run(&["test", "--", "--nocapture"]);

    assert!(
        output.success,
        "Semantic comparison should pass despite whitespace differences: {}",
        output.stderr
    );

    assert_eq!(test_project.diff("src/lib.rs"), "");
}

#[test]
fn test_tokenstream_multiline_inline() {
    let mut test_project = Project::new(&[
        ("Cargo.toml", &manifest("test_tokenstream_multiline")),
        (
            "src/lib.rs",
            r#"
use proc_macro2::TokenStream;
use quote::quote;

#[test]
fn test_multiline() {
    let tokens: TokenStream = quote! {
        impl MyTrait for MyStruct {
            fn method(&self) -> i32 {
                42
            }
        }
    };
    insta::assert_token_snapshot!(tokens, @{});
}
"#,
        ),
    ]);

    let output = test_project.run(&["test", "--accept", "--", "--nocapture"]);

    assert!(output.success, "Test failed: {}", output.stderr);

    assert_eq!(
        test_project.diff("src/lib.rs"),
        joined(&[
            "--- Original: src/lib.rs",
            "+++ Updated: src/lib.rs",
            "@@ -11,5 +11,11 @@",
            "             }",
            "         }",
            "     };",
            "-    insta::assert_token_snapshot!(tokens, @{});",
            "+    insta::assert_token_snapshot!(tokens, @{",
            "+        impl MyTrait for MyStruct {",
            "+            fn method(&self) -> i32 {",
            "+                42",
            "+            }",
            "+        }",
            "+    });",
            " }",
        ])
    );
}

#[test]
fn test_tokenstream_single_line_compact_format() {
    let mut test_project = Project::new(&[
        ("Cargo.toml", &manifest("test_tokenstream_single_line")),
        (
            "src/lib.rs",
            r#"
use proc_macro2::TokenStream;
use quote::quote;

#[test]
fn test_single() {
    let tokens: TokenStream = quote! { struct Foo; };
    insta::assert_token_snapshot!(tokens, @{});
}
"#,
        ),
    ]);

    let output = test_project.run(&["test", "--accept", "--", "--nocapture"]);

    assert!(output.success, "Test failed: {}", output.stderr);

    assert_eq!(
        test_project.diff("src/lib.rs"),
        joined(&[
            "--- Original: src/lib.rs",
            "+++ Updated: src/lib.rs",
            "@@ -5,5 +5,5 @@",
            " #[test]",
            " fn test_single() {",
            "     let tokens: TokenStream = quote! { struct Foo; };",
            "-    insta::assert_token_snapshot!(tokens, @{});",
            "+    insta::assert_token_snapshot!(tokens, @{ struct Foo; });",
            " }",
        ])
    );
}

#[test]
fn test_tokenstream_multiline_indentation() {
    let mut test_project = Project::new(&[
        ("Cargo.toml", &manifest("test_tokenstream_multiline_indent")),
        (
            "src/lib.rs",
            r#"
use proc_macro2::TokenStream;
use quote::quote;

#[test]
fn test_multiline_indent() {
    let tokens: TokenStream = quote! {
        pub struct Foo;
        pub struct Bar;
    };
    insta::assert_token_snapshot!(tokens, @{});
}
"#,
        ),
    ]);

    let output = test_project.run(&["test", "--accept", "--", "--nocapture"]);

    assert!(output.success, "Test failed: {}", output.stderr);

    assert_eq!(
        test_project.diff("src/lib.rs"),
        joined(&[
            "--- Original: src/lib.rs",
            "+++ Updated: src/lib.rs",
            "@@ -8,5 +8,8 @@",
            "         pub struct Foo;",
            "         pub struct Bar;",
            "     };",
            "-    insta::assert_token_snapshot!(tokens, @{});",
            "+    insta::assert_token_snapshot!(tokens, @{",
            "+        pub struct Foo;",
            "+        pub struct Bar;",
            "+    });",
            " }",
        ])
    );
}

#[test]
fn test_tokenstream_multiline_separate_line() {
    let mut test_project = Project::new(&[
        ("Cargo.toml", &manifest("test_tokenstream_separate_line")),
        (
            "src/lib.rs",
            r#"
use proc_macro2::TokenStream;
use quote::quote;

#[test]
fn test_separate() {
    let tokens: TokenStream = quote! {
        pub struct Foo;
        pub struct Bar;
    };
    // Multi-line macro call with @{ on a separate, more indented line
    insta::assert_token_snapshot!(
        tokens,
        @{}
    );
}
"#,
        ),
    ]);

    let output = test_project.run(&["test", "--accept", "--", "--nocapture"]);

    assert!(output.success, "Test failed: {}", output.stderr);

    assert_eq!(
        test_project.diff("src/lib.rs"),
        joined(&[
            "--- Original: src/lib.rs",
            "+++ Updated: src/lib.rs",
            "@@ -11,6 +11,9 @@",
            "     // Multi-line macro call with @{ on a separate, more indented line",
            "     insta::assert_token_snapshot!(",
            "         tokens,",
            "-        @{}",
            "+        @{",
            "+            pub struct Foo;",
            "+            pub struct Bar;",
            "+        }",
            "     );",
            " }",
        ])
    );
}

#[test]
fn test_tokenstream_non_expression_fallback() {
    let mut test_project = Project::new(&[
        ("Cargo.toml", &manifest("test_tokenstream_non_expr")),
        (
            "src/lib.rs",
            r#"
use proc_macro2::TokenStream;
use quote::quote;

#[test]
fn test_non_expr() {
    // Vec<u8> is not a valid expression or item, falls back to TokenStream::to_string()
    let tokens: TokenStream = quote! { Vec<u8> };
    insta::assert_token_snapshot!(tokens, @{});
}
"#,
        ),
    ]);

    let output = test_project.run(&["test", "--accept", "--", "--nocapture"]);

    assert!(output.success, "Test failed: {}", output.stderr);

    assert_eq!(
        test_project.diff("src/lib.rs"),
        joined(&[
            "--- Original: src/lib.rs",
            "+++ Updated: src/lib.rs",
            "@@ -6,5 +6,5 @@",
            " fn test_non_expr() {",
            "     // Vec<u8> is not a valid expression or item, falls back to TokenStream::to_string()",
            "     let tokens: TokenStream = quote! { Vec<u8> };",
            "-    insta::assert_token_snapshot!(tokens, @{});",
            "+    insta::assert_token_snapshot!(tokens, @{ Vec < u8 > });",
            " }",
        ])
    );
}

#[test]
fn test_tokenstream_non_expression_semantic_comparison() {
    let mut test_project = Project::new(&[
        ("Cargo.toml", &manifest("test_tokenstream_non_expr_semantic")),
        (
            "src/lib.rs",
            r#"
use proc_macro2::TokenStream;
use quote::quote;

#[test]
fn test_non_expr_semantic() {
    // The snapshot has spaces but quote! normalizes them - should still match
    let tokens: TokenStream = quote! { Vec<u8> };
    insta::assert_token_snapshot!(tokens, @{ Vec < u8 > });
}
"#,
        ),
    ]);

    let output = test_project.run(&["test", "--", "--nocapture"]);

    assert!(
        output.success,
        "Non-expression tokens should match semantically: {}",
        output.stderr
    );

    assert_eq!(test_project.diff("src/lib.rs"), "");
}
