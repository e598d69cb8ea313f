//! The deny list of the passthrough file system.

use ignore::gitignore::GitignoreBuilder;
use mount_deny::gitignore::SHORT_LINE;
use mount_deny::glob::{count_brace_depth, MAX_BRACE_DEPTH};
use mount_deny::line::Verdict;
use mount_deny::passthroughfs::deny::DenyList;
use mount_deny::rules::{check_lines, settle};

fn deny(patterns: &[&str]) -> DenyList {
    build(false, patterns)
}

fn build(case_insensitive: bool, patterns: &[&str]) -> DenyList {
    let owned: Vec<String> = patterns.iter().map(|s| s.to_string()).collect();
    DenyList::new(case_insensitive, &owned)
}

#[test]
fn empty_list_denies_nothing() {
    let list = deny(&[]);
    assert!(!list.matches_basename(b"anything", false));
    assert!(!list.matches_path(b"dir/anything", false));
}

#[test]
fn basename_pattern_matches_anywhere() {
    let list = deny(&[".env", "*.log"]);
    assert!(!list.needs_path_reconstruction());
    assert!(!list.has_dir_only_patterns());
    assert!(list.matches_basename(b".env", false));
    assert!(list.matches_basename(b"debug.log", false));
    assert!(!list.matches_basename(b"env", false));
    assert!(!list.matches_basename(b"keep.log.txt", false));
    assert!(list.matches_path(b"dir/.env", false));
    assert!(list.matches_path(b"dir/debug.log", false));
}

#[test]
fn path_pattern_matches_full_path() {
    let list = deny(&["dir/secret", "**/env.secret"]);
    assert!(list.needs_path_reconstruction());
    assert!(!list.has_dir_only_patterns());
    assert!(list.matches_path(b"dir/secret", false));
    assert!(list.matches_path(b"a/b/c/env.secret", false));
    assert!(!list.matches_path(b"dir/other", false));
    assert!(!list.matches_path(b"secret", false));
}

#[test]
fn path_pattern_does_not_match_basename() {
    let list = deny(&["dir/secret"]);
    assert!(!list.matches_path(b"secret", false));
}

#[test]
fn bracket_pattern_matches() {
    let list = deny(&["[a-z]"]);
    assert!(list.matches_basename(b"a", false));
    assert!(list.matches_basename(b"z", false));
    assert!(!list.matches_basename(b"0", false));
}

#[test]
fn invalid_pattern_is_skipped() {
    let list = deny(&["[a-z"]);
    assert!(!list.matches_basename(b"a", false));
}

#[test]
fn dir_only_path_pattern_matches_directory_but_not_file() {
    let list = deny(&["node_modules/"]);
    assert!(!list.needs_path_reconstruction());
    assert!(list.has_dir_only_patterns());
    assert!(list.matches_basename(b"node_modules", true));
    assert!(!list.matches_basename(b"node_modules", false));
    assert!(list.matches_path(b"node_modules", true));
    assert!(!list.matches_path(b"node_modules", false));
    assert!(!list.matches_path(b"node_modules.js", false));
}

#[test]
fn dir_only_nested_path_pattern_matches_directory_but_not_file() {
    let list = deny(&["sub/node_modules/"]);
    assert!(list.needs_path_reconstruction());
    assert!(list.has_dir_only_patterns());
    assert!(list.matches_path(b"sub/node_modules", true));
    assert!(!list.matches_path(b"sub/node_modules", false));
    assert!(!list.matches_path(b"sub/node_modules.js", false));
}

#[test]
fn interior_slash_pattern_needs_path_reconstruction() {
    let list = deny(&["sub/.env"]);
    assert!(list.needs_path_reconstruction());
    assert!(!list.has_dir_only_patterns());
}

#[test]
fn trailing_slash_dir_only_uses_basename_fast_path() {
    let list = deny(&["node_modules/"]);
    assert!(!list.needs_path_reconstruction());
    assert!(list.has_dir_only_patterns());
    assert!(list.matches_basename(b"node_modules", true));
    assert!(!list.matches_basename(b"node_modules", false));
    assert!(!list.matches_basename(b"node_modules.js", false));
}

#[test]
fn mixed_component_and_path_patterns_set_both_flags() {
    let list = deny(&["node_modules/", "sub/.env"]);
    assert!(list.needs_path_reconstruction());
    assert!(list.has_dir_only_patterns());
}

#[test]
fn negation_enables_allowlist_mode() {
    let list = deny(&["*", "!keep.txt"]);
    assert!(list.matches_basename(b"other.txt", false));
    assert!(!list.matches_basename(b"keep.txt", false));
    assert!(list.matches_basename(b".env", false));
}

#[test]
fn folding_hides_every_case_variant() {
    let list = build(true, &[".env", "*.LOG", "Sub/Dir", "[a-c]x"]);
    for path in [".env", ".ENV", ".Env", "a/.eNv", "x.log", "X.Log", "sub/dir", "SUB/DIR", "BX"] {
        assert!(list.matches_path(path.as_bytes(), false), "{}", path);
    }
    assert!(!list.matches_path(b"env", false));
    assert!(!list.matches_path(b"x/sub/dir", false));
}

#[test]
fn without_folding_case_counts() {
    let list = build(false, &[".env", "*.LOG", "Sub/Dir", "[a-c]x"]);
    for path in [".ENV", ".Env", "x.log", "sub/dir", "BX"] {
        assert!(!list.matches_path(path.as_bytes(), false), "{}", path);
    }
    for path in [".env", "x.LOG", "Sub/Dir", "bx"] {
        assert!(list.matches_path(path.as_bytes(), false), "{}", path);
    }
}

#[test]
fn folding_concerns_ascii_letters_alone() {
    let list = build(true, &["\u{e9}t\u{e9}"]);
    assert!(list.matches_path("\u{e9}T\u{e9}".as_bytes(), false));
    assert!(!list.matches_path("\u{c9}t\u{c9}".as_bytes(), false));
}

#[test]
fn an_interior_slash_is_one_with_text_behind_it() {
    for pattern in ["a/b", "/a", "a/ ", "//a", "a//b/"] {
        assert!(deny(&[pattern]).needs_path_reconstruction(), "{}", pattern);
    }
    for pattern in ["a", "a/", "a//", "/", "//", ""] {
        assert!(!deny(&[pattern]).needs_path_reconstruction(), "{}", pattern);
    }
}

#[test]
fn dir_only_means_ending_in_a_slash() {
    for pattern in ["a/", "a/b/", "/", "!a/"] {
        assert!(deny(&[pattern]).has_dir_only_patterns(), "{}", pattern);
    }
    for pattern in ["a", "a/b", "a/ ", ""] {
        assert!(!deny(&[pattern]).has_dir_only_patterns(), "{}", pattern);
    }
}

#[test]
fn a_slash_behind_which_white_space_stands_is_still_a_directory_mark() {
    let list = deny(&["a/ "]);
    assert!(list.matches_path(b"a", true));
    assert!(!list.matches_path(b"a", false));
}

#[test]
fn without_dir_only_patterns_the_kind_does_not_matter() {
    let list = deny(&["a", "b*", "c/d", "!bb", "**/e"]);
    assert!(!list.has_dir_only_patterns());
    for path in ["a", "x/a", "b", "bb", "c/d", "d", "e", "x/e"] {
        assert_eq!(
            list.matches_path(path.as_bytes(), true),
            list.matches_path(path.as_bytes(), false),
            "{}",
            path
        );
    }
}

#[test]
fn names_suffice_where_no_path_is_needed() {
    let patterns = [
        ".env", "*.log", "?x", "[a-z]", "[0-9]*", "{foo,bar}", "**", "a**b", "!keep.log", "dir/",
        "f*//", "/", "//", "q\\*", "**//", "!",
    ];
    let names = [
        ".env", "x.log", "keep.log", "q", "qx", "7up", "foo", "bar", "ab", "a-b", "dir", "fog",
        "q*", "..", ".", "a.", "...",
    ];
    for fold in [false, true] {
        for first in patterns {
            for second in patterns {
                let list = build(fold, &[first, second]);
                assert!(!list.needs_path_reconstruction());
                for name in names {
                    for dir in ["", ".", "a", "a/b", "/a", "..", ".env", "x.log/y"] {
                        for is_dir in [false, true] {
                            let path = format!("{}/{}", dir, name);
                            assert_eq!(
                                list.matches_path(path.as_bytes(), is_dir),
                                list.matches_basename(name.as_bytes(), is_dir),
                                "{} {} {}",
                                first,
                                second,
                                path
                            );
                        }
                    }
                }
            }
        }
    }
}

#[test]
fn a_class_may_match_a_separator() {
    let list = deny(&["a[!b]c"]);
    assert!(!list.needs_path_reconstruction());
    assert!(list.matches_path(b"a/c", false));
    assert!(!list.matches_basename(b"c", false));
}

#[test]
fn an_escaped_brace_may_let_a_star_match_a_separator() {
    let list = deny(&["a{\\{**}"]);
    assert!(!list.needs_path_reconstruction());
    assert!(list.matches_path(b"a/b", false));
    assert!(!list.matches_basename(b"b", false));
}

#[test]
fn path_patterns_match_no_bare_name() {
    let list = deny(&["dir/secret", "a/*", "b/**", "c/**/d", "*/e", "f?/g"]);
    for name in ["secret", "dir", "a", "b", "d", "e", "g", "f"] {
        assert!(!list.matches_path(name.as_bytes(), true), "{}", name);
    }
    assert!(deny(&["**/e"]).matches_path(b"e", false));
    assert!(deny(&["/e"]).matches_path(b"e", false));
}

#[test]
fn the_last_pattern_that_applies_decides() {
    let list = deny(&["*.log", "!keep.log", "old*"]);
    assert!(list.matches_basename(b"x.log", false));
    assert!(!list.matches_basename(b"keep.log", false));
    assert!(list.matches_basename(b"old.log", false));
    let list = deny(&["!keep.log", "*.log"]);
    assert!(list.matches_basename(b"keep.log", false));
    let list = deny(&["a", "!a/"]);
    assert!(list.matches_basename(b"a", false));
    assert!(!list.matches_basename(b"a", true));
}

#[test]
fn invalid_patterns_leave_the_rest_in_force() {
    for invalid in ["{a", "a}", "[z-a]", "a\\", "# .env", "   ", ""] {
        for patterns in [[invalid, ".env"], [".env", invalid]] {
            let list = deny(&patterns);
            assert!(list.matches_path(b".env", false), "{}", invalid);
            assert!(list.matches_path(b"x/.env", true), "{}", invalid);
            assert!(!list.matches_path(b"a", false), "{}", invalid);
            assert!(!list.matches_path(b"{a", false), "{}", invalid);
        }
        assert!(!deny(&[invalid]).matches_path(b".env", false), "{}", invalid);
    }
}

#[test]
fn flags_heed_invalid_patterns_too() {
    let list = deny(&["{a/b", "[z-a]/"]);
    assert!(list.needs_path_reconstruction());
    assert!(list.has_dir_only_patterns());
    assert!(!list.matches_path(b"a/b", true));
}

/// A pattern with braces nested `depth` deep.
fn nested(depth: usize) -> String {
    format!("{}a{}", "{".repeat(depth), "}".repeat(depth))
}

#[test]
fn a_pattern_that_cannot_be_compiled_is_skipped_alone() {
    for depth in [300, MAX_BRACE_DEPTH, MAX_BRACE_DEPTH + 1, 200_000] {
        let pattern = nested(depth);
        for patterns in [[".env", &pattern], [&pattern, ".env"]] {
            for case_insensitive in [false, true] {
                let list = build(case_insensitive, &patterns);
                assert!(list.matches_path(b".env", false), "{}", depth);
                assert!(list.matches_path(b"x/.env", true), "{}", depth);
                assert_eq!(list.matches_path(b".ENV", false), case_insensitive, "{}", depth);
                assert!(!list.matches_path(b"a", false), "{}", depth);
            }
        }
        assert!(!deny(&[&pattern]).matches_path(b"a", false), "{}", depth);
    }
    assert!(deny(&[&nested(100)]).matches_path(b"a", false));
}

#[test]
fn a_list_that_is_too_large_to_compile_at_once_stays_in_force() {
    let large = |i: usize| format!("{}{}", "?".repeat(20_000), i);
    let name = |i: usize| format!("{}{}", "x".repeat(20_000), i);
    let mut patterns = vec![".env".to_string(), "*.log".to_string(), "!a.log".to_string()];
    patterns.extend((0..5).map(large));
    patterns.push("!.env".to_string());
    patterns.extend((5..10).map(large));
    patterns.push(format!("!{}", large(3)));
    patterns.push("[z-a]".to_string());
    patterns.push("a.log".to_string());
    for case_insensitive in [false, true] {
        let list = DenyList::new(case_insensitive, &patterns);
        for i in 0..10 {
            assert_eq!(list.matches_basename(name(i).as_bytes(), false), i != 3, "{}", i);
        }
        assert!(!list.matches_basename(b".env", false));
        assert!(list.matches_basename(b"b.log", false));
        assert!(list.matches_basename(b"a.log", false));
        assert_eq!(list.matches_basename(b"B.LOG", false), case_insensitive);
        assert!(!list.matches_basename(b"other", false));
    }
}

#[test]
fn braces_that_do_not_nest_may_be_many() {
    let flat = "{b,a}".repeat(MAX_BRACE_DEPTH + 1);
    let name = "ab".repeat(MAX_BRACE_DEPTH / 2) + "a";
    assert!(deny(&[&flat]).matches_path(name.as_bytes(), false));
    let escaped = "\\{".repeat(MAX_BRACE_DEPTH + 1);
    let name = "{".repeat(MAX_BRACE_DEPTH + 1);
    assert!(deny(&[&escaped]).matches_path(name.as_bytes(), false));
    let class = format!("[{}]", name);
    assert!(deny(&[&class]).matches_path(b"{", false));
}

#[test]
fn brace_depth_is_counted_outside_classes_and_escapes() {
    for (text, depth) in [
        ("", 0),
        ("a", 0),
        ("{a}", 1),
        ("{a,{b}}{c}", 2),
        ("\\{{a}", 1),
        ("[{]{a}", 1),
        ("[{{a}", 2),
        ("{[}]{[}]{a}}}", 3),
        ("[]{]{a}", 1),
        ("[!]{]{a}", 1),
        ("}{a}", 1),
        ("[\\]{a}", 1),
        ("{\\", 1),
    ] {
        assert_eq!(count_brace_depth(text), depth, "{:?}", text);
    }
}

#[test]
fn verdicts_settle_the_answer() {
    assert_eq!(settle(Verdict::Silent), None);
    assert_eq!(settle(Verdict::Deny), Some(true));
    assert_eq!(settle(Verdict::Allow), Some(false));
}

#[test]
fn recursive_patterns_may_be_many() {
    for pattern in ["**/env.secret", "**/a/b/c", "!**/a/bc", "**/"] {
        assert!(check_lines(&[pattern.to_string()], false));
    }
    let mut patterns = vec!["**/env.secret".to_string(); 7_000];
    patterns.extend(vec!["**/a/b/c".to_string(); 9_000]);
    assert!(check_lines(&patterns, false));
    let list = DenyList::new(false, &patterns);
    assert!(list.needs_path_reconstruction());
    assert!(!list.has_dir_only_patterns());
    for path in ["env.secret", "x/y/env.secret", "a/b/c", "x/a/b/c"] {
        assert!(list.matches_path(path.as_bytes(), false), "{}", path);
    }
    for path in ["secret", "a/b", "b/c", "xa/b/c", "a/b/c/d"] {
        assert!(!list.matches_path(path.as_bytes(), false), "{}", path);
    }
    patterns.push("!**/b/c".to_string());
    let list = DenyList::new(false, &patterns);
    assert!(!list.matches_path(b"x/a/b/c", false));
    assert!(list.matches_path(b"env.secret", false));
}

#[test]
fn short_lines_always_compile() {
    for unit in ["a", "?", "*", "*a", "\u{10ffff}", "a/**/", "**/a", "/", "K", "?*.", "a/*b/"] {
        let mut line = unit.repeat(SHORT_LINE / unit.chars().count());
        line.push('z');
        let line: String = line.chars().take(SHORT_LINE).collect();
        for case_insensitive in [false, true] {
            let mut builder = GitignoreBuilder::new("/");
            let _ = builder.case_insensitive(case_insensitive);
            assert!(builder.add_line(None, &line).is_ok(), "{}", unit);
            assert!(builder.build().is_ok(), "{}", unit);
        }
    }
    let name = "Ab".repeat(SHORT_LINE / 2);
    let list = build(true, &[&name]);
    assert!(list.matches_path(name.to_ascii_uppercase().as_bytes(), false));
}

#[test]
fn stars_hide_endings() {
    for case_insensitive in [false, true] {
        let list = build(case_insensitive, &["*.log", "?x"]);
        for name in [".log", "a.log", "a.b.log", "ax"] {
            assert!(list.matches_basename(name.as_bytes(), false), "{}", name);
            assert!(list.matches_path(format!("d/{}", name).as_bytes(), true), "{}", name);
        }
        for name in ["log", "a.log1", "a.log.txt", "x", "abx"] {
            assert!(!list.matches_basename(name.as_bytes(), false), "{}", name);
        }
        assert_eq!(list.matches_basename(b"A.LOG", false), case_insensitive);
        assert!(build(case_insensitive, &["*"]).matches_path(b"d/anything", false));
    }
}

#[test]
fn parts_of_a_list_deny_together() {
    let (p, q) = (["*.log", "a/b"], [".env", "*.log"]);
    let both = deny(&[p[0], p[1], q[0], q[1]]);
    let swapped = deny(&[q[0], q[1], p[0], p[1]]);
    for path in ["x.log", "a/b", ".env", "b", "x/.env", "a"] {
        let path = path.as_bytes();
        let either = deny(&p).matches_path(path, false) || deny(&q).matches_path(path, false);
        assert_eq!(both.matches_path(path, false), either);
        assert_eq!(swapped.matches_path(path, false), either);
    }
}

#[test]
fn the_last_match_wins() {
    for case_insensitive in [false, true] {
        for before in [&["*"][..], &["!*"], &["name", "!name"], &["**", "!name"], &[]] {
            let mut patterns = before.to_vec();
            patterns.push("name");
            assert!(build(case_insensitive, &patterns).matches_path(b"d/name", false));
            patterns.pop();
            patterns.push("!name");
            assert!(!build(case_insensitive, &patterns).matches_path(b"d/name", false));
        }
    }
}

#[test]
fn names_with_hyphens_and_classes_match_at_any_depth() {
    let list = deny(&["*-lock.json", "*.tar-gz", "a-b", "[a-c]*-old", "x{y,\\{z}"]);
    assert!(!list.needs_path_reconstruction());
    for name in ["package-lock.json", "b.tar-gz", "a-b", "b1-old", "xy", "x{z"] {
        for is_dir in [false, true] {
            assert!(list.matches_basename(name.as_bytes(), is_dir), "{}", name);
            for dir in ["d", "d/e", "", "/"] {
                let path = format!("{}/{}", dir, name);
                assert!(list.matches_path(path.as_bytes(), is_dir), "{}", path);
            }
        }
    }
    for name in ["lock.json", "b.tar", "a", "d1-old", "x"] {
        for path in [name.to_string(), format!("a-b/{}", name), format!("d/{}", name)] {
            assert!(!list.matches_path(path.as_bytes(), false), "{}", path);
        }
    }
}

#[test]
fn classes_at_either_end_match_names_in_clean_paths() {
    let list = deny(&["[!.]*", "*.[!o]"]);
    assert!(!list.needs_path_reconstruction());
    for (name, denied) in [("a", true), (".ob", false), (".c.h", true), (".o", false)] {
        assert_eq!(list.matches_basename(name.as_bytes(), false), denied, "{}", name);
        for dir in ["d", ".d", "d/.e", ".d/e.o"] {
            let path = format!("{}/{}", dir, name);
            assert_eq!(list.matches_path(path.as_bytes(), false), denied, "{}", path);
        }
    }
    // Next to another separator such a class can take one in.
    assert!(list.matches_path(b"d//.o", false));
    // Inside a pattern it can do so anywhere.
    let list = deny(&["a[!b]c"]);
    assert!(!list.matches_path(b"c", false));
    assert!(list.matches_path(b"a/c", false));
}

#[test]
fn path_patterns_with_classes_and_prefixes_match_no_name() {
    let list = deny(&["dir/[a-z]", "**/a/b", "[a]/{b,c}", "a/**/b"]);
    for name in ["a", "b", "c", "dir", "ab"] {
        assert!(!list.matches_path(name.as_bytes(), false), "{}", name);
    }
    for path in ["dir/q", "x/a/b", "a/b", "a/c", "a/x/b"] {
        assert!(list.matches_path(path.as_bytes(), false), "{}", path);
    }
    // A separator in braces or in a leading `**/` need not be in the path.
    assert!(deny(&["{a,b/c}"]).matches_path(b"a", false));
    assert!(deny(&["**/a"]).matches_path(b"a", false));
}

#[test]
fn folding_lists_of_plain_names_disregard_case() {
    let list = build(true, &[".env", "Secret-Key", "\u{e9}t\u{e9}"]);
    for name in [".env", ".ENV", "secret-key", "SECRET-KEY", "\u{e9}T\u{e9}"] {
        assert!(list.matches_basename(name.as_bytes(), false), "{}", name);
        assert!(list.matches_path(format!("D/{}", name).as_bytes(), true), "{}", name);
    }
    for name in ["env", "secret", "\u{c9}t\u{c9}"] {
        assert!(!list.matches_basename(name.as_bytes(), false), "{}", name);
    }
}

#[test]
fn white_space_at_the_end_is_trimmed_unless_escaped() {
    assert!(deny(&["name  "]).matches_path(b"name", false));
    assert!(deny(&["name\u{3000}\t"]).matches_path(b"name", false));
    assert!(!deny(&["name  "]).matches_path(b"name  ", false));
    assert!(deny(&["name\\ "]).matches_path(b"name ", false));
    assert!(!deny(&["name\\ "]).matches_path(b"name", false));
    assert!(deny(&[" name"]).matches_path(b" name", false));
}

#[test]
fn marks_can_be_escaped() {
    assert!(deny(&["\\!bang"]).matches_path(b"!bang", false));
    assert!(deny(&["\\#hash"]).matches_path(b"#hash", false));
    assert!(!deny(&["#hash"]).matches_path(b"#hash", false));
    assert!(deny(&["q\\*"]).matches_path(b"q*", false));
    assert!(!deny(&["q\\*"]).matches_path(b"qq", false));
}

#[test]
fn literal_names_match_whole_names() {
    let list = deny(&["a,b", "c]d", "e-f g", ".."]);
    for name in ["a,b", "c]d", "e-f g"] {
        assert!(list.matches_path(name.as_bytes(), false), "{}", name);
        assert!(list.matches_path(format!("x/{}", name).as_bytes(), true), "{}", name);
        assert!(!list.matches_path(format!("x{}", name).as_bytes(), false), "{}", name);
        assert!(!list.matches_path(format!("{}x", name).as_bytes(), false), "{}", name);
        assert!(!list.matches_path(format!("{}/x", name).as_bytes(), false), "{}", name);
    }
    assert!(!list.matches_path(b"", false));
}

#[test]
fn literal_paths_match_below_the_root_alone() {
    for pattern in ["a/b", "/a/b"] {
        let list = deny(&[pattern]);
        for path in ["a/b", "/a/b", "//a/b", "./a/b", ".//a/b"] {
            assert!(list.matches_path(path.as_bytes(), false), "{}", path);
        }
        for path in ["x/a/b", "a/b/c", "a", "b", "///a/b", "././a/b", "a//b", "a/b/", ""] {
            assert!(!list.matches_path(path.as_bytes(), false), "{}", path);
        }
    }
    let list = deny(&["/top"]);
    assert!(list.matches_path(b"top", false));
    assert!(!list.matches_path(b"x/top", false));
}

#[test]
fn a_lone_root_matches_the_empty_path_alone() {
    for pattern in ["/", "//"] {
        let list = deny(&[pattern]);
        assert!(list.matches_path(b"", true), "{}", pattern);
        assert!(!list.matches_path(b"a", true), "{}", pattern);
    }
    assert!(deny(&["/"]).matches_path(b"", false));
    assert!(!deny(&["//"]).matches_path(b"", false));
}

#[test]
fn catch_alls_match_everything() {
    for pattern in ["**", "/**"] {
        let list = deny(&[pattern]);
        for path in ["a", "a/b", "", "a/"] {
            assert!(list.matches_path(path.as_bytes(), false), "{} {}", pattern, path);
        }
    }
    for pattern in ["**//", "**/"] {
        let list = deny(&[pattern]);
        assert!(list.matches_path(b"a/b", true), "{}", pattern);
        assert!(!list.matches_path(b"a/b", false), "{}", pattern);
    }
    let list = deny(&["*.log", "!"]);
    assert!(!list.matches_path(b"x.log", false));
}

#[test]
fn a_body_that_ends_in_a_slash_matches_only_paths_that_do() {
    for pattern in ["f*//", "foo//", "a/**//"] {
        let list = deny(&[pattern]);
        assert!(!list.matches_path(b"foo", true), "{}", pattern);
        assert!(!list.matches_path(b"a/foo", true), "{}", pattern);
    }
    assert!(deny(&["f*//"]).matches_path(b"foo/", true));
}

#[test]
fn names_need_not_be_utf8() {
    let list = deny(&["*.log", "a?"]);
    assert!(list.matches_basename(b"\xff\xfe.log", false));
    assert!(list.matches_path(b"d\xff/\xfe.log", false));
    assert!(list.matches_basename(b"a\xff", false));
    assert!(!list.matches_basename(b"\xff\xfe.txt", false));
}
