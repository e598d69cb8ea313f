//! Every short line over a few characters, matched against a set of paths, and
//! held against a reading of the line that is written out here.

use ignore::gitignore::GitignoreBuilder;
use mount_deny::passthroughfs::deny::DenyList;

/// A line, taken apart.
struct Line {
    is_remark: bool,
    is_negated: bool,
    is_dir_only: bool,
    is_anchored: bool,
    body: String,
}

fn read(line: &str) -> Line {
    let trimmed = if line.ends_with("\\ ") { line } else { line.trim_end() };
    let is_remark = line.starts_with('#') || trimmed.is_empty();
    let unsigned = trimmed.strip_prefix('!');
    let is_negated = unsigned.is_some();
    let unsigned = unsigned.unwrap_or(trimmed);
    let inner = unsigned.strip_prefix('/');
    let is_rooted = inner.is_some();
    let inner = inner.unwrap_or(unsigned);
    let body = inner.strip_suffix('/');
    let is_dir_only = body.is_some();
    let body = body.unwrap_or(inner).to_string();
    let is_anchored = is_rooted || body.contains('/');
    Line { is_remark, is_negated, is_dir_only, is_anchored, body }
}

/// The pattern as the matcher parses it.
fn glob_text(line: &Line) -> Vec<char> {
    let mut text: Vec<char> = line.body.chars().collect();
    if line.is_dir_only && text.last() == Some(&'\\') {
        text.pop();
    }
    text
}

fn ranges_ascend(members: &[char]) -> bool {
    let mut low = match members.first() {
        Some(&c) => c,
        None => return true,
    };
    let mut open = false;
    for &c in &members[1..] {
        if open {
            if c < low {
                return false;
            }
            open = false;
        } else if c == '-' {
            open = true;
        } else {
            low = c;
        }
    }
    true
}

fn is_valid(text: &[char]) -> bool {
    let mut depth = 0;
    let mut unclosed = false;
    for (i, next) in items(text) {
        match text[i] {
            '\\' if i + 1 == text.len() => return false,
            '}' if depth == 0 => return false,
            '}' => depth -= 1,
            '{' => depth += 1,
            '[' if !unclosed => {
                let negated = matches!(text.get(i + 1), Some('!') | Some('^'));
                let start = if negated { i + 2 } else { i + 1 };
                let is_class = next > i + 1;
                let end = if is_class { next - 1 } else { text.len() };
                if start < end && !ranges_ascend(&text[start..end]) {
                    return false;
                }
                unclosed = !is_class;
            }
            _ => {}
        }
    }
    depth == 0
}

fn is_wild(body: &str) -> bool {
    !body.contains(['[', '{', '}', '\\']) && !(body.contains('/') && body.contains("**"))
}

fn wild_matches(fold: bool, pattern: &[char], subject: &[u8]) -> bool {
    match pattern.first() {
        None => subject.is_empty(),
        Some('*') => {
            wild_matches(fold, &pattern[1..], subject)
                || (!subject.is_empty()
                    && subject[0] != b'/'
                    && wild_matches(fold, pattern, &subject[1..]))
        }
        Some('?') => {
            !subject.is_empty()
                && subject[0] != b'/'
                && wild_matches(fold, &pattern[1..], &subject[1..])
        }
        Some(c) => {
            let c = folded(fold, &c.to_string());
            subject.starts_with(c.as_bytes())
                && wild_matches(fold, &pattern[1..], &subject[c.len()..])
        }
    }
}

fn matches_all(line: &Line) -> bool {
    line.body == "**" || line.body == "**/" || (line.body.is_empty() && !line.is_anchored)
}

fn is_literal(line: &Line) -> bool {
    !line.body.contains(['*', '?', '[', '{', '}', '\\'])
        && (line.is_anchored || !(line.body.is_empty() || line.body == ".."))
}

/// Where the class that the `[` at `i` opens ends, if it is ever closed.
fn class_end(body: &[char], i: usize) -> Option<usize> {
    let negated = matches!(body.get(i + 1), Some('!') | Some('^'));
    let start = if negated { i + 2 } else { i + 1 };
    (start + 1..body.len()).find(|&j| body[j] == ']')
}

/// The items of a body, each with where it starts and where the next one does.
fn items(body: &[char]) -> Vec<(usize, usize)> {
    let mut all = Vec::new();
    let mut i = 0;
    while i < body.len() {
        let next = match body[i] {
            '\\' => i + 2,
            '[' => class_end(body, i).map_or(i + 1, |end| end + 1),
            _ => i + 1,
        };
        all.push((i, next));
        i = next;
    }
    all
}

fn class_excludes_slash(body: &[char], start: usize, next: usize) -> bool {
    let class = &body[start + 1..next - 1];
    let crosses = class.windows(3).any(|w| w[1] == '-' && w[0] <= '/' && w[2] >= '/');
    !matches!(class[0], '!' | '^') && !class.contains(&'/') && !crosses
}

fn is_slash_safe(body: &str, inside: bool) -> bool {
    let body: Vec<char> = body.chars().collect();
    let classes = items(&body).into_iter().all(|(i, next)| {
        let is_edge = i == 0 || next == body.len();
        let is_class = body[i] == '[' && next > i + 1;
        !is_class || (inside && is_edge) || class_excludes_slash(&body, i, next)
    });
    let braces = body.iter().filter(|&&c| c == '{').count();
    let recursive = body.windows(4).any(|w| match w {
        ['\\', '{', '*', '*'] => braces > 1,
        ['\\', ',', '*', '*'] => braces > 0,
        _ => false,
    });
    classes && !recursive
}

fn is_clean(path: &str) -> bool {
    path.split('/').all(|component| !component.is_empty())
}

fn has_free_slash(body: &str) -> bool {
    let body: Vec<char> = body.trim_start_matches("**/").chars().collect();
    let mut depth = 0usize;
    for (i, _) in items(&body) {
        let escaped = body[i] == '\\' && body.get(i + 1) == Some(&'/');
        if depth == 0 && (body[i] == '/' || escaped) {
            return true;
        }
        match body[i] {
            '{' => depth += 1,
            '}' => depth = depth.saturating_sub(1),
            _ => {}
        }
    }
    false
}

fn last_component(path: &str) -> &str {
    path.rsplit('/').next().unwrap()
}

fn stripped(path: &str) -> &str {
    let path = path.strip_prefix("./").unwrap_or(path);
    let path = path.strip_prefix('/').unwrap_or(path);
    path.strip_prefix('/').unwrap_or(path)
}

fn folded(fold: bool, text: &str) -> String {
    if fold {
        text.to_ascii_lowercase()
    } else {
        text.to_string()
    }
}

fn list(fold: bool, patterns: &[&str]) -> DenyList {
    let owned: Vec<String> = patterns.iter().map(|s| s.to_string()).collect();
    DenyList::new(fold, &owned)
}

/// Whether the line alone applies to the path: a negated one shows itself by
/// what it exempts from a list that denies everything.
fn applies(list: &DenyList, line: &Line, path: &str, is_dir: bool) -> bool {
    list.matches_path(path.as_bytes(), is_dir) != line.is_negated
}

fn check_taken(text: &str) {
    let line = read(text);
    let taken = GitignoreBuilder::new("/").add_line(None, text).is_ok();
    assert_eq!(taken, line.is_remark || is_valid(&glob_text(&line)), "{:?}", text);
}

fn check_line(text: &str, paths: &[String]) {
    check_taken(text);
    let line = read(text);
    for fold in [false, true] {
        if line.is_remark {
            let with = list(fold, &["**", text]);
            let alone = list(fold, &[text]);
            for path in paths {
                assert!(with.matches_path(path.as_bytes(), true), "{:?} {:?}", text, path);
                assert!(!alone.matches_path(path.as_bytes(), true), "{:?} {:?}", text, path);
            }
            continue;
        }
        let list = if line.is_negated { list(fold, &["**", text]) } else { list(fold, &[text]) };
        for path in paths {
            let said = format!("{:?} {} {:?}", text, fold, path);
            let covers = applies(&list, &line, path, true);
            let file = applies(&list, &line, path, false);
            assert_eq!(file, covers && !line.is_dir_only, "{}", said);
            if matches_all(&line) {
                assert!(covers, "{}", said);
            } else if is_literal(&line) {
                let subject =
                    if line.is_anchored { stripped(path) } else { last_component(path) };
                assert_eq!(covers, folded(fold, subject) == folded(fold, &line.body), "{}", said);
            } else if is_wild(&line.body) && last_component(path) != ".." {
                let subject =
                    if line.is_anchored { stripped(path) } else { last_component(path) };
                let pattern: Vec<char> = line.body.chars().collect();
                let subject = folded(fold, subject);
                assert_eq!(covers, wild_matches(fold, &pattern, subject.as_bytes()), "{}", said);
            } else {
                let name_alone = !line.is_anchored
                    && (is_slash_safe(&line.body, false)
                        || (is_slash_safe(&line.body, true) && is_clean(path)));
                let subject = if name_alone { last_component(path) } else { path };
                let subject = folded(fold, subject);
                assert_eq!(covers, applies(&list, &line, &subject, true), "{}", said);
                if line.body.ends_with('/') && !line.body.starts_with("**/**") {
                    assert!(!covers || path.ends_with('/'), "{}", said);
                }
                if has_free_slash(&line.body) {
                    assert!(!covers || path.contains('/'), "{}", said);
                }
            }
        }
    }
}

/// Every text over `alphabet` with at most `longest` characters.
fn texts(alphabet: &str, longest: usize) -> Vec<String> {
    let mut all = vec![String::new()];
    let mut start = 0;
    for _ in 0..longest {
        let end = all.len();
        for i in start..end {
            for c in alphabet.chars() {
                let mut text = all[i].clone();
                text.push(c);
                all.push(text);
            }
        }
        start = end;
    }
    all
}

#[test]
fn lines_with_stars_and_separators() {
    let paths = texts("aA/.", 3);
    for line in texts("aA*/.!", 4) {
        check_line(&line, &paths);
    }
}

#[test]
fn lines_with_wildcards() {
    let paths = texts("aA/.\u{e9}", 3);
    for line in texts("aA*?/.\u{e9}", 4) {
        check_line(&line, &paths);
    }
}

#[test]
fn lines_with_ranges() {
    for line in texts("ab-[]!/", 6) {
        check_taken(&line);
    }
    for line in texts("a-[]{}\\/", 6) {
        check_taken(&line);
    }
}

#[test]
fn lines_with_classes() {
    let paths = texts("a0/-", 3);
    for line in texts("a[]-!", 5) {
        check_line(&line, &paths);
    }
}

#[test]
fn lines_with_braces_and_escapes() {
    let paths = texts("a/{", 3);
    for line in texts("a{},*\\", 5) {
        check_line(&line, &paths);
    }
}

#[test]
fn lines_with_classes_and_separators() {
    let paths = texts("a0/", 4);
    for line in texts("a*/[]+0-", 4) {
        check_line(&line, &paths);
    }
    for line in ["[+-0]/a", "[/]a", "a[!b]a", "**/a/a", "**/**/a/[a]", "a/**/a", "[a]/[a]"] {
        check_line(line, &paths);
    }
}

#[test]
fn lines_with_braces_and_separators() {
    let paths = texts("a,/", 4);
    for line in texts("a/{},\\", 5) {
        check_line(&line, &paths);
    }
    for line in ["{a,a/a}", "a/{a,a}", "{\\,**,a}", "{\\{**}", "a\\,**", "{a}\\{**", "{[a/]}a"] {
        check_line(line, &paths);
    }
}

#[test]
fn lines_with_white_space_and_remarks() {
    let paths = texts("a /#", 3);
    for line in texts("a# \\?/", 4) {
        check_line(&line, &paths);
    }
}
