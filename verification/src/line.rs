//! What a single gitignore line says.
//!
//! A line is a comment, blank, or a pattern. A pattern may be negated by a
//! leading `!`, tied to the root by a leading `/` or by a `/` inside it, and
//! restricted to directories by a trailing `/`. What is left is the pattern's
//! body.
use crate::glob::{has_free_slash, is_simple, is_slash_safe, is_slash_safe_inside};
use crate::paths::{ascii_lower, is_clean, is_parent, is_slash_free, last_component, stripped};
use vstd::prelude::*;
use vstd::utf8::{encode_scalar, encode_utf8};

verus! {

/// A pattern line, and whether it is matched without regard to ASCII case.
pub type Rule = (Seq<char>, bool);

/// What one rule says of one path.
pub enum Verdict {
    /// The rule does not apply.
    Silent,
    /// The rule denies the path.
    Deny,
    /// The rule exempts the path.
    Allow,
}

/// Unicode's `White_Space` property.
pub open spec fn is_white_space(c: char) -> bool {
    let n = c as int;
    ||| 0x9 <= n <= 0xd
    ||| n == 0x20
    ||| n == 0x85
    ||| n == 0xa0
    ||| n == 0x1680
    ||| 0x2000 <= n <= 0x200a
    ||| n == 0x2028
    ||| n == 0x2029
    ||| n == 0x202f
    ||| n == 0x205f
    ||| n == 0x3000
}

/// `s` without its trailing white space.
pub open spec fn trim_end(s: Seq<char>) -> Seq<char>
    decreases s.len(),
{
    if s.len() > 0 && is_white_space(s.last()) {
        trim_end(s.drop_last())
    } else {
        s
    }
}

/// The line without its trailing white space, which stays if it ends in an
/// escaped space.
pub open spec fn trimmed(line: Seq<char>) -> Seq<char> {
    if line.len() >= 2 && line[line.len() - 2] == '\\' && line.last() == ' ' {
        line
    } else {
        trim_end(line)
    }
}

/// Whether the line holds no pattern: a comment, or nothing but white space.
pub open spec fn is_remark(line: Seq<char>) -> bool {
    ||| line.len() > 0 && line[0] == '#'
    ||| trimmed(line).len() == 0
}

/// Whether the line exempts what it matches.
pub open spec fn is_negated(line: Seq<char>) -> bool {
    trimmed(line).len() > 0 && trimmed(line)[0] == '!'
}

/// The line without a leading `!`.
pub open spec fn unsigned(line: Seq<char>) -> Seq<char> {
    if is_negated(line) {
        trimmed(line).skip(1)
    } else {
        trimmed(line)
    }
}

/// Whether the pattern starts with a separator.
pub open spec fn is_rooted(line: Seq<char>) -> bool {
    unsigned(line).len() > 0 && unsigned(line)[0] == '/'
}

/// The line without a leading `!` and a leading `/`.
pub open spec fn inner(line: Seq<char>) -> Seq<char> {
    if is_rooted(line) {
        unsigned(line).skip(1)
    } else {
        unsigned(line)
    }
}

/// Whether the pattern matches directories only.
pub open spec fn is_dir_only(line: Seq<char>) -> bool {
    inner(line).len() > 0 && inner(line).last() == '/'
}

/// The pattern itself, without the marks for negation, root and directory.
pub open spec fn body(line: Seq<char>) -> Seq<char> {
    if is_dir_only(line) {
        inner(line).drop_last()
    } else {
        inner(line)
    }
}

/// The pattern as the matcher parses it: an escape in front of the mark for a
/// directory goes with it.
pub open spec fn glob_text(line: Seq<char>) -> Seq<char> {
    if is_dir_only(line) && body(line).len() > 0 && body(line).last() == '\\' {
        body(line).drop_last()
    } else {
        body(line)
    }
}

/// Whether the pattern speaks of the whole path rather than of a name at any
/// depth.
pub open spec fn is_anchored(line: Seq<char>) -> bool {
    is_rooted(line) || body(line).contains('/')
}

/// Whether `c` has a meaning of its own in a pattern's body.
pub open spec fn is_glob_char(c: char) -> bool {
    c == '*' || c == '?' || c == '[' || c == '{' || c == '}' || c == '\\'
}

/// Whether the pattern's body stands for itself, character by character.
pub open spec fn is_literal(line: Seq<char>) -> bool {
    &&& forall|i: int| 0 <= i < body(line).len() ==> !is_glob_char(#[trigger] body(line)[i])
    &&& !is_anchored(line) ==> body(line).len() > 0 && body(line) != seq!['.', '.']
}

/// Whether `s` has two stars in a row.
pub open spec fn has_double_star(s: Seq<char>) -> bool {
    exists|i: int| 0 <= i < s.len() - 1 && #[trigger] s[i] == '*' && s[i + 1] == '*'
}

/// Whether the only characters in the pattern's body with a meaning of their
/// own are `*` and `?`, and no two stars stand for whole components.
pub open spec fn is_wild(line: Seq<char>) -> bool {
    is_simple(body(line)) && !(body(line).contains('/') && has_double_star(body(line)))
}

/// Whether `pattern` matches all of `subject`, which is in lower case if `fold`
/// is set: `?` stands for any byte but a separator, `*` for any number of them,
/// and every other character for itself.
pub open spec fn wild_matches(fold: bool, pattern: Seq<char>, subject: Seq<u8>) -> bool
    decreases pattern.len(), subject.len(),
{
    if pattern.len() == 0 {
        subject.len() == 0
    } else if pattern[0] == '*' {
        ||| wild_matches(fold, pattern.skip(1), subject)
        ||| subject.len() > 0 && subject[0] != 0x2f && wild_matches(fold, pattern, subject.skip(1))
    } else if pattern[0] == '?' {
        subject.len() > 0 && subject[0] != 0x2f && wild_matches(
            fold,
            pattern.skip(1),
            subject.skip(1),
        )
    } else {
        let c = folded(fold, encode_scalar(pattern[0] as u32));
        c.is_prefix_of(subject) && wild_matches(
            fold,
            pattern.skip(1),
            subject.skip(c.len() as int),
        )
    }
}

/// Whether the pattern matches every path.
pub open spec fn matches_all(line: Seq<char>) -> bool {
    ||| body(line) == seq!['*', '*']
    ||| body(line) == seq!['*', '*', '/']
    ||| body(line).len() == 0 && !is_anchored(line)
}

/// Whether a pattern with this body, if it has no separator, looks at the last
/// component of `path` alone. A class at either end of it can only take in a
/// separator next to another one, or at an end of the path.
pub open spec fn looks_at_name(body: Seq<char>, path: Seq<u8>) -> bool {
    is_slash_safe(body) || (is_slash_safe_inside(body) && is_clean(path))
}

/// `bytes`, or `bytes` in lower case where case does not count.
pub open spec fn folded(fold: bool, bytes: Seq<u8>) -> Seq<u8> {
    if fold {
        ascii_lower(bytes)
    } else {
        bytes
    }
}

/// What a pattern without classes, braces and escapes is compared with.
pub open spec fn plain_subject(line: Seq<char>, path: Seq<u8>) -> Seq<u8> {
    if is_anchored(line) {
        stripped(path)
    } else {
        last_component(path)
    }
}

/// What any other pattern is matched against.
pub open spec fn glob_subject(rule: Rule, path: Seq<u8>) -> Seq<u8> {
    folded(
        rule.1,
        if !is_anchored(rule.0) && looks_at_name(body(rule.0), path) {
            last_component(path)
        } else {
            path
        },
    )
}

/// Whether a body with separators can match `path` at all.
///
/// A body that ends in a separator matches only paths that end in one, and one
/// with a separator outside classes and braces, which no leading `**/` takes
/// in, only paths that have one.
pub open spec fn separators_agree(body: Seq<char>, path: Seq<u8>) -> bool {
    &&& ends_in_slash(body) && !seq!['*', '*', '/', '*', '*'].is_prefix_of(body) ==> path.len() > 0
        && path.last() == 0x2f
    &&& has_free_slash(body) ==> !is_slash_free(path)
}

/// Whether the rule's pattern matches `path`, given in `globbed` whether the
/// pattern, taken as a glob, matches [`glob_subject`].
pub open spec fn covers(rule: Rule, path: Seq<u8>, globbed: bool) -> bool {
    if matches_all(rule.0) {
        true
    } else if is_literal(rule.0) {
        folded(rule.1, plain_subject(rule.0, path)) == folded(rule.1, encode_utf8(body(rule.0)))
    } else if is_wild(rule.0) && !is_parent(last_component(path)) {
        wild_matches(rule.1, body(rule.0), folded(rule.1, plain_subject(rule.0, path)))
    } else {
        globbed && separators_agree(body(rule.0), path)
    }
}

/// What the rule says of `path`, given `globbed` as in [`covers`].
pub open spec fn verdict(rule: Rule, path: Seq<u8>, is_dir: bool, globbed: bool) -> Verdict {
    if !covers(rule, path, globbed) || (is_dir_only(rule.0) && !is_dir) {
        Verdict::Silent
    } else if is_negated(rule.0) {
        Verdict::Allow
    } else {
        Verdict::Deny
    }
}

/// What rules say of a path together, given what each of them says in order:
/// the last one that applies decides.
pub open spec fn decision(verdicts: Seq<Verdict>) -> Verdict
    decreases verdicts.len(),
{
    if verdicts.len() == 0 {
        Verdict::Silent
    } else if verdicts.last() is Silent {
        decision(verdicts.drop_last())
    } else {
        verdicts.last()
    }
}

/// Whether the line has a separator.
pub open spec fn has_slash(line: Seq<char>) -> bool {
    line.contains('/')
}

/// Whether the line ends in a separator.
pub open spec fn ends_in_slash(line: Seq<char>) -> bool {
    line.len() > 0 && line.last() == '/'
}

/// Whether the line has a separator with something other than separators
/// after it.
pub open spec fn has_interior_slash(line: Seq<char>) -> bool {
    exists|i: int, j: int| 0 <= i < j < line.len() && line[i] == '/' && line[j] != '/'
}

/// Whether the line starts with `**/` behind its marks for negation and root:
/// such a pattern matches what ends in the rest of it.
pub open spec fn is_recursive(line: Seq<char>) -> bool {
    let sign: int = if line.len() > 0 && line[0] == '!' {
        1
    } else {
        0
    };
    let mark: int = if sign < line.len() && line[sign] == '/' {
        sign + 1
    } else {
        sign
    };
    &&& mark + 2 < line.len()
    &&& line[mark] == '*' && line[mark + 1] == '*' && line[mark + 2] == '/'
}

/// What a pattern's separators say about it.
pub struct Slashes {
    /// Whether it has any.
    pub any: bool,
    /// Whether it has one that is more than a trailing mark.
    pub interior: bool,
    /// Whether it ends in one.
    pub trailing: bool,
}

/// Looks through the separators of `pattern`.
pub fn scan_slashes(pattern: &str) -> (slashes: Slashes)
    ensures
        slashes.any == has_slash(pattern@),
        slashes.interior == has_interior_slash(pattern@),
        slashes.trailing == ends_in_slash(pattern@),
{
    let mut slashes = Slashes { any: false, interior: false, trailing: false };
    for c in it: pattern.chars()
        invariant
            it.seq() == pattern@,
            slashes.any == has_slash(pattern@.take(it.index() as int)),
            slashes.interior == has_interior_slash(pattern@.take(it.index() as int)),
            slashes.trailing == ends_in_slash(pattern@.take(it.index() as int)),
    {
        let ghost seen = pattern@.take(it.index() as int);
        let ghost next = pattern@.take(it.index() as int + 1);
        assert(next =~= seen.push(c));
        proof {
            lemma_push_slashes(seen, c);
        }
        slashes.interior = slashes.interior || (slashes.any && c != '/');
        slashes.any = slashes.any || c == '/';
        slashes.trailing = c == '/';
    }
    assert(pattern@.take(pattern@.len() as int) =~= pattern@);
    slashes
}

/// Whether the pattern starts with `**/` behind its marks.
pub fn scan_recursive(pattern: &str) -> (yes: bool)
    ensures
        yes == is_recursive(pattern@),
{
    let len: usize = pattern.unicode_len();
    let mut mark: usize = 0;
    if mark < len && pattern.get_char(mark) == '!' {
        mark = mark + 1;
    }
    if mark < len && pattern.get_char(mark) == '/' {
        mark = mark + 1;
    }
    len - mark > 2 && pattern.get_char(mark) == '*' && pattern.get_char(mark + 1) == '*'
        && pattern.get_char(mark + 2) == '/'
}

/// What a further character does to what the separators say.
proof fn lemma_push_slashes(line: Seq<char>, c: char)
    ensures
        has_slash(line.push(c)) == (has_slash(line) || c == '/'),
        has_interior_slash(line.push(c)) == (has_interior_slash(line) || (has_slash(line) && c
            != '/')),
{
    let next = line.push(c);
    assert(forall|i: int| 0 <= i < line.len() ==> next[i] == line[i]);
    assert(next[line.len() as int] == c);
    if has_slash(line) {
        let i = choose|i: int| 0 <= i < line.len() && line[i] == '/';
        assert(next[i] == '/');
        if c != '/' {
            assert(next[i] == '/' && next[line.len() as int] != '/');
        }
    }
    if has_interior_slash(line) {
        let (i, j) = choose|i: int, j: int|
            0 <= i < j < line.len() && line[i] == '/' && line[j] != '/';
        assert(next[i] == '/' && next[j] != '/');
    }
    if has_interior_slash(next) {
        let (i, j) = choose|i: int, j: int|
            0 <= i < j < next.len() && next[i] == '/' && next[j] != '/';
        assert(line[i] == '/');
        if j < line.len() {
            assert(line[j] != '/');
        }
    }
}

/// **Law.** What a pattern's separators say, from its first character on: a
/// pattern without characters has none, and a further character changes the
/// answers as its kind demands.
pub proof fn law_separators_are_read_one_by_one(line: Seq<char>, c: char)
    ensures
        !has_slash(Seq::empty()),
        !has_interior_slash(Seq::empty()),
        !ends_in_slash(Seq::empty()),
        has_slash(line.push(c)) == (has_slash(line) || c == '/'),
        has_interior_slash(line.push(c)) == (has_interior_slash(line) || (has_slash(line) && c
            != '/')),
        ends_in_slash(line.push(c)) == (c == '/'),
{
    lemma_push_slashes(line, c);
    assert(!Seq::<char>::empty().contains('/'));
}

/// **Law.** A pattern has an interior separator if and only if it has one that
/// is still there when the separators at its end are taken off.
pub proof fn law_interior_separators(line: Seq<char>, n: nat)
    ensures
        has_interior_slash(line + Seq::new(n, |i: int| '/')) == has_interior_slash(line),
        line.len() > 0 && line[line.len() - 1] != '/' ==> has_interior_slash(line)
            == line.contains('/'),
    decreases n,
{
    let slashes = Seq::new(n, |i: int| '/');
    if n == 0 {
        assert(line + slashes =~= line);
    } else {
        let fewer = Seq::new((n - 1) as nat, |i: int| '/');
        law_interior_separators(line, (n - 1) as nat);
        assert(line + slashes =~= (line + fewer).push('/'));
        lemma_push_slashes(line + fewer, '/');
    }
    if line.len() > 0 && line[line.len() - 1] != '/' {
        if line.contains('/') {
            let i = choose|i: int| 0 <= i < line.len() && line[i] == '/';
            assert(line[i] == '/' && line[line.len() - 1] != '/');
        }
        if has_interior_slash(line) {
            let (i, j) = choose|i: int, j: int|
                0 <= i < j < line.len() && line[i] == '/' && line[j] != '/';
            assert(line[i] == '/');
        }
    }
}

/// **Law.** Lines start with `**/` behind a `!` and a `/` that may be missing,
/// or they are not recursive.
pub proof fn law_recursive_lines(line: Seq<char>, rest: Seq<char>)
    ensures
        is_recursive(seq!['*', '*', '/'] + rest),
        is_recursive(seq!['/', '*', '*', '/'] + rest),
        is_recursive(seq!['!', '*', '*', '/'] + rest),
        is_recursive(seq!['!', '/', '*', '*', '/'] + rest),
        is_recursive(line) <==> seq!['*', '*', '/'].is_prefix_of(line) || seq![
            '/',
            '*',
            '*',
            '/',
        ].is_prefix_of(line) || seq!['!', '*', '*', '/'].is_prefix_of(line) || seq![
            '!',
            '/',
            '*',
            '*',
            '/',
        ].is_prefix_of(line),
{
    let (a, b, c, d) = (
        seq!['*', '*', '/'],
        seq!['/', '*', '*', '/'],
        seq!['!', '*', '*', '/'],
        seq!['!', '/', '*', '*', '/'],
    );
    if a.is_prefix_of(line) {
        assert(line[0] == a[0] && line[1] == a[1] && line[2] == a[2]);
    }
    if b.is_prefix_of(line) {
        assert(line[0] == b[0] && line[1] == b[1] && line[2] == b[2] && line[3] == b[3]);
    }
    if c.is_prefix_of(line) {
        assert(line[0] == c[0] && line[1] == c[1] && line[2] == c[2] && line[3] == c[3]);
    }
    if d.is_prefix_of(line) {
        assert(line[0] == d[0] && line[1] == d[1] && line[2] == d[2] && line[3] == d[3] && line[4]
            == d[4]);
    }
    if is_recursive(line) {
        if line[0] == '!' && line[1] == '/' {
            assert(d =~= line.take(5));
        } else if line[0] == '!' {
            assert(c =~= line.take(4));
        } else if line[0] == '/' {
            assert(b =~= line.take(4));
        } else {
            assert(a =~= line.take(3));
        }
    }
}

/// **Law.** Blanks, tabs and line ends are white space, and so are the wide and
/// the unbreakable blank. No character that shows is: not in ASCII, not in the
/// alphabets that follow it, and not behind the wide blank.
pub proof fn law_white_space(c: char)
    ensures
        c == ' ' || c == '\t' || c == '\n' || c == '\r' ==> is_white_space(c),
        c == '\u{a0}' || c == '\u{3000}' ==> is_white_space(c),
        '!' <= c <= '~' ==> !is_white_space(c),
        '\u{a1}' <= c <= '\u{167f}' ==> !is_white_space(c),
        '\u{1681}' <= c <= '\u{1fff}' ==> !is_white_space(c),
        '\u{3001}' <= c ==> !is_white_space(c),
{
}

/// **Law.** White space at the end of a line does not count, unless it ends in
/// an escaped space: nothing else is taken off, and none is left.
pub proof fn law_trimmed_lines(line: Seq<char>)
    ensures
        trimmed(line).is_prefix_of(line),
        forall|i: int| trimmed(line).len() <= i < line.len() ==> is_white_space(#[trigger] line[i]),
        seq!['\\', ' '].is_suffix_of(line) ==> trimmed(line) == line,
        !seq!['\\', ' '].is_suffix_of(line) && trimmed(line).len() > 0 ==> !is_white_space(
            trimmed(line)[trimmed(line).len() - 1],
        ),
{
    lemma_trim_end(line);
    let escaped = seq!['\\', ' '];
    if line.len() >= 2 && line[line.len() - 2] == '\\' && line.last() == ' ' {
        assert(line =~= line.take(line.len() as int));
        assert(escaped =~= line.skip(line.len() - 2));
    } else {
        if escaped.is_suffix_of(line) {
            let end = line.skip(line.len() - 2);
            assert(end[0] == escaped[0] && end[1] == escaped[1]);
        }
    }
}

/// Trimming leaves a prefix that does not end in white space.
proof fn lemma_trim_end(s: Seq<char>)
    ensures
        trim_end(s).is_prefix_of(s),
        forall|i: int| trim_end(s).len() <= i < s.len() ==> is_white_space(#[trigger] s[i]),
        trim_end(s).len() > 0 ==> !is_white_space(trim_end(s)[trim_end(s).len() - 1]),
    decreases s.len(),
{
    if s.len() > 0 && is_white_space(s.last()) {
        let rest = s.drop_last();
        lemma_trim_end(rest);
        assert(trim_end(s) =~= s.take(trim_end(s).len() as int));
        assert forall|i: int| trim_end(s).len() <= i < s.len() implies is_white_space(
            #[trigger] s[i],
        ) by {
            if i < rest.len() {
                assert(rest[i] == s[i]);
            }
        }
    } else {
        assert(s =~= s.take(s.len() as int));
    }
}

/// **Law.** A line is a remark if and only if it starts with `#` or holds
/// nothing but white space.
pub proof fn law_remarks(line: Seq<char>)
    ensures
        is_remark(line) <==> (line.len() > 0 && line[0] == '#') || forall|i: int|
            0 <= i < line.len() ==> is_white_space(#[trigger] line[i]),
{
    law_trimmed_lines(line);
    let text = trimmed(line);
    if text.len() > 0 {
        let end = text.len() - 1;
        assert(text[end] == line[end]);
        if seq!['\\', ' '].is_suffix_of(line) {
            let tail = line.skip(line.len() - 2);
            assert(tail[0] == '\\');
            assert(!is_white_space(line[line.len() - 2]));
        } else {
            assert(!is_white_space(line[end]));
        }
    }
}

/// **Law.** A line, without white space at its end, is a `!` if it is negated,
/// a `/` if it is rooted, its body, and a `/` if it is for directories only,
/// one behind the other. A `!` at its start always negates it, a `/` behind
/// that always roots it, and a `/` at its end always makes it directory-only,
/// unless nothing is left.
pub proof fn law_line_is_made_of_its_parts(line: Seq<char>)
    ensures
        trimmed(line) == (if is_negated(line) {
            seq!['!']
        } else {
            Seq::empty()
        }) + (if is_rooted(line) {
            seq!['/']
        } else {
            Seq::empty()
        }) + body(line) + (if is_dir_only(line) {
            seq!['/']
        } else {
            Seq::empty()
        }),
        is_negated(line) <==> seq!['!'].is_prefix_of(trimmed(line)),
        is_rooted(line) <==> seq!['/'].is_prefix_of(trimmed(line)) || seq!['!', '/'].is_prefix_of(
            trimmed(line),
        ),
        is_dir_only(line) ==> seq!['/'].is_suffix_of(trimmed(line)),
        body(line).len() > 0 && seq!['/'].is_suffix_of(trimmed(line)) ==> is_dir_only(line),
        is_anchored(line) <==> is_rooted(line) || body(line).contains('/'),
{
    let text = trimmed(line);
    let parts = (if is_negated(line) {
        seq!['!']
    } else {
        Seq::empty()
    }) + (if is_rooted(line) {
        seq!['/']
    } else {
        Seq::empty()
    }) + body(line) + (if is_dir_only(line) {
        seq!['/']
    } else {
        Seq::empty()
    });
    assert(text =~= parts);
    let (bang, slash, both) = (seq!['!'], seq!['/'], seq!['!', '/']);
    if text.len() > 0 {
        if text[0] == '!' {
            assert(bang =~= text.take(1));
        }
        if text[0] == '/' {
            assert(slash =~= text.take(1));
        }
        if text.len() > 1 && text[0] == '!' && text[1] == '/' {
            assert(both =~= text.take(2));
        }
        if text.last() == '/' {
            assert(slash =~= text.skip(text.len() - 1));
        }
    }
    if bang.is_prefix_of(text) {
        assert(text[0] == bang[0]);
    }
    if slash.is_prefix_of(text) {
        assert(text[0] == slash[0]);
    }
    if both.is_prefix_of(text) {
        assert(text[0] == both[0] && text[1] == both[1]);
    }
    if slash.is_suffix_of(text) {
        assert(text[text.len() - 1] == slash[0]);
    }
}

/// **Law.** The pattern that is parsed is the body, without the escape that
/// stands in front of a mark for directories.
pub proof fn law_parsed_text(line: Seq<char>)
    ensures
        is_dir_only(line) && seq!['\\'].is_suffix_of(body(line)) ==> body(line) == glob_text(
            line,
        ).push('\\'),
        !(is_dir_only(line) && seq!['\\'].is_suffix_of(body(line))) ==> glob_text(line) == body(
            line,
        ),
{
    let (text, escape) = (body(line), seq!['\\']);
    if text.len() > 0 && text.last() == '\\' {
        assert(escape =~= text.skip(text.len() - 1));
        assert(text.drop_last().push('\\') =~= text);
    }
    if escape.is_suffix_of(text) {
        assert(text[text.len() - 1] == escape[0]);
    }
}

/// **Law.** A directory-only rule says nothing of a file, a negated rule never
/// denies, any other never exempts, and only a directory-only rule says
/// different things of a file and a directory.
pub proof fn law_verdicts(rule: Rule, path: Seq<u8>, is_dir: bool, globbed: bool)
    ensures
        is_dir_only(rule.0) ==> verdict(rule, path, false, globbed) is Silent,
        is_negated(rule.0) ==> !(verdict(rule, path, is_dir, globbed) is Deny),
        !is_negated(rule.0) ==> !(verdict(rule, path, is_dir, globbed) is Allow),
        !is_dir_only(rule.0) ==> verdict(rule, path, is_dir, globbed) == verdict(
            rule,
            path,
            !is_dir,
            globbed,
        ),
        verdict(rule, path, true, globbed) is Silent <==> !covers(rule, path, globbed),
{
}

/// **Law.** How wildcards match, from the left: `?` takes one byte that is no
/// separator, `*` takes any number of them, and an ASCII character takes its
/// own byte. Nothing matches nothing alone.
pub proof fn law_wildcards(c: char, pattern: Seq<char>, byte: u8, subject: Seq<u8>, fold: bool)
    ensures
        wild_matches(fold, Seq::empty(), subject) <==> subject.len() == 0,
        wild_matches(fold, seq!['?'] + pattern, seq![byte] + subject) <==> byte != 0x2f
            && wild_matches(fold, pattern, subject),
        !wild_matches(fold, seq!['?'] + pattern, Seq::empty()),
        wild_matches(fold, seq!['*'] + pattern, seq![byte] + subject) <==> wild_matches(
            fold,
            pattern,
            seq![byte] + subject,
        ) || (byte != 0x2f && wild_matches(fold, seq!['*'] + pattern, subject)),
        wild_matches(fold, seq!['*'] + pattern, Seq::empty()) <==> wild_matches(
            fold,
            pattern,
            Seq::empty(),
        ),
        (c as u32) < 0x80 && c != '*' && c != '?' ==> (wild_matches(
            false,
            seq![c] + pattern,
            seq![byte] + subject,
        ) <==> byte == c as u8 && wild_matches(false, pattern, subject)),
        c != '*' && c != '?' ==> !wild_matches(fold, seq![c] + pattern, Seq::empty()),
{
    let (any, star, own) = (seq!['?'] + pattern, seq!['*'] + pattern, seq![c] + pattern);
    let longer = seq![byte] + subject;
    assert(any[0] == '?' && star[0] == '*' && own[0] == c && longer[0] == byte);
    assert(any.skip(1) =~= pattern);
    assert(star.skip(1) =~= pattern);
    assert(own.skip(1) =~= pattern);
    assert(longer.skip(1) =~= subject);
    if (c as u32) < 0x80 {
        let n: u32 = c as u32;
        assert(n & 0x7f == n) by (bit_vector)
            requires
                n < 0x80,
        ;
        let encoded = encode_scalar(c as u32);
        assert(encoded =~= seq![c as u8]);
        if encoded.is_prefix_of(longer) {
            assert(longer[0] == encoded[0]);
        }
        if byte == c as u8 {
            assert(encoded =~= longer.take(1));
        }
    }
}

} // verus!
