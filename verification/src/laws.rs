//! Laws of deny rules.
use crate::gitignore::{glob_matches, globs_compile, is_taken, SHORT_LINE};
use crate::glob::{
    brace_depth, has_free_slash, is_simple, is_valid, law_depth_counts_braces, lemma_brace_free,
    lemma_free_slash_is_slash, lemma_simple_is_valid, without_recursive_prefix, MAX_BRACE_DEPTH,
};
use crate::line::{
    body, decision, folded, glob_subject, glob_text, has_double_star, has_interior_slash,
    is_anchored, is_dir_only, is_glob_char, is_literal, is_negated, is_remark, is_rooted, is_white_space, looks_at_name,
    matches_all, trim_end, trimmed, verdict, wild_matches, Rule, Verdict,
};
use crate::paths::{
    ascii_lower, ascii_lower_byte, is_parent, is_slash_free, last_component,
    lemma_last_component_is_slash_free, lemma_lower_clean, lemma_lower_last_component,
    lemma_lower_parent, lemma_lower_stripped, stripped,
};
use crate::rules::{
    compiles_alone, denies, lemma_later_rules_decide, lemma_made_rules_concat,
    lemma_rules_come_from_lines, lines_of, made_rules, makes_rule, rule_verdict, rules_say,
    verdicts,
};
use vstd::prelude::*;
use vstd::utf8::{encode_scalar, encode_utf8};

verus! {

/// Rules that say the same of two paths deny both or neither.
pub proof fn lemma_same_verdicts(
    rules: Seq<Rule>,
    p: Seq<u8>,
    p_is_dir: bool,
    q: Seq<u8>,
    q_is_dir: bool,
)
    requires
        forall|i: int|
            0 <= i < rules.len() ==> rule_verdict(#[trigger] rules[i], p, p_is_dir)
                == rule_verdict(rules[i], q, q_is_dir),
    ensures
        denies(rules, p, p_is_dir) == denies(rules, q, q_is_dir),
{
    assert(verdicts(rules, p, p_is_dir) =~= verdicts(rules, q, q_is_dir));
}

/// **Law.** Without rules nothing is denied.
pub proof fn law_no_rules_deny_nothing(path: Seq<u8>, is_dir: bool)
    ensures
        !denies(Seq::empty(), path, is_dir),
{
}

/// **Law.** A list that is empty, or in which no line makes a rule, denies
/// nothing.
pub proof fn law_invalid_list_denies_nothing(
    lines: Seq<Seq<char>>,
    fold: bool,
    path: Seq<u8>,
    is_dir: bool,
)
    requires
        forall|i: int| 0 <= i < lines.len() ==> !makes_rule(#[trigger] lines[i], fold),
    ensures
        made_rules(lines, fold) == Seq::<Rule>::empty(),
        !denies(made_rules(lines, fold), path, is_dir),
    decreases lines.len(),
{
    if lines.len() > 0 {
        let rest = lines.drop_last();
        assert(!makes_rule(lines[lines.len() - 1], fold));
        assert forall|i: int| 0 <= i < rest.len() implies !makes_rule(#[trigger] rest[i], fold) by {
            assert(rest[i] == lines[i]);
        }
        law_invalid_list_denies_nothing(rest, fold, path, is_dir);
    }
}

/// **Law.** A line that makes no rule is skipped, be it a remark, a pattern
/// that cannot be read, or one that cannot be compiled: wherever it stands, the
/// list is matched as it would be without it.
pub proof fn law_invalid_line_is_skipped(
    lines: Seq<Seq<char>>,
    at: int,
    line: Seq<char>,
    fold: bool,
)
    requires
        0 <= at <= lines.len(),
        !makes_rule(line, fold),
    ensures
        made_rules(lines.insert(at, line), fold) == made_rules(lines, fold),
{
    lemma_skip(lines, at, line, fold);
}

proof fn lemma_skip(lines: Seq<Seq<char>>, at: int, line: Seq<char>, fold: bool)
    requires
        0 <= at <= lines.len(),
        !makes_rule(line, fold),
    ensures
        made_rules(lines.insert(at, line), fold) == made_rules(lines, fold),
    decreases lines.len(),
{
    let longer = lines.insert(at, line);
    if at == lines.len() {
        assert(longer.drop_last() =~= lines);
    } else {
        assert(longer.drop_last() =~= lines.drop_last().insert(at, line));
        assert(longer.last() == lines.last());
        lemma_skip(lines.drop_last(), at, line, fold);
    }
}

/// **Law.** A line that makes a rule is in force, whatever stands beside it.
pub proof fn law_valid_line_is_in_force(lines: Seq<Seq<char>>, i: int, fold: bool)
    requires
        0 <= i < lines.len(),
        makes_rule(lines[i], fold),
    ensures
        made_rules(lines, fold).contains((lines[i], fold)),
    decreases lines.len(),
{
    let rules = made_rules(lines, fold);
    let rest = lines.drop_last();
    if i == lines.len() - 1 {
        assert(rules.last() == (lines[i], fold));
    } else {
        law_valid_line_is_in_force(rest, i, fold);
        let j = choose|j: int|
            0 <= j < made_rules(rest, fold).len() && made_rules(rest, fold)[j] == (rest[i], fold);
        assert(rules[j] == (lines[i], fold));
    }
}

/// **Law.** The last rule that applies decides: a further rule has its way
/// with the paths it applies to, and leaves all others to the rules before it.
pub proof fn law_last_rule_decides(rules: Seq<Rule>, rule: Rule, path: Seq<u8>, is_dir: bool)
    ensures
        denies(rules.push(rule), path, is_dir) == match rule_verdict(rule, path, is_dir) {
            Verdict::Silent => denies(rules, path, is_dir),
            Verdict::Deny => true,
            Verdict::Allow => false,
        },
{
    let all = verdicts(rules.push(rule), path, is_dir);
    assert(all.drop_last() =~= verdicts(rules, path, is_dir));
    assert(all.last() == rule_verdict(rule, path, is_dir));
}

/// **Law.** A negated pattern never denies, and any other never exempts.
pub proof fn law_negation_exempts(rules: Seq<Rule>, rule: Rule, path: Seq<u8>, is_dir: bool)
    ensures
        is_negated(rule.0) && denies(rules.push(rule), path, is_dir) ==> denies(
            rules,
            path,
            is_dir,
        ),
        !is_negated(rule.0) && denies(rules, path, is_dir) ==> denies(
            rules.push(rule),
            path,
            is_dir,
        ),
{
    law_last_rule_decides(rules, rule, path, is_dir);
}

/// **Law.** Only directory-only patterns depend on whether the entry is a
/// directory.
pub proof fn law_only_dir_only_rules_heed_kind(rules: Seq<Rule>, path: Seq<u8>)
    requires
        forall|i: int| 0 <= i < rules.len() ==> !is_dir_only((#[trigger] rules[i]).0),
    ensures
        denies(rules, path, true) == denies(rules, path, false),
{
    lemma_same_verdicts(rules, path, true, path, false);
}

/// **Law.** Where no pattern has an interior separator, an entry is denied
/// under a path if and only if it is denied under any other path with the same
/// name at its end, such as the name alone.
///
/// Left out are patterns that can match a separator without writing one; where
/// only a class at either end of them can, just paths that are not clean.
pub proof fn law_component_rules_heed_the_name_alone(
    rules: Seq<Rule>,
    p: Seq<u8>,
    q: Seq<u8>,
    is_dir: bool,
)
    requires
        forall|i: int|
            0 <= i < rules.len() ==> !has_interior_slash((#[trigger] rules[i]).0) && looks_at_name(
                body(rules[i].0),
                p,
            ) && looks_at_name(body(rules[i].0), q),
        last_component(p) == last_component(q),
        last_component(p).len() > 0,
    ensures
        denies(rules, p, is_dir) == denies(rules, q, is_dir),
{
    assert forall|i: int| 0 <= i < rules.len() implies rule_verdict(#[trigger] rules[i], p, is_dir)
        == rule_verdict(rules[i], q, is_dir) by {
        lemma_component_rule(rules[i], p, q, is_dir);
    }
    lemma_same_verdicts(rules, p, is_dir, q, is_dir);
}

/// **Law.** Where case does not count, paths that differ only in the case of
/// ASCII letters are denied alike.
pub proof fn law_folding_rules_disregard_case(
    rules: Seq<Rule>,
    p: Seq<u8>,
    q: Seq<u8>,
    is_dir: bool,
)
    requires
        forall|i: int| 0 <= i < rules.len() ==> (#[trigger] rules[i]).1,
        ascii_lower(p) == ascii_lower(q),
    ensures
        denies(rules, p, is_dir) == denies(rules, q, is_dir),
{
    lemma_lower_last_component(p);
    lemma_lower_last_component(q);
    lemma_lower_stripped(p);
    lemma_lower_stripped(q);
    lemma_lower_clean(p);
    lemma_lower_clean(q);
    lemma_lower_parent(last_component(p));
    lemma_lower_parent(last_component(q));
    assert(p.len() == ascii_lower(p).len() && q.len() == ascii_lower(q).len());
    assert forall|i: int| 0 <= i < p.len() implies (#[trigger] p[i] == 0x2f) == (q[i] == 0x2f) by {
        assert(ascii_lower(p)[i] == ascii_lower_byte(p[i]));
        assert(ascii_lower(q)[i] == ascii_lower_byte(q[i]));
    }
    assert(is_slash_free(p) == is_slash_free(q)) by {
        assert forall|i: int| 0 <= i < p.len() && q[i] == 0x2f implies p[i] == 0x2f by {}
        if is_slash_free(p) {
            assert forall|i: int| 0 <= i < q.len() implies #[trigger] q[i] != 0x2f by {
                assert(p[i] != 0x2f);
            }
        }
    }
    lemma_same_verdicts(rules, p, is_dir, q, is_dir);
}

/// **Law.** A literal pattern without a separator hides the entries of that
/// name at any depth, and nothing else.
pub proof fn law_literal_name(line: Seq<char>, fold: bool, path: Seq<u8>, is_dir: bool)
    requires
        is_literal(line),
        !is_anchored(line),
        !is_negated(line),
        !is_dir_only(line),
    ensures
        denies(seq![(line, fold)], path, is_dir) <==> folded(fold, last_component(path)) == folded(
            fold,
            encode_utf8(body(line)),
        ),
{
    lemma_single(line, fold, path, is_dir);
    lemma_literal_is_no_catch_all(line);
}

/// **Law.** A literal pattern with a separator hides the one entry at that
/// path below the mount root.
pub proof fn law_literal_path(line: Seq<char>, fold: bool, path: Seq<u8>, is_dir: bool)
    requires
        is_literal(line),
        is_anchored(line),
        !is_negated(line),
        !is_dir_only(line),
    ensures
        denies(seq![(line, fold)], path, is_dir) <==> folded(fold, stripped(path)) == folded(
            fold,
            encode_utf8(body(line)),
        ),
{
    lemma_single(line, fold, path, is_dir);
    lemma_literal_is_no_catch_all(line);
}

/// **Law.** A line that is no remark, is not long, and has no classes, braces
/// or escapes is always in force.
pub proof fn law_short_simple_line_makes_rule(line: Seq<char>, fold: bool)
    requires
        !is_remark(line),
        is_simple(line),
        line.len() <= SHORT_LINE,
    ensures
        makes_rule(line, fold),
{
    lemma_body_follows_marks(line);
    let text = body(line);
    assert forall|i: int| 0 <= i < text.len() implies #[trigger] text[i] != '[' && text[i] != '{'
        && text[i] != '}' && text[i] != '\\' by {
        assert(line[i + marks(line)] != '[');
    }
    if text.len() > 0 {
        assert(text[text.len() - 1] != '\\');
    }
    assert(glob_text(line) == text);
    lemma_simple_is_valid(text);
    lemma_brace_free(line, 0, 0);
}

/// **Law.** A star in front of literal text hides the entries whose names end
/// in that text, at any depth, and nothing else: `*.log` hides the log files,
/// and `*` hides everything.
///
/// Paths that end in `..` are left out.
pub proof fn law_star_hides_endings(
    line: Seq<char>,
    text: Seq<char>,
    fold: bool,
    path: Seq<u8>,
    is_dir: bool,
)
    requires
        body(line) == seq!['*'] + text,
        forall|i: int| 0 <= i < text.len() ==> !is_glob_char(#[trigger] text[i]),
        !is_anchored(line),
        !is_negated(line),
        !is_dir_only(line),
        !is_parent(last_component(path)),
    ensures
        denies(seq![(line, fold)], path, is_dir) <==> folded(fold, encode_utf8(text)).is_suffix_of(
            folded(fold, last_component(path)),
        ),
{
    lemma_single(line, fold, path, is_dir);
    let pattern = body(line);
    assert(pattern[0] == '*');
    assert(is_glob_char(pattern[0]));
    assert forall|i: int| 0 <= i < pattern.len() implies #[trigger] pattern[i] != '[' && pattern[i]
        != '{' && pattern[i] != '}' && pattern[i] != '\\' by {
        if i > 0 {
            assert(!is_glob_char(text[i - 1]));
        }
    }
    if pattern == seq!['*', '*'] || pattern == seq!['*', '*', '/'] {
        assert(pattern[1] == '*');
        assert(is_glob_char(text[0]));
    }
    let name = last_component(path);
    let subject = folded(fold, name);
    lemma_last_component_is_slash_free(path);
    assert forall|j: int| 0 <= j < subject.len() implies #[trigger] subject[j] != 0x2f by {
        assert(name[j] != 0x2f);
    }
    lemma_star_matches_endings(fold, text, subject);
}

/// A star and literal text match what ends in the text.
proof fn lemma_star_matches_endings(fold: bool, text: Seq<char>, subject: Seq<u8>)
    requires
        forall|i: int| 0 <= i < text.len() ==> !is_glob_char(#[trigger] text[i]),
        is_slash_free(subject),
    ensures
        wild_matches(fold, seq!['*'] + text, subject) <==> folded(
            fold,
            encode_utf8(text),
        ).is_suffix_of(subject),
    decreases subject.len(),
{
    let pattern = seq!['*'] + text;
    let end = folded(fold, encode_utf8(text));
    assert(pattern.skip(1) =~= text);
    lemma_text_matches_itself(fold, text, subject);
    if subject.len() > 0 {
        let rest = subject.skip(1);
        assert forall|i: int| 0 <= i < rest.len() implies #[trigger] rest[i] != 0x2f by {
            assert(subject[i + 1] != 0x2f);
        }
        assert(subject[0] != 0x2f);
        lemma_star_matches_endings(fold, text, rest);
        if end.is_suffix_of(rest) {
            assert(end =~= subject.skip(subject.len() - end.len()));
        }
        if end.is_suffix_of(subject) {
            if end.len() == subject.len() {
                assert(end =~= subject);
            } else {
                assert(end =~= rest.skip(rest.len() - end.len()));
            }
        }
    } else {
        if end.is_suffix_of(subject) {
            assert(end =~= subject);
        }
    }
}

/// Literal text matches itself alone.
proof fn lemma_text_matches_itself(fold: bool, text: Seq<char>, subject: Seq<u8>)
    requires
        forall|i: int| 0 <= i < text.len() ==> !is_glob_char(#[trigger] text[i]),
    ensures
        wild_matches(fold, text, subject) <==> subject == folded(fold, encode_utf8(text)),
    decreases text.len(),
{
    if text.len() == 0 {
        assert(encode_utf8(text) =~= Seq::empty());
        assert(folded(fold, encode_utf8(text)) =~= Seq::empty());
        if subject.len() == 0 {
            assert(subject =~= Seq::empty());
        }
    } else {
        let rest = text.drop_first();
        assert(text.skip(1) =~= rest);
        assert(!is_glob_char(text[0]));
        assert forall|i: int| 0 <= i < rest.len() implies !is_glob_char(#[trigger] rest[i]) by {
            assert(!is_glob_char(text[i + 1]));
        }
        let c = folded(fold, encode_scalar(text[0] as u32));
        let tail = folded(fold, encode_utf8(rest));
        assert(encode_utf8(text) =~= encode_scalar(text[0] as u32) + encode_utf8(rest));
        assert(folded(fold, encode_utf8(text)) =~= c + tail);
        let n: int = c.len() as int;
        lemma_text_matches_itself(fold, rest, subject.skip(n));
        if c.is_prefix_of(subject) && subject.skip(n) == tail {
            assert(subject =~= c + tail);
        }
        if subject == c + tail {
            assert(c =~= subject.take(n));
            assert(subject.skip(n) =~= tail);
        }
    }
}

/// **Law.** Without negated patterns, a list denies what either of its parts
/// denies: neither order nor repetition matters, and more patterns never deny
/// less.
pub proof fn law_parts_deny_together(
    a: Seq<Seq<char>>,
    b: Seq<Seq<char>>,
    fold: bool,
    path: Seq<u8>,
    is_dir: bool,
)
    requires
        forall|i: int| 0 <= i < a.len() ==> !is_negated(#[trigger] a[i]),
        forall|i: int| 0 <= i < b.len() ==> !is_negated(#[trigger] b[i]),
    ensures
        denies(made_rules(a + b, fold), path, is_dir) == (denies(made_rules(a, fold), path, is_dir)
            || denies(made_rules(b, fold), path, is_dir)),
{
    lemma_made_rules_concat(a, b, fold);
    lemma_later_rules_decide(made_rules(a, fold), made_rules(b, fold), path, is_dir);
    lemma_nothing_is_exempted(b, fold, path, is_dir);
}

/// Without negated patterns nothing is exempted.
proof fn lemma_nothing_is_exempted(
    lines: Seq<Seq<char>>,
    fold: bool,
    path: Seq<u8>,
    is_dir: bool,
)
    requires
        forall|i: int| 0 <= i < lines.len() ==> !is_negated(#[trigger] lines[i]),
    ensures
        !(rules_say(made_rules(lines, fold), path, is_dir) is Allow),
    decreases lines.len(),
{
    if lines.len() > 0 {
        let rest = lines.drop_last();
        let rule = (lines.last(), fold);
        assert(!is_negated(lines[lines.len() - 1]));
        assert forall|i: int| 0 <= i < rest.len() implies !is_negated(#[trigger] rest[i]) by {
            assert(rest[i] == lines[i]);
        }
        lemma_nothing_is_exempted(rest, fold, path, is_dir);
        let rules = made_rules(rest, fold);
        let all = verdicts(rules.push(rule), path, is_dir);
        assert(all.drop_last() =~= verdicts(rules, path, is_dir));
    }
}

/// **Law.** The last match wins: whatever the lines before it say, a plain name
/// at the end of a list hides the entries of that name, and the same name
/// behind a `!` exempts them.
///
/// Where case does not count, long names are left out.
pub proof fn law_last_name_wins(
    lines: Seq<Seq<char>>,
    name: Seq<char>,
    fold: bool,
    path: Seq<u8>,
    is_dir: bool,
)
    requires
        is_plain_name(name),
        fold ==> name.len() < SHORT_LINE,
        is_called(fold, path, name),
    ensures
        denies(made_rules(lines.push(name), fold), path, is_dir),
        !denies(made_rules(lines.push(seq!['!'] + name), fold), path, is_dir),
{
    let negated = seq!['!'] + name;
    let rules = made_rules(lines, fold);
    lemma_plain_name(name);
    lemma_negated_name(name);
    lemma_literal_is_no_catch_all(name);
    lemma_literal_is_no_catch_all(negated);
    assert(lines.push(name).drop_last() =~= lines);
    assert(lines.push(negated).drop_last() =~= lines);
    law_last_rule_decides(rules, (name, fold), path, is_dir);
    law_last_rule_decides(rules, (negated, fold), path, is_dir);
}

/// A plain name behind a `!` makes a rule that exempts that name.
proof fn lemma_negated_name(name: Seq<char>)
    requires
        is_plain_name(name),
    ensures
        makes_rule(seq!['!'] + name, false),
        name.len() < SHORT_LINE ==> makes_rule(seq!['!'] + name, true),
        body(seq!['!'] + name) == name,
        is_literal(seq!['!'] + name),
        !is_anchored(seq!['!'] + name),
        is_negated(seq!['!'] + name),
        !is_dir_only(seq!['!'] + name),
{
    let line = seq!['!'] + name;
    lemma_plain_name(name);
    assert(line.last() == name.last());
    assert(!is_glob_char(name[name.len() - 1]) && name[name.len() - 1] != '/');
    assert(line[line.len() - 2] == '!' || line[line.len() - 2] == name[name.len() - 2]);
    if name.len() >= 2 {
        assert(!is_glob_char(name[name.len() - 2]));
    }
    assert(trimmed(line) == line);
    assert(line.skip(1) =~= name);
    assert(name[0] != '/');
    assert forall|i: int| 0 <= i < line.len() implies #[trigger] line[i] != '[' && line[i] != '{'
        && line[i] != '}' && line[i] != '\\' by {
        if i > 0 {
            assert(!is_glob_char(name[i - 1]));
        }
    }
    lemma_brace_free(line, 0, 0);
    assert forall|i: int| 0 <= i < name.len() implies #[trigger] name[i] != '[' && name[i] != '{'
        && name[i] != '}' && name[i] != '\\' by {
        assert(!is_glob_char(name[i]));
    }
    lemma_simple_is_valid(name);
    assert(glob_text(line) == name);
    assert(compiles_alone((line, false)));
    if name.len() < SHORT_LINE {
        assert(compiles_alone((line, true)));
    }
}

/// **Law.** A path pattern does not match a bare name.
///
/// Left out are patterns whose separators all stand in a leading `**/`, in a
/// class, or in braces, where they may be matched by none.
pub proof fn law_path_patterns_match_no_name(rules: Seq<Rule>, name: Seq<u8>, is_dir: bool)
    requires
        forall|i: int| 0 <= i < rules.len() ==> has_free_slash(body((#[trigger] rules[i]).0)),
        is_slash_free(name),
    ensures
        !denies(rules, name, is_dir),
    decreases rules.len(),
{
    if rules.len() > 0 {
        let rest = rules.drop_last();
        let rule = rules.last();
        assert forall|i: int| 0 <= i < rest.len() implies has_free_slash(
            body((#[trigger] rest[i]).0),
        ) by {
            assert(rest[i] == rules[i]);
        }
        law_path_patterns_match_no_name(rest, name, is_dir);
        assert(rest.push(rule) =~= rules);
        assert(rules[rules.len() - 1] == rule);
        lemma_path_rule(rule, name, is_dir);
        law_last_rule_decides(rest, rule, name, is_dir);
    }
}

/// A path rule is silent on a bare name.
proof fn lemma_path_rule(rule: Rule, name: Seq<u8>, is_dir: bool)
    requires
        has_free_slash(body(rule.0)),
        is_slash_free(name),
    ensures
        rule_verdict(rule, name, is_dir) is Silent,
{
    let text = body(rule.0);
    lemma_free_slash_is_slash(text);
    if text == seq!['*', '*'] {
        assert(text[0] != '/' && text[1] != '/');
    }
    if text == seq!['*', '*', '/'] {
        let rest = without_recursive_prefix(text.skip(3));
        assert(rest == text.skip(3));
        assert(rest.len() == 0);
    }
    assert(!matches_all(rule.0));
    lemma_encoded_slash(text);
    let encoded = encode_utf8(text);
    let i = choose|i: int| 0 <= i < encoded.len() && encoded[i] == 0x2f;
    assert(folded(rule.1, encoded)[i] == 0x2f);
    assert(stripped(name) == name);
    let subject = folded(rule.1, name);
    assert forall|j: int| 0 <= j < subject.len() implies #[trigger] subject[j] != 0x2f by {
        assert(name[j] != 0x2f);
    }
    if wild_matches(rule.1, text, subject) {
        lemma_wild_slash(rule.1, text, subject);
    }
    if folded(rule.1, name) == folded(rule.1, encoded) {
        assert(folded(rule.1, name).len() == name.len());
        assert(folded(rule.1, encoded).len() == encoded.len());
        assert(folded(rule.1, name)[i] == if rule.1 {
            ascii_lower_byte(name[i])
        } else {
            name[i]
        });
        assert(name[i] == 0x2f);
    }
}

/// Wildcards match a separator only with one.
proof fn lemma_wild_slash(fold: bool, pattern: Seq<char>, subject: Seq<u8>)
    requires
        wild_matches(fold, pattern, subject),
        pattern.contains('/'),
    ensures
        !is_slash_free(subject),
    decreases pattern.len(), subject.len(),
{
    let rest = pattern.skip(1);
    if pattern[0] == '/' {
        lemma_encoded_separator(fold);
        assert(subject[0] == folded(fold, encode_scalar('/' as u32))[0]);
    } else {
        let i = choose|i: int| 0 <= i < pattern.len() && pattern[i] == '/';
        assert(rest[i - 1] == '/');
        let taken: int = if pattern[0] == '*' {
            if wild_matches(fold, rest, subject) {
                lemma_wild_slash(fold, rest, subject);
                0
            } else {
                lemma_wild_slash(fold, pattern, subject.skip(1));
                1
            }
        } else if pattern[0] == '?' {
            lemma_wild_slash(fold, rest, subject.skip(1));
            1
        } else {
            let c = folded(fold, encode_scalar(pattern[0] as u32));
            lemma_wild_slash(fold, rest, subject.skip(c.len() as int));
            c.len() as int
        };
        let left = subject.skip(taken);
        assert(subject.skip(0) =~= subject);
        let j = choose|j: int| 0 <= j < left.len() && left[j] == 0x2f;
        assert(subject[j + taken] == 0x2f);
    }
}

/// Wildcards that end in a separator match only what ends in one.
proof fn lemma_wild_end(fold: bool, pattern: Seq<char>, subject: Seq<u8>)
    requires
        wild_matches(fold, pattern, subject),
        pattern.len() > 0,
        pattern.last() == '/',
    ensures
        subject.len() > 0,
        subject.last() == 0x2f,
    decreases pattern.len(), subject.len(),
{
    let rest = pattern.skip(1);
    if pattern.len() == 1 {
        lemma_encoded_separator(fold);
        let c = folded(fold, encode_scalar('/' as u32));
        reveal_with_fuel(wild_matches, 2);
        assert(pattern[0] == '/' && rest.len() == 0);
        assert(subject.skip(c.len() as int).len() == 0);
        assert(subject[0] == c[0]);
    } else if pattern[0] == '*' {
        if wild_matches(fold, rest, subject) {
            lemma_wild_end(fold, rest, subject);
        } else {
            lemma_wild_end(fold, pattern, subject.skip(1));
        }
    } else if pattern[0] == '?' {
        lemma_wild_end(fold, rest, subject.skip(1));
    } else {
        let c = folded(fold, encode_scalar(pattern[0] as u32));
        lemma_wild_end(fold, rest, subject.skip(c.len() as int));
    }
}

/// A separator is encoded as one byte.
proof fn lemma_encoded_separator(fold: bool)
    ensures
        folded(fold, encode_scalar('/' as u32)) == seq![0x2fu8],
{
    assert(0x2fu32 & 0x7f == 0x2f) by (bit_vector);
    assert(encode_scalar('/' as u32) =~= seq![0x2fu8]);
    assert(folded(fold, seq![0x2fu8]) =~= seq![0x2fu8]);
}

/// Text with a separator is encoded with a separator.
proof fn lemma_encoded_slash(text: Seq<char>)
    requires
        text.contains('/'),
    ensures
        exists|i: int| 0 <= i < encode_utf8(text).len() && encode_utf8(text)[i] == 0x2f,
    decreases text.len(),
{
    let head = encode_scalar(text[0] as u32);
    let rest = text.drop_first();
    if text[0] == '/' {
        assert(0x2fu32 & 0x7f == 0x2f) by (bit_vector);
        assert(head[0] == 0x2f);
        assert(encode_utf8(text)[0] == 0x2f);
    } else {
        let j = choose|j: int| 0 <= j < text.len() && text[j] == '/';
        assert(rest[j - 1] == '/');
        lemma_encoded_slash(rest);
        let i = choose|i: int| 0 <= i < encode_utf8(rest).len() && encode_utf8(rest)[i] == 0x2f;
        assert(encode_utf8(text)[i + head.len()] == 0x2f);
    }
}

/// **Law.** A list that is made without regard to case denies alike the paths
/// that differ only in the case of ASCII letters.
pub proof fn law_folding_list_disregards_case(
    lines: Seq<Seq<char>>,
    p: Seq<u8>,
    q: Seq<u8>,
    is_dir: bool,
)
    requires
        ascii_lower(p) == ascii_lower(q),
    ensures
        denies(made_rules(lines, true), p, is_dir) == denies(
            made_rules(lines, true),
            q,
            is_dir,
        ),
{
    lemma_rules_come_from_lines(lines, true);
    law_folding_rules_disregard_case(made_rules(lines, true), p, q, is_dir);
}

/// Whether the line is a name, with nothing in it that has a meaning of its
/// own.
pub open spec fn is_plain_name(line: Seq<char>) -> bool {
    &&& line.len() > 0
    &&& forall|i: int|
        0 <= i < line.len() ==> !is_glob_char(#[trigger] line[i]) && line[i] != '/'
    &&& line[0] != '!' && line[0] != '#'
    &&& !is_white_space(line.last())
    &&& line != seq!['.', '.']
}

/// **Law.** A list of plain names denies the entries of those names at any
/// depth, in any case where case does not count, and nothing else.
///
/// Where case does not count, long names that the matcher cannot compile are
/// left out.
pub proof fn law_plain_names(lines: Seq<Seq<char>>, fold: bool, path: Seq<u8>, is_dir: bool)
    requires
        forall|i: int| 0 <= i < lines.len() ==> is_plain_name(#[trigger] lines[i]),
        fold ==> forall|i: int|
            0 <= i < lines.len() ==> (#[trigger] lines[i]).len() <= SHORT_LINE || makes_rule(
                lines[i],
                fold,
            ),
    ensures
        denies(made_rules(lines, fold), path, is_dir) <==> exists|i: int|
            0 <= i < lines.len() && is_called(fold, path, #[trigger] lines[i]),
{
    assert forall|i: int| 0 <= i < lines.len() implies makes_rule(#[trigger] lines[i], fold) by {
        lemma_plain_name(lines[i]);
    }
    lemma_plain_rules(lines, fold, path, is_dir);
}

/// Whether the path ends in the name that the line is.
pub open spec fn is_called(fold: bool, path: Seq<u8>, line: Seq<char>) -> bool {
    folded(fold, last_component(path)) == folded(fold, encode_utf8(line))
}

proof fn lemma_plain_rules(lines: Seq<Seq<char>>, fold: bool, path: Seq<u8>, is_dir: bool)
    requires
        forall|i: int|
            0 <= i < lines.len() ==> is_plain_name(#[trigger] lines[i]) && makes_rule(
                lines[i],
                fold,
            ),
    ensures
        made_rules(lines, fold).len() == lines.len(),
        forall|i: int|
            0 <= i < lines.len() ==> #[trigger] made_rules(lines, fold)[i] == (lines[i], fold)
                && is_literal(lines[i]) && body(lines[i]).len() > 0,
        denies(made_rules(lines, fold), path, is_dir) <==> exists|i: int|
            0 <= i < lines.len() && is_called(fold, path, #[trigger] lines[i]),
    decreases lines.len(),
{
    if lines.len() > 0 {
        let rest = lines.drop_last();
        let line = lines.last();
        assert(is_plain_name(lines[lines.len() - 1]));
        assert forall|i: int| 0 <= i < rest.len() implies is_plain_name(#[trigger] rest[i])
            && makes_rule(rest[i], fold) by {
            assert(rest[i] == lines[i]);
        }
        lemma_plain_rules(rest, fold, path, is_dir);
        lemma_plain_name(line);
        lemma_literal_is_no_catch_all(line);
        law_last_rule_decides(made_rules(rest, fold), (line, fold), path, is_dir);
        assert forall|i: int| 0 <= i < lines.len() implies #[trigger] made_rules(lines, fold)[i]
            == (lines[i], fold) && is_literal(lines[i]) && body(lines[i]).len() > 0 by {
            if i < rest.len() {
                assert(made_rules(rest, fold)[i] == (rest[i], fold));
                assert(rest[i] == lines[i]);
            }
        }
        if is_called(fold, path, line) {
            assert(is_called(fold, path, lines[lines.len() - 1]));
        } else if exists|i: int|
            0 <= i < rest.len() && is_called(fold, path, #[trigger] rest[i]) {
            let i = choose|i: int|
                0 <= i < rest.len() && is_called(fold, path, #[trigger] rest[i]);
            assert(is_called(fold, path, lines[i]));
        } else {
            assert forall|i: int| 0 <= i < lines.len() implies !is_called(
                fold,
                path,
                #[trigger] lines[i],
            ) by {
                if i < rest.len() {
                    assert(rest[i] == lines[i]);
                }
            }
        }
    }
}

/// A plain name is its own body, and makes a rule that heeds case; where it is
/// short, also one that does not.
proof fn lemma_plain_name(line: Seq<char>)
    requires
        is_plain_name(line),
    ensures
        makes_rule(line, false),
        line.len() <= SHORT_LINE ==> makes_rule(line, true),
        body(line) == line,
        is_literal(line),
        !is_anchored(line),
        !is_negated(line),
        !is_dir_only(line),
{
    assert(trimmed(line) == line);
    assert(!is_glob_char(line[line.len() - 1]) && line[line.len() - 1] != '/');
    assert(line[0] != '/');
    assert(!line.contains('/'));
    assert forall|i: int| 0 <= i < line.len() implies #[trigger] line[i] != '{' by {
        assert(!is_glob_char(line[i]));
    }
    assert(is_simple(line)) by {
        assert forall|i: int| 0 <= i < line.len() implies #[trigger] line[i] != '[' && line[i] != '{'
            && line[i] != '}' && line[i] != '\\' by {
            assert(!is_glob_char(line[i]));
        }
    }
    lemma_brace_free(line, 0, 0);
    lemma_simple_is_valid(line);
    assert(glob_text(line) == line);
    assert(compiles_alone((line, false)));
    if line.len() <= SHORT_LINE {
        assert(compiles_alone((line, true)));
    }
}

proof fn lemma_single(line: Seq<char>, fold: bool, path: Seq<u8>, is_dir: bool)
    ensures
        denies(seq![(line, fold)], path, is_dir) == (rule_verdict((line, fold), path, is_dir)
            is Deny),
{
    let none: Seq<Rule> = Seq::empty();
    law_last_rule_decides(none, (line, fold), path, is_dir);
    assert(none.push((line, fold)) =~= seq![(line, fold)]);
}

proof fn lemma_literal_is_no_catch_all(line: Seq<char>)
    requires
        is_literal(line),
    ensures
        !matches_all(line),
{
    if body(line) == seq!['*', '*'] || body(line) == seq!['*', '*', '/'] {
        assert(is_glob_char(body(line)[0]));
    }
}

/// A rule without an interior separator says the same of paths with the same
/// name at their end.
proof fn lemma_component_rule(rule: Rule, p: Seq<u8>, q: Seq<u8>, is_dir: bool)
    requires
        !has_interior_slash(rule.0),
        looks_at_name(body(rule.0), p),
        looks_at_name(body(rule.0), q),
        last_component(p) == last_component(q),
        last_component(p).len() > 0,
    ensures
        rule_verdict(rule, p, is_dir) == rule_verdict(rule, q, is_dir),
{
    let text = body(rule.0);
    if has_free_slash(text) {
        lemma_free_slash_is_slash(text);
    }
    if is_anchored(rule.0) && !matches_all(rule.0) {
        lemma_anchored_without_interior_slash(rule.0);
        if is_literal(rule.0) {
            lemma_stripped_end(p);
            lemma_stripped_end(q);
            if text.len() > 0 {
                lemma_encoded_end(text);
                let encoded = encode_utf8(text);
                assert(folded(rule.1, encoded).last() == 0x2f);
            }
            assert(folded(rule.1, stripped(p)).len() > 0);
            assert(folded(rule.1, stripped(p)).last() != 0x2f);
            assert(folded(rule.1, stripped(q)).len() > 0);
            assert(folded(rule.1, stripped(q)).last() != 0x2f);
        } else {
            lemma_stripped_end(p);
            lemma_stripped_end(q);
            let (x, y) = (folded(rule.1, stripped(p)), folded(rule.1, stripped(q)));
            assert(x.len() > 0 && x.last() != 0x2f && y.len() > 0 && y.last() != 0x2f);
            if wild_matches(rule.1, text, x) && text.len() > 0 {
                lemma_wild_end(rule.1, text, x);
            }
            if wild_matches(rule.1, text, y) && text.len() > 0 {
                lemma_wild_end(rule.1, text, y);
            }
        }
    }
}

/// A path with a name at its end keeps it when it is stripped.
proof fn lemma_stripped_end(path: Seq<u8>)
    requires
        last_component(path).len() > 0,
    ensures
        path.len() > 0,
        path.last() != 0x2f,
        stripped(path).len() > 0,
        stripped(path).last() == path.last(),
{
}

/// Text that ends in a separator is encoded with a separator at its end.
proof fn lemma_encoded_end(text: Seq<char>)
    requires
        text.len() > 0,
        text.last() == '/',
    ensures
        encode_utf8(text).len() > 0,
        encode_utf8(text).last() == 0x2f,
    decreases text.len(),
{
    let rest = text.drop_first();
    if rest.len() > 0 {
        lemma_encoded_end(rest);
        assert(encode_utf8(text).last() == encode_utf8(rest).last());
    } else {
        assert(text[0] == '/');
        assert(0x2fu32 & 0x7f == 0x2f) by (bit_vector);
        assert(encode_utf8(rest) =~= Seq::empty());
        assert(encode_utf8(text) =~= seq![0x2fu8]);
    }
}

/// Trimming white space leaves a prefix.
proof fn lemma_trim_end_prefix(s: Seq<char>)
    ensures
        trim_end(s).len() <= s.len(),
        forall|i: int| 0 <= i < trim_end(s).len() ==> #[trigger] trim_end(s)[i] == s[i],
    decreases s.len(),
{
    if s.len() > 0 && is_white_space(s.last()) {
        lemma_trim_end_prefix(s.drop_last());
    }
}

/// How many marks for negation and root the line starts with.
spec fn marks(line: Seq<char>) -> int {
    (if is_negated(line) {
        1int
    } else {
        0
    }) + (if is_rooted(line) {
        1int
    } else {
        0
    })
}

/// The body is what follows the marks.
proof fn lemma_body_follows_marks(line: Seq<char>)
    ensures
        body(line).len() + marks(line) <= line.len(),
        forall|i: int| 0 <= i < body(line).len() ==> #[trigger] body(line)[i] == line[i + marks(line)],
{
    lemma_trim_end_prefix(line);
}

/// A line that is anchored without an interior separator has a body that is
/// empty or ends in a separator.
proof fn lemma_anchored_without_interior_slash(line: Seq<char>)
    requires
        is_anchored(line),
        !has_interior_slash(line),
    ensures
        body(line).len() == 0 || body(line).last() == '/',
        !seq!['*', '*', '/', '*', '*'].is_prefix_of(body(line)),
{
    lemma_trim_end_prefix(line);
    lemma_body_follows_marks(line);
    let text = body(line);
    let marks = marks(line);
    let slash: int = if is_rooted(line) {
        marks - 1
    } else {
        marks + choose|i: int| 0 <= i < text.len() && text[i] == '/'
    };
    assert(line[slash] == '/');
    assert forall|i: int| slash < i < line.len() implies #[trigger] line[i] == '/' by {
        assert(line[slash] == '/');
    }
    if text.len() > 0 {
        let end = text.len() - 1;
        assert(text[end] == line[end + marks]);
    }
    let stars = seq!['*', '*', '/', '*', '*'];
    if stars.is_prefix_of(text) {
        assert(text[2] == stars[2]);
        assert(text[3] == stars[3]);
        assert(line[2 + marks] == '/' && line[3 + marks] != '/');
    }
}

/// **Law.** A line that is no remark, can be parsed, has no more braces than may
/// nest, and compiles by itself makes its rule, with the case mode of the list.
/// A remark, or a line that cannot be parsed, makes none.
pub proof fn law_valid_line_makes_its_rule(line: Seq<char>, fold: bool)
    ensures
        !is_remark(line) && is_valid(glob_text(line)) && line.filter(|c: char| c == '{').len()
            <= 1000 && globs_compile(seq![(line, fold)], usize::BITS) ==> made_rules(
            seq![line],
            fold,
        ) == seq![(line, fold)],
        !is_remark(line) && is_taken(line) && brace_depth(line) <= MAX_BRACE_DEPTH
            && compiles_alone((line, fold)) ==> made_rules(seq![line], fold) == seq![(line, fold)],
        is_remark(line) || !is_valid(glob_text(line)) ==> made_rules(seq![line], fold) == Seq::<
            Rule,
        >::empty(),
{
    law_depth_counts_braces(0, line);
    let one = seq![line];
    assert(one.drop_last() =~= Seq::empty());
    assert(made_rules(one.drop_last(), fold) =~= Seq::empty());
    if makes_rule(line, fold) {
        assert(made_rules(one, fold) =~= seq![(line, fold)]);
    }
}

/// **Law.** The lines of a list make the rules that its parts make, in order,
/// and no lines make none.
pub proof fn law_rules_of_parts(a: Seq<Seq<char>>, b: Seq<Seq<char>>, fold: bool)
    ensures
        made_rules(a + b, fold) == made_rules(a, fold) + made_rules(b, fold),
        made_rules(Seq::empty(), fold) == Seq::<Rule>::empty(),
{
    lemma_made_rules_concat(a, b, fold);
}

/// **Law.** A list in force is the patterns that make rules, and nothing else:
/// each pattern that does is there under its own text, no rule comes from
/// elsewhere, and of two patterns the later one is the later rule.
pub proof fn law_rules_are_the_valid_patterns(patterns: Seq<String>, n: int, fold: bool)
    requires
        0 <= n < patterns.len(),
    ensures
        made_rules(lines_of(patterns), fold) == made_rules(lines_of(patterns.take(n)), fold)
            + made_rules(seq![patterns[n]@], fold) + made_rules(
            lines_of(patterns.skip(n + 1)),
            fold,
        ),
{
    let (a, b, c) = (
        lines_of(patterns.take(n)),
        seq![patterns[n]@],
        lines_of(patterns.skip(n + 1)),
    );
    assert(lines_of(patterns) =~= a + b + c);
    lemma_made_rules_concat(a + b, c, fold);
    lemma_made_rules_concat(a, b, fold);
}

/// **Law.** A rule by itself says what its verdict is, for the path and the
/// kind of entry that were asked about.
pub proof fn law_single_rule(rule: Rule, path: Seq<u8>, is_dir: bool)
    ensures
        rules_say(seq![rule], path, is_dir) == verdict(
            rule,
            path,
            is_dir,
            glob_matches(rule.0, rule.1, glob_subject(rule, path)),
        ),
        denies(seq![rule], path, is_dir) == (verdict(
            rule,
            path,
            is_dir,
            glob_matches(rule.0, rule.1, glob_subject(rule, path)),
        ) is Deny),
{
    let all = verdicts(seq![rule], path, is_dir);
    reveal_with_fuel(decision, 2);
    assert(all.len() == 1 && all.last() == rule_verdict(rule, path, is_dir));
    assert(all.drop_last() =~= Seq::empty());
}

/// **Law.** A pattern with classes, braces or escapes and without a separator
/// hides what its glob matches: files too, unless it is for directories only,
/// and in a clean path by the name at its end.
pub proof fn law_globs_hide_what_they_match(
    line: Seq<char>,
    fold: bool,
    path: Seq<u8>,
    is_dir: bool,
)
    requires
        !is_simple(body(line)),
        !is_anchored(line),
        !is_negated(line),
    ensures
        looks_at_name(body(line), path) ==> (denies(seq![(line, fold)], path, is_dir) <==> (is_dir
            || !is_dir_only(line)) && glob_matches(line, fold, folded(fold, last_component(path)))),
        !looks_at_name(body(line), path) ==> (denies(seq![(line, fold)], path, is_dir) <==> (is_dir
            || !is_dir_only(line)) && glob_matches(line, fold, folded(fold, path))),
{
    law_single_rule((line, fold), path, is_dir);
    let text = body(line);
    let i = choose|i: int|
        0 <= i < text.len() && !(#[trigger] text[i] != '[' && text[i] != '{' && text[i] != '}'
            && text[i] != '\\');
    assert(is_glob_char(text[i]));
    if text == seq!['*', '*'] || text == seq!['*', '*', '/'] {
        assert(text[i] == '*' || text[i] == '/');
    }
    if has_free_slash(text) {
        lemma_free_slash_is_slash(text);
    }
    if text.len() > 0 && text.last() == '/' {
        assert(text.contains(text[text.len() - 1]));
    }
}

/// **Law.** A plain name with a `/` behind it hides the directories of that
/// name at any depth, and nothing else; with a `/` in front of it, the one
/// entry of that name below the root.
///
/// Where case does not count, long names are left out.
pub proof fn law_marked_names(name: Seq<char>, fold: bool, path: Seq<u8>, is_dir: bool)
    requires
        is_plain_name(name),
        fold ==> name.len() < SHORT_LINE,
    ensures
        denies(made_rules(seq![name.push('/')], fold), path, is_dir) <==> is_dir && is_called(
            fold,
            path,
            name,
        ),
        denies(made_rules(seq![seq!['/'] + name], fold), path, is_dir) <==> folded(
            fold,
            stripped(path),
        ) == folded(fold, encode_utf8(name)),
{
    let (dir, rooted) = (name.push('/'), seq!['/'] + name);
    assert forall|i: int| 0 <= i < name.len() implies #[trigger] name[i] != '[' && name[i] != '{'
        && name[i] != '}' && name[i] != '\\' by {
        assert(!is_glob_char(name[i]));
    }
    assert(!name.contains('/')) by {
        assert forall|i: int| 0 <= i < name.len() implies #[trigger] name[i] != '/' by {
            assert(!is_glob_char(name[i]));
        }
    }
    let last = name.len() - 1;
    assert(!is_glob_char(name[last]) && name[last] != '/' && name[0] != '/');
    lemma_simple_is_valid(name);
    assert(trimmed(dir) == dir);
    assert(dir[0] == name[0]);
    assert(dir.drop_last() =~= name);
    assert(body(dir) == name && is_dir_only(dir) && !is_negated(dir) && !is_anchored(dir));
    assert(is_literal(dir));
    assert(glob_text(dir) == name);
    assert forall|i: int| 0 <= i < dir.len() implies #[trigger] dir[i] != '[' && dir[i] != '{'
        && dir[i] != '}' && dir[i] != '\\' by {
        if i < name.len() {
            assert(dir[i] == name[i]);
        }
    }
    lemma_brace_free(dir, 0, 0);
    assert(rooted.last() == name.last());
    assert(rooted.len() >= 2 ==> rooted[rooted.len() - 2] == '/' || rooted[rooted.len() - 2]
        == name[name.len() - 2]);
    assert(trimmed(rooted) == rooted);
    assert(rooted.skip(1) =~= name);
    assert(body(rooted) == name && !is_dir_only(rooted) && !is_negated(rooted) && is_anchored(
        rooted,
    ));
    assert(is_literal(rooted));
    assert(glob_text(rooted) == name);
    assert forall|i: int| 0 <= i < rooted.len() implies #[trigger] rooted[i] != '[' && rooted[i]
        != '{' && rooted[i] != '}' && rooted[i] != '\\' by {
        if i > 0 {
            assert(rooted[i] == name[i - 1]);
        }
    }
    lemma_brace_free(rooted, 0, 0);
    assert(compiles_alone((dir, fold)) && compiles_alone((rooted, fold)));
    assert(makes_rule(dir, fold) && makes_rule(rooted, fold));
    law_valid_line_makes_its_rule(dir, fold);
    law_valid_line_makes_its_rule(rooted, fold);
    law_single_rule((dir, fold), path, is_dir);
    law_single_rule((rooted, fold), path, is_dir);
    lemma_literal_is_no_catch_all(dir);
    lemma_literal_is_no_catch_all(rooted);
}

/// **Law.** If it matters to a list whether an entry is a directory, some line
/// of it ends in a `/`, or in white space.
pub proof fn law_kind_matters_to_marked_lines(lines: Seq<Seq<char>>, fold: bool, path: Seq<u8>)
    requires
        denies(made_rules(lines, fold), path, true) != denies(made_rules(lines, fold), path, false),
    ensures
        exists|i: int|
            0 <= i < lines.len() && (#[trigger] lines[i]).len() > 0 && (lines[i][lines[i].len() - 1]
                == '/' || is_white_space(lines[i][lines[i].len() - 1])),
{
    let rules = made_rules(lines, fold);
    lemma_rules_come_from_lines(lines, fold);
    if forall|i: int| 0 <= i < rules.len() ==> !is_dir_only((#[trigger] rules[i]).0) {
        law_only_dir_only_rules_heed_kind(rules, path);
    }
    let i = choose|i: int| 0 <= i < rules.len() && is_dir_only((#[trigger] rules[i]).0);
    let line = rules[i].0;
    let j = choose|j: int| 0 <= j < lines.len() && lines[j] == line;
    lemma_body_follows_marks(line);
    lemma_trim_end_prefix(line);
    assert(lines[j].len() > 0);
    if !is_white_space(line.last()) {
        assert(trimmed(line) == line);
        assert(line.last() == '/');
    }
}

/// **Law.** If it matters to a list in which directory an entry of some name
/// is, some line of it has a `/` with another character behind it.
///
/// Left out are lines that can match a separator without writing one.
pub proof fn law_path_matters_to_path_lines(
    lines: Seq<Seq<char>>,
    fold: bool,
    p: Seq<u8>,
    q: Seq<u8>,
    is_dir: bool,
)
    requires
        forall|i: int|
            0 <= i < lines.len() ==> looks_at_name(body(#[trigger] lines[i]), p) && looks_at_name(
                body(lines[i]),
                q,
            ),
        last_component(p) == last_component(q),
        last_component(p).len() > 0,
        denies(made_rules(lines, fold), p, is_dir) != denies(made_rules(lines, fold), q, is_dir),
    ensures
        exists|i: int, j: int, k: int|
            0 <= i < lines.len() && 0 <= j < k < lines[i].len() && #[trigger] lines[i][j] == '/'
                && #[trigger] lines[i][k] != '/',
{
    let rules = made_rules(lines, fold);
    lemma_rules_come_from_lines(lines, fold);
    if forall|i: int| 0 <= i < rules.len() ==> !has_interior_slash((#[trigger] rules[i]).0) {
        assert forall|i: int| 0 <= i < rules.len() implies !has_interior_slash(
            (#[trigger] rules[i]).0,
        ) && looks_at_name(body(rules[i].0), p) && looks_at_name(body(rules[i].0), q) by {
            let n = choose|n: int| 0 <= n < lines.len() && lines[n] == rules[i].0;
            assert(looks_at_name(body(lines[n]), p));
        }
        law_component_rules_heed_the_name_alone(rules, p, q, is_dir);
    }
    let r = choose|i: int| 0 <= i < rules.len() && has_interior_slash((#[trigger] rules[i]).0);
    let line = rules[r].0;
    let i = choose|i: int| 0 <= i < lines.len() && lines[i] == line;
    let (j, k) = choose|j: int, k: int|
        0 <= j < k < line.len() && line[j] == '/' && line[k] != '/';
    assert(lines[i][j] == '/' && lines[i][k] != '/');
}

/// **Law.** A pattern with nothing but `*` and `?` in it hides what it matches:
/// a pattern without a separator by the name at the end of the path, any other
/// by the path below the root.
///
/// Left out are paths that end in `..`, and patterns with a separator and two
/// stars in a row.
pub proof fn law_wildcards_hide_what_they_match(
    line: Seq<char>,
    fold: bool,
    path: Seq<u8>,
    is_dir: bool,
)
    requires
        is_simple(body(line)),
        body(line).contains('*') || body(line).contains('?'),
        body(line) != seq!['*', '*'],
        !(body(line).contains('/') && has_double_star(body(line))),
        !is_negated(line),
        !is_parent(last_component(path)),
    ensures
        !is_anchored(line) ==> (denies(seq![(line, fold)], path, is_dir) <==> (is_dir
            || !is_dir_only(line)) && wild_matches(
            fold,
            body(line),
            folded(fold, last_component(path)),
        )),
        is_anchored(line) ==> (denies(seq![(line, fold)], path, is_dir) <==> (is_dir
            || !is_dir_only(line)) && wild_matches(
            fold,
            body(line),
            folded(fold, stripped(path)),
        )),
{
    law_single_rule((line, fold), path, is_dir);
    let text = body(line);
    let i = choose|i: int| 0 <= i < text.len() && (text[i] == '*' || text[i] == '?');
    assert(is_glob_char(text[i]));
    if text == seq!['*', '*', '/'] {
        assert(text[0] == '*' && text[1] == '*' && text[2] == '/');
        assert(text.contains(text[2]));
    }
}

/// **Law.** A path pattern with classes, braces or escapes hides what its glob
/// matches among the paths with a separator.
pub proof fn law_path_globs_hide_what_they_match(
    line: Seq<char>,
    fold: bool,
    path: Seq<u8>,
    is_dir: bool,
)
    requires
        !is_simple(body(line)),
        is_anchored(line),
        body(line)[body(line).len() - 1] != '/',
        !is_negated(line),
        !is_slash_free(path),
    ensures
        denies(seq![(line, fold)], path, is_dir) <==> (is_dir || !is_dir_only(line))
            && glob_matches(line, fold, folded(fold, path)),
{
    law_single_rule((line, fold), path, is_dir);
    let text = body(line);
    let i = choose|i: int|
        0 <= i < text.len() && !(#[trigger] text[i] != '[' && text[i] != '{' && text[i] != '}'
            && text[i] != '\\');
    assert(is_glob_char(text[i]));
    if text == seq!['*', '*'] || text == seq!['*', '*', '/'] {
        assert(text[i] == '*' || text[i] == '/');
    }
}

/// **Law.** Two stars by themselves hide everything.
pub proof fn law_double_star_hides_everything(
    line: Seq<char>,
    fold: bool,
    path: Seq<u8>,
    is_dir: bool,
)
    requires
        body(line) == seq!['*', '*'],
        !is_negated(line),
    ensures
        denies(seq![(line, fold)], path, is_dir) <==> is_dir || !is_dir_only(line),
{
    law_single_rule((line, fold), path, is_dir);
}

/// A line without classes, braces and escapes can match no separator without
/// writing one.
pub proof fn lemma_simple_body(line: Seq<char>)
    requires
        is_simple(line),
    ensures
        is_simple(body(line)),
        forall|path: Seq<u8>| #[trigger] looks_at_name(body(line), path),
{
    lemma_body_follows_marks(line);
    let text = body(line);
    assert forall|i: int| 0 <= i < text.len() implies #[trigger] text[i] != '[' && text[i] != '{'
        && text[i] != '}' && text[i] != '\\' by {
        assert(line[i + marks(line)] != '[');
    }
}

} // verus!
