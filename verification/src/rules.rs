//! The rules that a list of patterns comes down to, and what they deny.
use crate::gitignore::{
    add_line, automaton_size, build, builder_folds, builder_rules, glob_matches, globs_compile,
    is_compilable, is_taken, matched, matcher_rules, new_builder, set_case_insensitive,
    suffix_bytes, suffix_count, MAX_AUTOMATON,
};
use crate::glob::{brace_depth, count_brace_depth, MAX_BRACE_DEPTH};
use crate::line::{
    decision, glob_subject, is_recursive, is_remark, scan_recursive, verdict, Rule, Verdict,
};
use crate::paths::path_bytes;
use ignore::gitignore::{Gitignore, GitignoreBuilder};
use std::path::Path;
use vstd::prelude::*;
use vstd::slice::slice_subrange;

verus! {

/// The text of each pattern.
pub open spec fn lines_of(patterns: Seq<String>) -> Seq<Seq<char>> {
    patterns.map_values(|pattern: String| pattern@)
}

/// The rules that the lines would make if all of them were valid patterns.
pub open spec fn possible_rules(lines: Seq<Seq<char>>, fold: bool) -> Seq<Rule> {
    lines.map_values(|line: Seq<char>| (line, fold))
}

/// The most characters that a line that starts with `**/` may have, where case
/// counts: half a billion, which one automaton can still hold.
pub const LONG_LINE: usize = 0x1fff_0000;

/// Whether the line is not too long for the matcher.
pub open spec fn fits(line: Seq<char>, fold: bool) -> bool {
    !fold && is_recursive(line) ==> line.len() <= LONG_LINE
}

/// Whether no line is too long for the matcher.
pub open spec fn all_fit(lines: Seq<Seq<char>>, fold: bool) -> bool {
    forall|i: int| 0 <= i < lines.len() ==> fits(#[trigger] lines[i], fold)
}

/// Whether one automaton can hold what the lines put into it, whichever of them
/// make rules.
pub open spec fn is_bounded(lines: Seq<Seq<char>>, fold: bool) -> bool {
    automaton_size(possible_rules(lines, fold)) <= MAX_AUTOMATON
}

/// Whether the rule can be compiled by itself.
pub open spec fn compiles_alone(rule: Rule) -> bool {
    is_compilable(seq![rule], globs_compile(seq![rule], usize::BITS))
}

/// Whether the line makes a rule: it is no remark, and it is a valid pattern.
pub open spec fn makes_rule(line: Seq<char>, fold: bool) -> bool {
    &&& !is_remark(line)
    &&& brace_depth(line) <= MAX_BRACE_DEPTH
    &&& is_taken(line)
    &&& compiles_alone((line, fold))
}

/// The rules that the lines make, in order; lines that make none are skipped.
pub open spec fn made_rules(lines: Seq<Seq<char>>, fold: bool) -> Seq<Rule>
    decreases lines.len(),
{
    if lines.len() == 0 {
        Seq::empty()
    } else if makes_rule(lines.last(), fold) {
        made_rules(lines.drop_last(), fold).push((lines.last(), fold))
    } else {
        made_rules(lines.drop_last(), fold)
    }
}

/// What the rule says of `path`.
pub open spec fn rule_verdict(rule: Rule, path: Seq<u8>, is_dir: bool) -> Verdict {
    verdict(rule, path, is_dir, glob_matches(rule.0, rule.1, glob_subject(rule, path)))
}

/// What each rule says of `path`.
pub open spec fn verdicts(rules: Seq<Rule>, path: Seq<u8>, is_dir: bool) -> Seq<Verdict> {
    rules.map_values(|rule: Rule| rule_verdict(rule, path, is_dir))
}

/// What the rules say of `path` together.
pub open spec fn rules_say(rules: Seq<Rule>, path: Seq<u8>, is_dir: bool) -> Verdict {
    decision(verdicts(rules, path, is_dir))
}

/// Whether the rules deny `path`.
pub open spec fn denies(rules: Seq<Rule>, path: Seq<u8>, is_dir: bool) -> bool {
    rules_say(rules, path, is_dir) is Deny
}

/// The rules of all the matchers, in order.
pub open spec fn all_rules(matchers: Seq<Gitignore>) -> Seq<Rule>
    decreases matchers.len(),
{
    if matchers.len() == 0 {
        Seq::empty()
    } else {
        all_rules(matchers.drop_last()) + matcher_rules(matchers.last())
    }
}

/// Whether no pattern is too long for the matcher.
pub fn check_lines(patterns: &[String], fold: bool) -> (fitting: bool)
    ensures
        fitting == all_fit(lines_of(patterns@), fold),
{
    let ghost lines = lines_of(patterns@);
    let mut i: usize = 0;
    while i < patterns.len()
        invariant
            i <= patterns@.len(),
            lines == lines_of(patterns@),
            forall|j: int| 0 <= j < i ==> fits(#[trigger] lines[j], fold),
        decreases patterns.len() - i,
    {
        let pattern = patterns[i].as_str();
        assert(lines[i as int] == pattern@);
        if !fold && scan_recursive(pattern) && pattern.unicode_len() > LONG_LINE {
            return false;
        }
        i += 1;
    }
    true
}

/// Whether one automaton can hold what the patterns put into it.
fn check_bounds(patterns: &[String], fold: bool) -> (bounded: bool)
    ensures
        bounded == is_bounded(lines_of(patterns@), fold),
{
    let ghost rules = possible_rules(lines_of(patterns@), fold);
    let mut count: u64 = 0;
    let mut bytes: u64 = 0;
    let mut i: usize = 0;
    assert(rules.take(0) =~= Seq::empty());
    while i < patterns.len()
        invariant
            i <= patterns@.len(),
            rules == possible_rules(lines_of(patterns@), fold),
            count == suffix_count(rules.take(i as int)),
            bytes == suffix_bytes(rules.take(i as int)),
            count <= bytes <= MAX_AUTOMATON,
        decreases patterns.len() - i,
    {
        let ghost seen = rules.take(i as int + 1);
        assert(seen.drop_last() =~= rules.take(i as int));
        assert(seen.last() == (patterns@[i as int]@, fold));
        let pattern = patterns[i].as_str();
        if !fold && scan_recursive(pattern) {
            let len: usize = pattern.unicode_len();
            if len as u128 * 4 + 1 + bytes as u128 > MAX_AUTOMATON as u128 {
                proof {
                    lemma_prefix_is_smaller(rules, i as int + 1);
                    lemma_product(
                        1,
                        suffix_bytes(seen) + 4,
                        suffix_count(rules),
                        suffix_bytes(rules) + 4,
                    );
                }
                return false;
            }
            count = count + 1;
            bytes = bytes + len as u64 * 4 + 1;
        }
        i += 1;
    }
    assert(rules.take(i as int) =~= rules);
    proof {
        lemma_product(count as nat, bytes as nat + 4, 0x8000_0000, 0x8000_0000);
    }
    count as u128 * (bytes as u128 + 4) <= MAX_AUTOMATON as u128
}

/// A builder without rules, with or without regard to ASCII case.
fn builder_for(fold: bool) -> (builder: GitignoreBuilder)
    ensures
        builder_rules(builder) == Seq::<Rule>::empty(),
        builder_folds(builder) == fold,
{
    proof {
        reveal_strlit("/");
    }
    let root: &str = "/";
    assert(root@ =~= seq!['/']);
    let mut builder = new_builder(root);
    // The builder goes by this for the lines that are added from here on.
    set_case_insensitive(&mut builder, fold);
    builder
}

/// Whether `usable` tells if the line can be added, and makes a rule unless it
/// is a remark.
spec fn is_use(line: Seq<char>, usable: bool, fold: bool) -> bool {
    &&& usable ==> brace_depth(line) <= MAX_BRACE_DEPTH
    &&& !is_remark(line) ==> usable == makes_rule(line, fold)
}

/// Whether `usable` tells this of each line.
spec fn are_usable(lines: Seq<Seq<char>>, usable: Seq<bool>, fold: bool) -> bool {
    &&& usable.len() == lines.len()
    &&& forall|i: int| 0 <= i < lines.len() ==> is_use(#[trigger] lines[i], usable[i], fold)
}

/// Whether the line is a remark or a valid pattern.
fn is_usable(line: &str, fold: bool) -> (usable: bool)
    requires
        automaton_size(seq![(line@, fold)]) <= MAX_AUTOMATON,
    ensures
        is_use(line@, usable, fold),
{
    if count_brace_depth(line) > MAX_BRACE_DEPTH {
        return false;
    }
    let mut builder = builder_for(fold);
    if !add_line(&mut builder, line) {
        return false;
    }
    assert(!is_remark(line@) ==> builder_rules(builder) =~= seq![(line@, fold)]);
    assert(automaton_size(Seq::empty()) == 0) by (nonlinear_arith);
    build(&builder).is_some()
}

/// The matchers for the lines from `from` up to `to`, of which the `usable`
/// ones are taken.
///
/// There is one, unless the lines are too many for one automaton, or their
/// rules for being compiled together: then each half of them gets its own.
fn compile_range(
    patterns: &[String],
    usable: &Vec<bool>,
    from: usize,
    to: usize,
    fold: bool,
) -> (matchers: Vec<Gitignore>)
    requires
        from <= to <= patterns@.len(),
        are_usable(lines_of(patterns@), usable@, fold),
        all_fit(lines_of(patterns@), fold),
    ensures
        all_rules(matchers@) == made_rules(
            lines_of(patterns@).subrange(from as int, to as int),
            fold,
        ),
    decreases to - from,
{
    let mut matchers: Vec<Gitignore> = Vec::new();
    if let Some(matcher) = compile_at_once(patterns, usable, from, to, fold) {
        matchers.push(matcher);
        assert(matchers@.drop_last() =~= Seq::empty());
        assert(all_rules(matchers@.drop_last()) =~= Seq::empty());
        assert(all_rules(matchers@) =~= matcher_rules(matcher));
    } else {
        let ghost lines = lines_of(patterns@);
        let middle: usize = from + (to - from) / 2;
        matchers = compile_range(patterns, usable, from, middle, fold);
        let mut rest = compile_range(patterns, usable, middle, to, fold);
        proof {
            lemma_all_rules_concat(matchers@, rest@);
            let (left, right) = (
                lines.subrange(from as int, middle as int),
                lines.subrange(middle as int, to as int),
            );
            lemma_made_rules_concat(left, right, fold);
            assert(left + right =~= lines.subrange(from as int, to as int));
        }
        matchers.append(&mut rest);
    }
    matchers
}

/// The one matcher for the lines from `from` up to `to`, of which the `usable`
/// ones are taken, or `None` where they are too many for it. A single line
/// never is.
fn compile_at_once(
    patterns: &[String],
    usable: &Vec<bool>,
    from: usize,
    to: usize,
    fold: bool,
) -> (matcher: Option<Gitignore>)
    requires
        from <= to <= patterns@.len(),
        are_usable(lines_of(patterns@), usable@, fold),
        all_fit(lines_of(patterns@), fold),
    ensures
        matcher is None <==> !({
            let range = lines_of(patterns@).subrange(from as int, to as int);
            let rules = made_rules(range, fold);
            is_bounded(range, fold) && is_compilable(rules, globs_compile(rules, usize::BITS))
        }),
        matcher is None ==> to - from >= 2,
        matcher matches Some(m) ==> matcher_rules(m) == made_rules(
            lines_of(patterns@).subrange(from as int, to as int),
            fold,
        ),
{
    let ghost range = lines_of(patterns@).subrange(from as int, to as int);
    let part = slice_subrange(patterns, from, to);
    assert(lines_of(part@) =~= range);
    proof {
        lemma_short_range_compiles(range, fold);
    }
    if !check_bounds(part, fold) {
        return None;
    }
    let mut builder = builder_for(fold);
    let ghost lines = lines_of(patterns@);
    let mut i: usize = from;
    assert(lines.subrange(from as int, from as int) =~= Seq::empty());
    while i < to
        invariant
            from <= i <= to <= patterns@.len(),
            lines == lines_of(patterns@),
            are_usable(lines, usable@, fold),
            builder_folds(builder) == fold,
            builder_rules(builder) == made_rules(lines.subrange(from as int, i as int), fold),
        decreases to - i,
    {
        let ghost seen = lines.subrange(from as int, i as int + 1);
        assert(seen.drop_last() =~= lines.subrange(from as int, i as int));
        assert(seen.last() == lines[i as int]);
        if usable[i] {
            let _ = add_line(&mut builder, patterns[i].as_str());
        }
        i += 1;
    }
    proof {
        lemma_made_rules_are_bounded(range, fold);
    }
    build(&builder)
}

/// The matchers for `patterns`, with or without regard to ASCII case: together
/// they go by every pattern that is valid.
///
/// Each pattern is first tried by itself, so that one that cannot be compiled
/// does not take the others with it.
pub fn compile(patterns: &[String], fold: bool) -> (matchers: Vec<Gitignore>)
    requires
        all_fit(lines_of(patterns@), fold),
    ensures
        all_rules(matchers@) == made_rules(lines_of(patterns@), fold),
{
    let ghost lines = lines_of(patterns@);
    let mut usable: Vec<bool> = Vec::new();
    let mut i: usize = 0;
    while i < patterns.len()
        invariant
            i <= patterns@.len(),
            lines == lines_of(patterns@),
            all_fit(lines, fold),
            usable@.len() == i,
            forall|j: int| 0 <= j < i ==> is_use(#[trigger] lines[j], usable@[j], fold),
        decreases patterns.len() - i,
    {
        proof {
            lemma_one_line_is_bounded(lines[i as int], fold);
        }
        usable.push(is_usable(patterns[i].as_str(), fold));
        i += 1;
    }
    assert(lines.subrange(0, lines.len() as int) =~= lines);
    compile_range(patterns, &usable, 0, patterns.len(), fold)
}

/// What the answer is if this is said of a path: whether it is denied, or
/// `None` where that is left open.
pub fn settle(said: Verdict) -> (answer: Option<bool>)
    ensures
        answer == match said {
            Verdict::Silent => None,
            Verdict::Deny => Some(true),
            Verdict::Allow => Some(false),
        },
{
    match said {
        Verdict::Silent => None,
        Verdict::Deny => Some(true),
        Verdict::Allow => Some(false),
    }
}

/// Whether the matchers' rules deny `path`.
pub(crate) fn is_denied(matchers: &Vec<Gitignore>, path: &Path, is_dir: bool) -> (denied: bool)
    ensures
        denied == denies(all_rules(matchers@), path_bytes(path), is_dir),
{
    let ghost bytes = path_bytes(path);
    let mut i: usize = matchers.len();
    assert(matchers@.take(i as int) =~= matchers@);
    while i > 0
        invariant
            i <= matchers@.len(),
            bytes == path_bytes(path),
            rules_say(all_rules(matchers@), bytes, is_dir) == rules_say(
                all_rules(matchers@.take(i as int)),
                bytes,
                is_dir,
            ),
        decreases i,
    {
        i -= 1;
        let matcher = &matchers[i];
        let ghost seen = matchers@.take(i as int + 1);
        assert(seen.drop_last() =~= matchers@.take(i as int));
        assert(matcher_rules(*matcher).map_values(
            |rule: Rule|
                verdict(
                    rule,
                    path_bytes(path),
                    is_dir,
                    glob_matches(rule.0, rule.1, glob_subject(rule, path_bytes(path))),
                ),
        ) =~= verdicts(matcher_rules(*matcher), bytes, is_dir));
        proof {
            lemma_later_rules_decide(
                all_rules(matchers@.take(i as int)),
                matcher_rules(*matcher),
                bytes,
                is_dir,
            );
        }
        if let Some(denied) = settle(matched(matcher, path, is_dir)) {
            return denied;
        }
    }
    assert(matchers@.take(0) =~= Seq::empty());
    false
}

/// Later rules decide where they apply, and earlier ones where they do not.
pub proof fn lemma_later_rules_decide(
    earlier: Seq<Rule>,
    later: Seq<Rule>,
    path: Seq<u8>,
    is_dir: bool,
)
    ensures
        rules_say(earlier + later, path, is_dir) == if rules_say(later, path, is_dir) is Silent {
            rules_say(earlier, path, is_dir)
        } else {
            rules_say(later, path, is_dir)
        },
    decreases later.len(),
{
    if later.len() == 0 {
        assert(earlier + later =~= earlier);
    } else {
        let rest = later.drop_last();
        lemma_later_rules_decide(earlier, rest, path, is_dir);
        let all = verdicts(earlier + later, path, is_dir);
        assert(all.drop_last() =~= verdicts(earlier + rest, path, is_dir));
        assert(verdicts(later, path, is_dir).drop_last() =~= verdicts(rest, path, is_dir));
        assert(all.last() == verdicts(later, path, is_dir).last());
    }
}

/// The lines of two lists make the rules of both.
pub proof fn lemma_made_rules_concat(a: Seq<Seq<char>>, b: Seq<Seq<char>>, fold: bool)
    ensures
        made_rules(a + b, fold) == made_rules(a, fold) + made_rules(b, fold),
    decreases b.len(),
{
    if b.len() == 0 {
        assert(a + b =~= a);
        assert(made_rules(a, fold) + made_rules(b, fold) =~= made_rules(a, fold));
    } else {
        lemma_made_rules_concat(a, b.drop_last(), fold);
        assert((a + b).drop_last() =~= a + b.drop_last());
        assert(made_rules(a + b, fold) =~= made_rules(a, fold) + made_rules(b, fold));
    }
}

/// The matchers of two lists have the rules of both.
proof fn lemma_all_rules_concat(a: Seq<Gitignore>, b: Seq<Gitignore>)
    ensures
        all_rules(a + b) == all_rules(a) + all_rules(b),
    decreases b.len(),
{
    if b.len() == 0 {
        assert(a + b =~= a);
        assert(all_rules(a) + all_rules(b) =~= all_rules(a));
    } else {
        lemma_all_rules_concat(a, b.drop_last());
        assert((a + b).drop_last() =~= a + b.drop_last());
        assert(all_rules(a + b) =~= all_rules(a) + all_rules(b));
    }
}

/// The rules of no line or one line can be compiled at once.
proof fn lemma_short_range_compiles(range: Seq<Seq<char>>, fold: bool)
    requires
        all_fit(range, fold),
    ensures
        range.len() < 2 ==> is_bounded(range, fold) && ({
            let rules = made_rules(range, fold);
            is_compilable(rules, globs_compile(rules, usize::BITS))
        }),
{
    if range.len() == 1 {
        let line = range[0];
        assert(range.drop_last() =~= Seq::empty());
        assert(made_rules(range.drop_last(), fold) =~= Seq::empty());
        if makes_rule(line, fold) {
            assert(made_rules(range, fold) =~= seq![(line, fold)]);
        } else {
            assert(made_rules(range, fold) =~= Seq::empty());
        }
        assert(fits(range[0], fold));
        lemma_one_line_is_bounded(line, fold);
        assert(possible_rules(range, fold) =~= seq![(line, fold)]);
    } else if range.len() == 0 {
        let rules = possible_rules(range, fold);
        lemma_product(suffix_count(rules), suffix_bytes(rules) + 4, 0, 4);
    }
}

/// One automaton can hold a line that fits.
proof fn lemma_one_line_is_bounded(line: Seq<char>, fold: bool)
    requires
        fits(line, fold),
    ensures
        automaton_size(seq![(line, fold)]) <= MAX_AUTOMATON,
{
    let one = seq![(line, fold)];
    assert(one.drop_last() =~= Seq::empty());
    assert(suffix_count(one.drop_last()) == 0 && suffix_bytes(one.drop_last()) == 0);
    let (n, b, most) = (suffix_count(one), suffix_bytes(one) + 4, MAX_AUTOMATON as nat);
    assert(n * b <= most) by (nonlinear_arith)
        requires
            n == 0 || (n == 1 && b <= most),
    ;
}

/// Products grow with their factors.
proof fn lemma_product(a: nat, b: nat, c: nat, d: nat)
    by (nonlinear_arith)
    requires
        a <= c,
        b <= d,
    ensures
        a * b <= c * d,
{
}

/// The first of the rules take no more of the automaton than all of them.
proof fn lemma_prefix_is_smaller(rules: Seq<Rule>, n: int)
    requires
        0 <= n <= rules.len(),
    ensures
        suffix_count(rules.take(n)) <= suffix_count(rules),
        suffix_bytes(rules.take(n)) <= suffix_bytes(rules),
    decreases rules.len(),
{
    if n == rules.len() {
        assert(rules.take(n) =~= rules);
    } else {
        lemma_prefix_is_smaller(rules.drop_last(), n);
        assert(rules.drop_last().take(n) =~= rules.take(n));
    }
}

/// One automaton can hold the rules that lines make if it can hold the lines.
proof fn lemma_made_rules_are_bounded(lines: Seq<Seq<char>>, fold: bool)
    requires
        is_bounded(lines, fold),
    ensures
        automaton_size(made_rules(lines, fold)) <= MAX_AUTOMATON,
{
    let rules = possible_rules(lines, fold);
    let made = made_rules(lines, fold);
    lemma_made_rules_are_smaller(lines, fold);
    lemma_product(
        suffix_count(made),
        suffix_bytes(made) + 4,
        suffix_count(rules),
        suffix_bytes(rules) + 4,
    );
}

proof fn lemma_made_rules_are_smaller(lines: Seq<Seq<char>>, fold: bool)
    ensures
        suffix_count(made_rules(lines, fold)) <= suffix_count(possible_rules(lines, fold)),
        suffix_bytes(made_rules(lines, fold)) <= suffix_bytes(possible_rules(lines, fold)),
    decreases lines.len(),
{
    if lines.len() > 0 {
        let rest = lines.drop_last();
        lemma_made_rules_are_smaller(rest, fold);
        assert(possible_rules(lines, fold).drop_last() =~= possible_rules(rest, fold));
        let made = made_rules(rest, fold);
        assert(made.push((lines.last(), fold)).drop_last() =~= made);
    }
}

/// Every rule is one of the lines.
pub proof fn lemma_rules_come_from_lines(lines: Seq<Seq<char>>, fold: bool)
    ensures
        forall|i: int|
            0 <= i < made_rules(lines, fold).len() ==> lines.contains(
                (#[trigger] made_rules(lines, fold)[i]).0,
            ) && made_rules(lines, fold)[i].1 == fold,
    decreases lines.len(),
{
    if lines.len() > 0 {
        let rest = lines.drop_last();
        lemma_rules_come_from_lines(rest, fold);
        let rules = made_rules(lines, fold);
        assert forall|i: int| 0 <= i < rules.len() implies lines.contains(
            (#[trigger] rules[i]).0,
        ) && rules[i].1 == fold by {
            if i < made_rules(rest, fold).len() {
                let line = made_rules(rest, fold)[i].0;
                let j = choose|j: int| 0 <= j < rest.len() && rest[j] == line;
                assert(lines[j] == line);
            } else {
                assert(lines[lines.len() - 1] == rules[i].0);
            }
        }
    }
}

/// **Law.** The lines of a list are the patterns' own texts, all of them and in
/// order.
pub proof fn law_lines_are_the_patterns(patterns: Seq<String>)
    ensures
        lines_of(patterns).len() == patterns.len(),
        forall|i: int| 0 <= i < patterns.len() ==> #[trigger] lines_of(patterns)[i] == patterns[i]@,
{
}

/// **Law.** Half a billion characters fit in any case, where case does not
/// count every line fits, and a list fits if and only if its parts do. A longer
/// line that starts with `**/` does not fit.
pub proof fn law_fitting_lines(a: Seq<Seq<char>>, b: Seq<Seq<char>>, rest: Seq<char>, fold: bool)
    ensures
        all_fit(a, true),
        (forall|i: int| 0 <= i < a.len() ==> (#[trigger] a[i]).len() <= 0x1fff_0000) ==> all_fit(
            a,
            fold,
        ),
        all_fit(a + b, fold) == (all_fit(a, fold) && all_fit(b, fold)),
        rest.len() > 0x1fff_0000 ==> !all_fit(seq![seq!['*', '*', '/'] + rest], false),
        all_fit(seq![rest], false) || seq!['*', '*', '/'].is_prefix_of(rest) || seq![
            '/',
        ].is_prefix_of(rest) || seq!['!'].is_prefix_of(rest),
{
    assert forall|i: int| 0 <= i < a.len() && all_fit(a + b, fold) implies fits(
        #[trigger] a[i],
        fold,
    ) by {
        assert((a + b)[i] == a[i]);
    }
    assert forall|i: int| 0 <= i < b.len() && all_fit(a + b, fold) implies fits(
        #[trigger] b[i],
        fold,
    ) by {
        assert((a + b)[a.len() + i] == b[i]);
    }
    let line = seq!['*', '*', '/'] + rest;
    assert(seq![line][0] == line);
    if rest.len() > 0 {
        if rest[0] == '/' {
            assert(seq!['/'] =~= rest.take(1));
        }
        if rest[0] == '!' {
            assert(seq!['!'] =~= rest.take(1));
        }
    }
    if rest.len() > 2 && rest[0] == '*' && rest[1] == '*' && rest[2] == '/' {
        assert(seq!['*', '*', '/'] =~= rest.take(3));
    }
}

} // verus!
