//! The `ignore` crate's gitignore matcher.
//!
//! A [`GitignoreBuilder`] collects rules, and a [`Gitignore`] made from it
//! matches paths against them. The contracts here are those of the crate on
//! Unix, where `/` alone separates the components of a path.
use crate::glob::{brace_depth, is_simple, is_valid, MAX_BRACE_DEPTH};
use crate::line::{
    body, decision, glob_subject, glob_text, is_literal, is_recursive, is_remark, verdict, Rule,
    Verdict,
};
use crate::paths::path_bytes;
use ignore::gitignore::{Gitignore, GitignoreBuilder};
use ignore::Match;
use std::path::Path;
use vstd::prelude::*;

verus! {

#[verifier::external_type_specification]
#[verifier::external_body]
pub struct ExGitignore(Gitignore);

#[verifier::external_type_specification]
#[verifier::external_body]
pub struct ExGitignoreBuilder(GitignoreBuilder);

/// The most entries that the automaton for patterns such as `**/a/b` may have.
/// Entries are numbered up to `i32::MAX`; some are left for the start states.
pub const MAX_AUTOMATON: u64 = 0x7fff_0000;

/// Whether the rule may go into the automaton, which holds literal ends of
/// paths and heeds case.
pub open spec fn is_suffix_rule(rule: Rule) -> bool {
    !rule.1 && is_recursive(rule.0)
}

/// How many of the rules may go into the automaton.
pub open spec fn suffix_count(rules: Seq<Rule>) -> nat
    decreases rules.len(),
{
    if rules.len() == 0 {
        0
    } else if is_suffix_rule(rules.last()) {
        suffix_count(rules.drop_last()) + 1
    } else {
        suffix_count(rules.drop_last())
    }
}

/// How many bytes the rules that may go into the automaton have at most: four
/// for each character, and a separator for each rule.
pub open spec fn suffix_bytes(rules: Seq<Rule>) -> nat
    decreases rules.len(),
{
    if rules.len() == 0 {
        0
    } else if is_suffix_rule(rules.last()) {
        suffix_bytes(rules.drop_last()) + 4 * rules.last().0.len() + 1
    } else {
        suffix_bytes(rules.drop_last())
    }
}

/// How many entries the automaton for the rules has at most: it has no more
/// than four states besides one for each byte, and at each of them no more
/// than every one of its rules can end.
pub open spec fn automaton_size(rules: Seq<Rule>) -> nat {
    suffix_count(rules) * (suffix_bytes(rules) + 4)
}

/// The rules that a builder has collected.
pub uninterp spec fn builder_rules(builder: GitignoreBuilder) -> Seq<Rule>;

/// Whether a builder makes the rules that it is given from now on without
/// regard to ASCII case.
pub uninterp spec fn builder_folds(builder: GitignoreBuilder) -> bool;

/// The rules that a matcher goes by.
pub uninterp spec fn matcher_rules(matcher: Gitignore) -> Seq<Rule>;

/// Whether `GitignoreBuilder::build` can compile the globs of `rules` within
/// its size limit, which counts bytes of memory and so goes by the width of a
/// pointer.
pub uninterp spec fn globs_compile(rules: Seq<Rule>, pointer_bits: u32) -> bool;

/// Whether the glob that a line makes, with or without regard to ASCII case,
/// matches the path made of `subject`.
pub uninterp spec fn glob_matches(line: Seq<char>, fold: bool, subject: Seq<u8>) -> bool;

/// The most characters of a simple line that is sure to compile. Its regular
/// expression has a few states for each byte, far below the size limit.
pub const SHORT_LINE: usize = 1000;

/// Whether a builder takes `line`: it is a remark or a valid pattern.
pub open spec fn is_taken(line: Seq<char>) -> bool {
    is_remark(line) || is_valid(glob_text(line))
}

/// Whether `rules` can be compiled, given `named` for rules in general: rules
/// that are all literal and heed case need no compiling, and a short rule
/// without classes, braces and escapes compiles by itself.
pub open spec fn is_compilable(rules: Seq<Rule>, named: bool) -> bool {
    ||| forall|i: int|
        0 <= i < rules.len() ==> is_literal((#[trigger] rules[i]).0) && body(rules[i].0).len() > 0
            && !rules[i].1
    ||| rules.len() == 1 && is_simple(rules[0].0) && rules[0].0.len() <= SHORT_LINE
    ||| named
}

/// A builder for the directory `root`.
///
/// Calls `GitignoreBuilder::new`. A new builder has no rules and heeds case.
/// Only the file system root is claimed anything of.
#[verifier::external_body]
pub(crate) fn new_builder(root: &str) -> (builder: GitignoreBuilder)
    requires
        root@ == seq!['/'],
    ensures
        builder_rules(builder) == Seq::<Rule>::empty(),
        !builder_folds(builder),
{
    GitignoreBuilder::new(root)
}

/// Sets whether the lines added from now on are matched without regard to case.
///
/// Calls `GitignoreBuilder::case_insensitive`, which leaves the rules that the
/// builder has as they are.
#[verifier::external_body]
pub(crate) fn set_case_insensitive(builder: &mut GitignoreBuilder, yes: bool)
    ensures
        builder_folds(*final(builder)) == yes,
        builder_rules(*final(builder)) == builder_rules(*old(builder)),
{
    let _ = builder.case_insensitive(yes);
}

/// Adds a gitignore line, and returns whether the builder took it.
///
/// Calls `GitignoreBuilder::add_line`. A line is taken unless it is a pattern
/// that cannot be parsed. One that is taken and is no remark becomes the last
/// rule; any other leaves the rules as they are. The
/// crate writes a regular expression for nested braces by recursion, and drops
/// them so, which overflows the stack where they nest too deep.
#[verifier::external_body]
pub(crate) fn add_line(builder: &mut GitignoreBuilder, line: &str) -> (taken: bool)
    requires
        brace_depth(line@) <= MAX_BRACE_DEPTH,
    ensures
        taken == is_taken(line@),
        builder_folds(*final(builder)) == builder_folds(*old(builder)),
        builder_rules(*final(builder)) == if taken && !is_remark(line@) {
            builder_rules(*old(builder)).push((line@, builder_folds(*old(builder))))
        } else {
            builder_rules(*old(builder))
        },
{
    builder.add_line(None, line).is_ok()
}

/// The matcher for the rules that the builder has collected, or `None` where
/// they cannot be compiled together.
///
/// Calls `GitignoreBuilder::build`. That panics where its automaton for
/// patterns such as `**/a/b` would have more than `i32::MAX` entries, which
/// the bound on its size leaves out.
#[verifier::external_body]
pub(crate) fn build(builder: &GitignoreBuilder) -> (matcher: Option<Gitignore>)
    requires
        automaton_size(builder_rules(*builder)) <= MAX_AUTOMATON,
    ensures
        matcher is Some <==> is_compilable(
            builder_rules(*builder),
            globs_compile(builder_rules(*builder), usize::BITS),
        ),
        matcher matches Some(m) ==> matcher_rules(m) == builder_rules(*builder),
{
    builder.build().ok()
}

/// What the matcher says of `path`, which is a directory or not.
///
/// Calls `Gitignore::matched`. Each rule gives its verdict, and the last one
/// that applies decides. What patterns with nothing but `*` and `?` in them
/// match is claimed in full, except of paths that end in `..`. What any other
/// pattern matches is left to [`glob_matches`]; that it looks at the last
/// component of the path alone, or disregards ASCII case, is claimed by what
/// that is applied to.
#[verifier::external_body]
pub(crate) fn matched(matcher: &Gitignore, path: &Path, is_dir: bool) -> (said: Verdict)
    ensures
        said == decision(
            matcher_rules(*matcher).map_values(
                |rule: Rule|
                    verdict(
                        rule,
                        path_bytes(path),
                        is_dir,
                        glob_matches(rule.0, rule.1, glob_subject(rule, path_bytes(path))),
                    ),
            ),
        ),
{
    match matcher.matched(path, is_dir) {
        Match::None => Verdict::Silent,
        Match::Ignore(_) => Verdict::Deny,
        Match::Whitelist(_) => Verdict::Allow,
    }
}

/// **Law.** A rule takes room in the automaton if and only if it heeds case and
/// starts with `**/`: one place among those that may end at each state, and a
/// state for each of its bytes.
pub proof fn law_room_in_the_automaton(rules: Seq<Rule>, rule: Rule)
    ensures
        automaton_size(Seq::empty()) == 0,
        rule.1 || !is_recursive(rule.0) ==> automaton_size(rules.push(rule)) == automaton_size(
            rules,
        ),
        !rule.1 && is_recursive(rule.0) ==> automaton_size(rules.push(rule)) >= automaton_size(rules)
            + 4 * rule.0.len() + 5,
        !rule.1 && is_recursive(rule.0) ==> suffix_count(rules.push(rule)) == suffix_count(rules) + 1
            && suffix_bytes(rules.push(rule)) == suffix_bytes(rules) + 4 * rule.0.len() + 1,
        automaton_size(rules) >= suffix_count(rules) * suffix_bytes(rules),
{
    assert(rules.push(rule).drop_last() =~= rules);
    let (n, b, len) = (suffix_count(rules) as int, suffix_bytes(rules) as int, rule.0.len() as int);
    assert(n * (b + 4) >= n * b) by (nonlinear_arith)
        requires
            n >= 0,
    ;
    assert((n + 1) * (b + 4 * len + 1 + 4) >= n * (b + 4) + 4 * len + 5) by (nonlinear_arith)
        requires
            n >= 0,
            b >= 0,
            len >= 0,
    ;
    assert(0 * (suffix_bytes(Seq::empty()) + 4) == 0) by (nonlinear_arith);
}

} // verus!
