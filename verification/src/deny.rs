//! The plain deny list, which does not look at what kind of entry it hides.
use crate::gitignore::glob_matches;
use crate::laws::{
    law_component_rules_heed_the_name_alone, law_last_rule_decides, law_no_rules_deny_nothing,
    law_valid_line_is_in_force,
};
use crate::line::{
    body, glob_subject, has_interior_slash, has_slash, is_dir_only, looks_at_name, scan_slashes,
    verdict, Rule, Verdict,
};
use crate::paths::{
    is_clean, is_name, last_component, lemma_last_component_after_slash,
    lemma_last_component_of_name, name_as_path, path_bytes,
};
use crate::rules::{
    all_fit, all_rules, compile, denies, is_denied, lemma_rules_come_from_lines, lines_of,
    made_rules, makes_rule,
};
use ignore::gitignore::Gitignore;
use std::path::Path;
use vstd::prelude::*;

pub use crate::paths::join_path;

verus! {

/// A deny list of gitignore-style patterns.
#[derive(Debug)]
pub struct DenyList {
    /// The matchers for the patterns, in order.
    matchers: Vec<Gitignore>,
    /// Whether any pattern is a path pattern (contains `/`).
    ///
    /// When `false`, every pattern matches a single component name anywhere in
    /// the tree, so entries can be checked without their parent's path.
    has_path_patterns: bool,
}

/// What a deny list goes by.
pub struct DenyListView {
    /// Its rules, in order.
    pub rules: Seq<Rule>,
    /// Whether any of its patterns has a separator.
    pub has_path_patterns: bool,
}

impl DenyListView {
    /// Whether the list denies `path`.
    pub open spec fn denies(self, path: Seq<u8>) -> bool {
        denies(self.rules, path, false)
    }

    /// A list without path patterns has no rule with a separator.
    pub open spec fn wf(self) -> bool {
        !self.has_path_patterns ==> forall|i: int|
            0 <= i < self.rules.len() ==> !has_slash((#[trigger] self.rules[i]).0)
    }

    /// Whether every rule, if it has no separator, looks at the last component
    /// of `path` alone.
    pub open spec fn looks_at_name(self, path: Seq<u8>) -> bool {
        forall|i: int|
            0 <= i < self.rules.len() ==> looks_at_name(
                body((#[trigger] self.rules[i]).0),
                path,
            )
    }
}

/// **Law.** Without path patterns, paths that end in the same name are denied
/// alike.
///
/// Left out are patterns that can match a separator without writing one; where
/// only a class at either end of them can, just paths that are not clean.
pub proof fn law_same_name_same_answer(list: DenyListView, p: Seq<u8>, q: Seq<u8>)
    requires
        list.wf(),
        !list.has_path_patterns,
        list.looks_at_name(p),
        list.looks_at_name(q),
        last_component(p) == last_component(q),
        last_component(p).len() > 0,
    ensures
        list.denies(p) == list.denies(q),
{
    assert forall|i: int| 0 <= i < list.rules.len() implies !has_interior_slash(
        (#[trigger] list.rules[i]).0,
    ) by {
        assert(!has_slash(list.rules[i].0));
    }
    law_component_rules_heed_the_name_alone(list.rules, p, q, false);
}

/// **Law.** Without path patterns an entry is denied at any depth if and only
/// if its name is denied.
///
/// Left out are patterns that can match a separator without writing one; where
/// only a class at either end of them can, just paths that are not clean.
pub proof fn law_names_suffice(list: DenyListView, dir: Seq<u8>, name: Seq<u8>)
    requires
        list.wf(),
        !list.has_path_patterns,
        list.looks_at_name(dir.push(0x2f) + name),
        is_name(name),
    ensures
        list.denies(dir.push(0x2f) + name) == list.denies(name),
{
    lemma_last_component_after_slash(dir, name);
    lemma_last_component_of_name(name);
    assert(is_clean(name)) by {
        assert(name[0] != 0x2f && name[name.len() - 1] != 0x2f);
    }
    assert forall|i: int| 0 <= i < list.rules.len() implies looks_at_name(
        body((#[trigger] list.rules[i]).0),
        name,
    ) by {
        assert(looks_at_name(body(list.rules[i].0), dir.push(0x2f) + name));
    }
    law_same_name_same_answer(list, dir.push(0x2f) + name, name);
}

/// **Law.** The list matches every entry as a file: the last rule that applies
/// to a file decides, without one nothing is denied, and a directory-only rule
/// changes nothing.
pub proof fn law_entries_are_files(list: DenyListView, longer: DenyListView, rule: Rule, path: Seq<
    u8,
>)
    requires
        longer.rules == list.rules.push(rule),
    ensures
        longer.denies(path) == match verdict(
            rule,
            path,
            false,
            glob_matches(rule.0, rule.1, glob_subject(rule, path)),
        ) {
            Verdict::Silent => list.denies(path),
            Verdict::Deny => true,
            Verdict::Allow => false,
        },
        list.rules.len() == 0 ==> !list.denies(path),
        is_dir_only(rule.0) ==> longer.denies(path) == list.denies(path),
{
    law_last_rule_decides(list.rules, rule, path, false);
    if list.rules.len() == 0 {
        assert(list.rules =~= Seq::empty());
        law_no_rules_deny_nothing(path, false);
    }
}

impl View for DenyList {
    type V = DenyListView;

    closed spec fn view(&self) -> DenyListView {
        DenyListView {
            rules: all_rules(self.matchers@),
            has_path_patterns: self.has_path_patterns,
        }
    }
}

impl DenyList {
    #[verifier::type_invariant]
    spec fn inv(self) -> bool {
        self@.wf()
    }

    /// Builds a matcher from the given patterns.
    ///
    /// Patterns are parsed with gitignore semantics. Invalid patterns are
    /// skipped; a fully invalid or empty list yields a matcher that denies
    /// nothing. A single pattern may not be too long for the matcher, which
    /// half a billion characters are; see [`crate::rules::check_lines`].
    pub fn new(patterns: &[String]) -> (list: Self)
        requires
            all_fit(lines_of(patterns@), false),
        ensures
            list@.wf(),
            list@.rules == made_rules(lines_of(patterns@), false),
            forall|i: int|
                0 <= i < patterns@.len() && makes_rule((#[trigger] patterns@[i])@, false)
                    ==> list@.rules.contains((patterns@[i]@, false)),
            forall|j: int|
                0 <= j < list@.rules.len() ==> !(#[trigger] list@.rules[j]).1 && exists|i: int|
                    0 <= i < patterns@.len() && (#[trigger] patterns@[i])@ == list@.rules[j].0,
            list@.has_path_patterns == exists|i: int|
                0 <= i < patterns@.len() && has_slash((#[trigger] patterns@[i])@),
    {
        let mut has_path_patterns = false;
        let mut i: usize = 0;
        while i < patterns.len()
            invariant
                i <= patterns@.len(),
                has_path_patterns == exists|j: int|
                    0 <= j < i && has_slash((#[trigger] patterns@[j])@),
            decreases patterns.len() - i,
        {
            has_path_patterns = has_path_patterns || scan_slashes(patterns[i].as_str()).any;
            i += 1;
        }
        let matchers = compile(patterns, false);
        proof {
            let lines = lines_of(patterns@);
            lemma_rules_come_from_lines(lines, false);
            assert forall|i: int|
                0 <= i < patterns@.len() && makes_rule(
                    (#[trigger] patterns@[i])@,
                    false,
                ) implies made_rules(lines, false).contains((patterns@[i]@, false)) by {
                law_valid_line_is_in_force(lines, i, false);
            }
            assert forall|j: int| 0 <= j < made_rules(lines, false).len() implies exists|i: int|
                0 <= i < patterns@.len() && (#[trigger] patterns@[i])@ == (#[trigger] made_rules(
                    lines,
                    false,
                )[j]).0 by {
                let i = choose|i: int|
                    0 <= i < lines.len() && lines[i] == made_rules(lines, false)[j].0;
                assert(patterns@[i]@ == lines[i]);
            }
        }
        DenyList { matchers, has_path_patterns }
    }

    /// Whether any pattern is a path pattern (contains `/`).
    pub fn has_path_patterns(&self) -> (yes: bool)
        ensures
            yes == self@.has_path_patterns,
    {
        self.has_path_patterns
    }

    /// Whether the single entry `name` matches the deny list.
    ///
    /// Only meaningful when [`Self::has_path_patterns`] is `false`: the path of
    /// the entry's directory is not looked at.
    pub fn matches_basename(&self, name: &[u8]) -> (denied: bool)
        ensures
            denied == self@.denies(name@),
            !self@.has_path_patterns && is_name(name@) ==> forall|dir: Seq<u8>|
                self@.looks_at_name(dir.push(0x2f) + name@) ==> denied == #[trigger] self@.denies(
                    dir.push(0x2f) + name@,
                ),
    {
        proof {
            use_type_invariant(self);
            if !self@.has_path_patterns && is_name(name@) {
                assert forall|dir: Seq<u8>|
                    self@.looks_at_name(dir.push(0x2f) + name@) implies self@.denies(name@)
                    == #[trigger] self@.denies(dir.push(0x2f) + name@) by {
                    law_names_suffice(self@, dir, name@);
                }
            }
        }
        self.is_ignored(name_as_path(name))
    }

    /// Whether the full relative path `rel` (relative to the mount root)
    /// matches the deny list.
    pub fn matches_path(&self, rel: &[u8]) -> (denied: bool)
        ensures
            denied == self@.denies(rel@),
            !self@.has_path_patterns && self@.looks_at_name(rel@) && last_component(rel@).len() > 0
                ==> forall|path: Seq<u8>|
                self@.looks_at_name(path) && last_component(path) == last_component(rel@) ==> denied
                    == #[trigger] self@.denies(path),
    {
        proof {
            use_type_invariant(self);
            if !self@.has_path_patterns && self@.looks_at_name(rel@) && last_component(rel@).len()
                > 0 {
                assert forall|path: Seq<u8>|
                    self@.looks_at_name(path) && last_component(path) == last_component(
                        rel@,
                    ) implies self@.denies(rel@) == #[trigger] self@.denies(path) by {
                    law_same_name_same_answer(self@, rel@, path);
                }
            }
        }
        self.is_ignored(name_as_path(rel))
    }

    fn is_ignored(&self, path: &Path) -> (ignored: bool)
        ensures
            ignored == self@.denies(path_bytes(path)),
    {
        is_denied(&self.matchers, path, false)
    }
}

} // verus!
