//! The deny list of a passthrough mount.
//!
//! Matching honours the case sensitivity of the mount root's file system. On
//! one that folds case a pattern like `.env` also hides `.ENV` and `.Env`;
//! elsewhere matching is byte-exact. This is git's `core.ignorecase` behaviour
//! for `.gitignore`.
use crate::gitignore::glob_matches;
use crate::glob::{is_slash_safe, is_slash_safe_inside};
use crate::laws::{
    law_component_rules_heed_the_name_alone, law_last_rule_decides, law_no_rules_deny_nothing,
    law_only_dir_only_rules_heed_kind, law_valid_line_is_in_force,
};
use crate::line::{
    body, ends_in_slash, glob_subject, has_interior_slash, is_dir_only, looks_at_name,
    scan_slashes, verdict, Rule, Verdict,
};
use crate::paths::{
    is_clean, is_name, last_component, lemma_last_component_after_slash,
    lemma_last_component_of_name, name_as_path, path_bytes,
};
use crate::rules::{
    all_fit, all_rules, compile, denies, is_denied, lemma_rules_come_from_lines, lines_of,
    made_rules, makes_rule,
};
use ignore::gitignore::Gitignore;
use std::path::Path;
use vstd::prelude::*;

pub use crate::paths::join_path;

verus! {

/// A deny list of gitignore-style patterns.
#[derive(Debug)]
pub struct DenyList {
    /// The matchers for the patterns, in order.
    matchers: Vec<Gitignore>,
    /// Whether any pattern needs the full mount-relative path (has an interior
    /// `/`, i.e. a separator that is not merely a trailing dir-only marker).
    ///
    /// When `false`, every pattern matches a single component name anywhere in
    /// the tree, so entries can be checked without their parent's path.
    needs_path_reconstruction: bool,
    /// Whether any pattern is directory-only (ends with `/`, e.g.
    /// `node_modules/`).
    ///
    /// Only dir-only patterns depend on the entry's type, so callers have to
    /// learn `is_dir` when this is `true`.
    has_dir_only_patterns: bool,
}

/// What a deny list goes by.
pub struct DenyListView {
    /// Its rules, in order.
    pub rules: Seq<Rule>,
    /// Whether any of its patterns has an interior separator.
    pub needs_path_reconstruction: bool,
    /// Whether any of its patterns ends in a separator.
    pub has_dir_only_patterns: bool,
}

impl DenyListView {
    /// Whether the list denies `path`, which is a directory or not.
    pub open spec fn denies(self, path: Seq<u8>, is_dir: bool) -> bool {
        denies(self.rules, path, is_dir)
    }

    /// The flags hold of every rule.
    pub open spec fn wf(self) -> bool {
        &&& !self.needs_path_reconstruction ==> forall|i: int|
            0 <= i < self.rules.len() ==> !has_interior_slash((#[trigger] self.rules[i]).0)
        &&& !self.has_dir_only_patterns ==> forall|i: int|
            0 <= i < self.rules.len() ==> !ends_in_slash((#[trigger] self.rules[i]).0)
    }

    /// Whether every rule, if it has no separator, looks at the last component
    /// of `path` alone.
    pub open spec fn looks_at_name(self, path: Seq<u8>) -> bool {
        forall|i: int|
            0 <= i < self.rules.len() ==> looks_at_name(
                body((#[trigger] self.rules[i]).0),
                path,
            )
    }

    /// Whether every rule, if it has no separator, looks at the last component
    /// of any clean path alone.
    pub open spec fn looks_at_clean_names(self) -> bool {
        forall|i: int|
            0 <= i < self.rules.len() ==> is_slash_safe(body((#[trigger] self.rules[i]).0))
                || is_slash_safe_inside(body(self.rules[i].0))
    }

    /// Whether every directory-only rule ends in `/`, rather than in white
    /// space behind one.
    pub open spec fn marks_dirs_last(self) -> bool {
        forall|i: int|
            0 <= i < self.rules.len() && is_dir_only((#[trigger] self.rules[i]).0)
                ==> ends_in_slash(self.rules[i].0)
    }
}

/// **Law.** Where no path is needed, paths that end in the same name are denied
/// alike.
///
/// Left out are patterns that can match a separator without writing one; where
/// only a class at either end of them can, just paths that are not clean.
pub proof fn law_same_name_same_answer(list: DenyListView, p: Seq<u8>, q: Seq<u8>, is_dir: bool)
    requires
        list.wf(),
        !list.needs_path_reconstruction,
        list.looks_at_name(p),
        list.looks_at_name(q),
        last_component(p) == last_component(q),
        last_component(p).len() > 0,
    ensures
        list.denies(p, is_dir) == list.denies(q, is_dir),
{
    law_component_rules_heed_the_name_alone(list.rules, p, q, is_dir);
}

/// **Law.** Where no path is needed, an entry is denied at any depth if and
/// only if its name is denied.
///
/// Left out are patterns that can match a separator without writing one; where
/// only a class at either end of them can, just paths that are not clean.
pub proof fn law_names_suffice(list: DenyListView, dir: Seq<u8>, name: Seq<u8>, is_dir: bool)
    requires
        list.wf(),
        !list.needs_path_reconstruction,
        list.looks_at_name(dir.push(0x2f) + name),
        is_name(name),
    ensures
        list.denies(dir.push(0x2f) + name, is_dir) == list.denies(name, is_dir),
{
    lemma_last_component_after_slash(dir, name);
    lemma_last_component_of_name(name);
    assert(is_clean(name)) by {
        assert(name[0] != 0x2f && name[name.len() - 1] != 0x2f);
    }
    assert forall|i: int| 0 <= i < list.rules.len() implies looks_at_name(
        body((#[trigger] list.rules[i]).0),
        name,
    ) by {
        assert(looks_at_name(body(list.rules[i].0), dir.push(0x2f) + name));
    }
    law_same_name_same_answer(list, dir.push(0x2f) + name, name, is_dir);
}

/// **Law.** Without directory-only patterns it does not matter whether the
/// entry is a directory.
///
/// Patterns that end in white space behind a `/` are left out.
pub proof fn law_kind_matters_to_dir_only_patterns(list: DenyListView, path: Seq<u8>)
    requires
        list.wf(),
        !list.has_dir_only_patterns,
        list.marks_dirs_last(),
    ensures
        list.denies(path, true) == list.denies(path, false),
{
    law_only_dir_only_rules_heed_kind(list.rules, path);
}

/// **Law.** The last rule that applies to the entry, as the kind that it is,
/// decides; without one nothing is denied. As a file an entry is denied just
/// as the plain list with the same rules denies it.
pub proof fn law_last_match_decides(
    list: DenyListView,
    longer: DenyListView,
    plain: crate::deny::DenyListView,
    rule: Rule,
    path: Seq<u8>,
    is_dir: bool,
)
    requires
        longer.rules == list.rules.push(rule),
        plain.rules == list.rules,
    ensures
        longer.denies(path, is_dir) == match verdict(
            rule,
            path,
            is_dir,
            glob_matches(rule.0, rule.1, glob_subject(rule, path)),
        ) {
            Verdict::Silent => list.denies(path, is_dir),
            Verdict::Deny => true,
            Verdict::Allow => false,
        },
        list.rules.len() == 0 ==> !list.denies(path, is_dir),
        list.denies(path, false) == plain.denies(path),
{
    law_last_rule_decides(list.rules, rule, path, is_dir);
    if list.rules.len() == 0 {
        assert(list.rules =~= Seq::empty());
        law_no_rules_deny_nothing(path, is_dir);
    }
}

impl View for DenyList {
    type V = DenyListView;

    closed spec fn view(&self) -> DenyListView {
        DenyListView {
            rules: all_rules(self.matchers@),
            needs_path_reconstruction: self.needs_path_reconstruction,
            has_dir_only_patterns: self.has_dir_only_patterns,
        }
    }
}

impl DenyList {
    #[verifier::type_invariant]
    spec fn inv(self) -> bool {
        self@.wf()
    }

    /// Builds a matcher from the given patterns, which disregards the case of
    /// ASCII letters where the mount root's file system does.
    ///
    /// Patterns are parsed with gitignore semantics. Invalid patterns are
    /// skipped; a fully invalid or empty list yields a matcher that denies
    /// nothing. A single pattern may not be too long for the matcher, which
    /// half a billion characters are; see [`crate::rules::check_lines`].
    pub fn new(case_insensitive: bool, patterns: &[String]) -> (list: Self)
        requires
            all_fit(lines_of(patterns@), case_insensitive),
        ensures
            list@.wf(),
            list@.rules == made_rules(lines_of(patterns@), case_insensitive),
            forall|i: int|
                0 <= i < patterns@.len() && makes_rule(
                    (#[trigger] patterns@[i])@,
                    case_insensitive,
                ) ==> list@.rules.contains((patterns@[i]@, case_insensitive)),
            forall|j: int|
                0 <= j < list@.rules.len() ==> (#[trigger] list@.rules[j]).1 == case_insensitive
                    && exists|i: int|
                    0 <= i < patterns@.len() && (#[trigger] patterns@[i])@ == list@.rules[j].0,
            list@.needs_path_reconstruction == exists|i: int|
                0 <= i < patterns@.len() && has_interior_slash((#[trigger] patterns@[i])@),
            list@.has_dir_only_patterns == exists|i: int|
                0 <= i < patterns@.len() && ends_in_slash((#[trigger] patterns@[i])@),
    {
        let mut needs_path_reconstruction = false;
        let mut has_dir_only_patterns = false;
        let mut i: usize = 0;
        while i < patterns.len()
            invariant
                i <= patterns@.len(),
                needs_path_reconstruction == exists|j: int|
                    0 <= j < i && has_interior_slash((#[trigger] patterns@[j])@),
                has_dir_only_patterns == exists|j: int|
                    0 <= j < i && ends_in_slash((#[trigger] patterns@[j])@),
            decreases patterns.len() - i,
        {
            let slashes = scan_slashes(patterns[i].as_str());
            needs_path_reconstruction = needs_path_reconstruction || slashes.interior;
            has_dir_only_patterns = has_dir_only_patterns || slashes.trailing;
            i += 1;
        }
        let matchers = compile(patterns, case_insensitive);
        proof {
            let lines = lines_of(patterns@);
            let rules = made_rules(lines, case_insensitive);
            lemma_rules_come_from_lines(lines, case_insensitive);
            assert forall|i: int|
                0 <= i < patterns@.len() && makes_rule(
                    (#[trigger] patterns@[i])@,
                    case_insensitive,
                ) implies rules.contains((patterns@[i]@, case_insensitive)) by {
                law_valid_line_is_in_force(lines, i, case_insensitive);
            }
            assert forall|j: int| 0 <= j < rules.len() implies exists|i: int|
                0 <= i < patterns@.len() && (#[trigger] patterns@[i])@ == (#[trigger] rules[j]).0 by {
                let i = choose|i: int| 0 <= i < lines.len() && lines[i] == rules[j].0;
                assert(patterns@[i]@ == lines[i]);
            }
        }
        DenyList { matchers, needs_path_reconstruction, has_dir_only_patterns }
    }

    /// Whether any pattern needs the full mount-relative path (interior `/`).
    pub fn needs_path_reconstruction(&self) -> (yes: bool)
        ensures
            yes == self@.needs_path_reconstruction,
    {
        self.needs_path_reconstruction
    }

    /// Whether any pattern is directory-only (trailing `/`).
    pub fn has_dir_only_patterns(&self) -> (yes: bool)
        ensures
            yes == self@.has_dir_only_patterns,
    {
        self.has_dir_only_patterns
    }

    /// Whether the single entry `name` matches the deny list.
    ///
    /// `name` is a single component, matched at any depth. `is_dir` reports
    /// whether the entry is a directory; only dir-only patterns (trailing `/`)
    /// depend on it.
    pub fn matches_basename(&self, name: &[u8], is_dir: bool) -> (denied: bool)
        requires
            !self@.needs_path_reconstruction,
        ensures
            denied == self@.denies(name@, is_dir),
            is_name(name@) ==> forall|dir: Seq<u8>|
                self@.looks_at_name(dir.push(0x2f) + name@) ==> denied == #[trigger] self@.denies(
                    dir.push(0x2f) + name@,
                    is_dir,
                ),
            !self@.has_dir_only_patterns && self@.marks_dirs_last() ==> denied == self@.denies(
                name@,
                !is_dir,
            ),
    {
        proof {
            use_type_invariant(self);
            if is_name(name@) {
                assert forall|dir: Seq<u8>|
                    self@.looks_at_name(dir.push(0x2f) + name@) implies self@.denies(name@, is_dir)
                    == #[trigger] self@.denies(
                        dir.push(0x2f) + name@,
                        is_dir,
                    ) by {
                    law_names_suffice(self@, dir, name@, is_dir);
                }
            }
            if !self@.has_dir_only_patterns && self@.marks_dirs_last() {
                law_kind_matters_to_dir_only_patterns(self@, name@);
            }
        }
        self.is_ignored(name_as_path(name), is_dir)
    }

    /// Whether the full mount-relative path `rel` (relative to the mount root)
    /// matches the deny list.
    ///
    /// `is_dir` reports whether the entry is a directory; see
    /// [`Self::matches_basename`].
    pub fn matches_path(&self, rel: &[u8], is_dir: bool) -> (denied: bool)
        ensures
            denied == self@.denies(rel@, is_dir),
            !self@.needs_path_reconstruction && self@.looks_at_name(rel@) && last_component(
                rel@,
            ).len() > 0 ==> forall|path: Seq<u8>|
                self@.looks_at_name(path) && last_component(path) == last_component(rel@) ==> denied
                    == #[trigger] self@.denies(path, is_dir),
            !self@.has_dir_only_patterns && self@.marks_dirs_last() ==> denied == self@.denies(
                rel@,
                !is_dir,
            ),
    {
        proof {
            use_type_invariant(self);
            if !self@.needs_path_reconstruction && self@.looks_at_name(rel@) && last_component(
                rel@,
            ).len() > 0 {
                assert forall|path: Seq<u8>|
                    self@.looks_at_name(path) && last_component(path) == last_component(
                        rel@,
                    ) implies self@.denies(rel@, is_dir) == #[trigger] self@.denies(path, is_dir) by {
                    law_same_name_same_answer(self@, rel@, path, is_dir);
                }
            }
            if !self@.has_dir_only_patterns && self@.marks_dirs_last() {
                law_kind_matters_to_dir_only_patterns(self@, rel@);
            }
        }
        self.is_ignored(name_as_path(rel), is_dir)
    }

    fn is_ignored(&self, path: &Path, is_dir: bool) -> (ignored: bool)
        ensures
            ignored == self@.denies(path_bytes(path), is_dir),
    {
        is_denied(&self.matchers, path, is_dir)
    }
}

} // verus!
