//! Laws of calls: what the results of the library's functions have to do with
//! their arguments, and with the results of other calls.
use crate::deny;
use crate::gitignore::{glob_matches, globs_compile, SHORT_LINE};
use crate::glob::{is_simple, is_valid};
use crate::laws::{
    is_called, is_plain_name, law_folding_list_disregards_case, law_globs_hide_what_they_match,
    law_invalid_line_is_skipped, law_last_name_wins, law_marked_names, law_parts_deny_together,
    law_plain_names, law_short_simple_line_makes_rule, law_star_hides_endings,
    law_valid_line_makes_its_rule, lemma_simple_body,
};
use crate::line::{
    body, folded, glob_text, has_interior_slash, has_slash, is_anchored, is_dir_only,
    is_glob_char, is_negated, is_remark, is_white_space, law_trimmed_lines, looks_at_name,
    trimmed,
};
use crate::passthroughfs::access::{
    check_access, check_rename, is_entry_denied, law_listed_iff_found, visible_entries, Access,
    Entry,
};
use crate::passthroughfs::deny::{law_names_suffice, DenyList};
use crate::passthroughfs::probe::{
    ascii_lower_chars, decimal, law_probe_name_reads_back, number_of, probe_names, ProbeNames,
    ProbeStep, CASE_PROBE_PREFIX,
};
use crate::paths::{
    ascii_lower, components_of, is_name, is_parent, join_path, last_component,
    law_components_are_the_callers, law_join_adds_each_component, law_join_keeps_every_name,
    law_join_keeps_last, stripped,
};
use crate::rules::{check_lines, law_lines_are_the_patterns, lines_of};
use vstd::prelude::*;
use vstd::utf8::encode_utf8;

verus! {

/// **Law.** The path is needed if and only if some pattern has a `/` with
/// another character behind it, and the kind of the entry if and only if some
/// pattern ends in a `/`.
pub proof fn law_flags_tell_of_the_patterns(
    case_insensitive: bool,
    patterns: &[String],
    list: DenyList,
    needs_path: bool,
    needs_kind: bool,
)
    requires
        call_ensures(DenyList::new, (case_insensitive, patterns), list),
        call_ensures(DenyList::needs_path_reconstruction, (&list,), needs_path),
        call_ensures(DenyList::has_dir_only_patterns, (&list,), needs_kind),
    ensures
        needs_path <==> exists|i: int, j: int, k: int|
            0 <= i < patterns@.len() && 0 <= j < k < patterns@[i]@.len()
                && #[trigger] patterns@[i]@[j] == '/' && #[trigger] patterns@[i]@[k] != '/',
        needs_kind <==> exists|i: int|
            0 <= i < patterns@.len() && (#[trigger] patterns@[i])@.len() > 0 && patterns@[i]@[
            patterns@[i]@.len() - 1] == '/',
{
    if needs_path {
        let i = choose|i: int|
            0 <= i < patterns@.len() && has_interior_slash((#[trigger] patterns@[i])@);
        let line = patterns@[i]@;
        let (j, k) = choose|j: int, k: int|
            0 <= j < k < line.len() && line[j] == '/' && line[k] != '/';
        assert(patterns@[i]@[j] == '/' && patterns@[i]@[k] != '/');
    }
    if exists|i: int, j: int, k: int|
        0 <= i < patterns@.len() && 0 <= j < k < patterns@[i]@.len() && #[trigger] patterns@[i]@[j]
            == '/' && #[trigger] patterns@[i]@[k] != '/' {
        let (i, j, k) = choose|i: int, j: int, k: int|
            0 <= i < patterns@.len() && 0 <= j < k < patterns@[i]@.len()
                && #[trigger] patterns@[i]@[j] == '/' && #[trigger] patterns@[i]@[k] != '/';
        assert(has_interior_slash(patterns@[i]@));
    }
}

/// **Law.** The plain list has path patterns if and only if some pattern has a
/// `/` anywhere.
pub proof fn law_plain_flag_tells_of_the_patterns(
    patterns: &[String],
    list: deny::DenyList,
    has_paths: bool,
)
    requires
        call_ensures(deny::DenyList::new, (patterns,), list),
        call_ensures(deny::DenyList::has_path_patterns, (&list,), has_paths),
    ensures
        has_paths <==> exists|i: int, j: int|
            0 <= i < patterns@.len() && 0 <= j < patterns@[i]@.len()
                && #[trigger] patterns@[i]@[j] == '/',
{
    if has_paths {
        let i = choose|i: int|
            0 <= i < patterns@.len() && has_slash((#[trigger] patterns@[i])@);
        let line = patterns@[i]@;
        let j = choose|j: int| 0 <= j < line.len() && line[j] == '/';
        assert(patterns@[i]@[j] == '/');
    }
    if exists|i: int, j: int|
        0 <= i < patterns@.len() && 0 <= j < patterns@[i]@.len() && #[trigger] patterns@[i]@[j]
            == '/' {
        let (i, j) = choose|i: int, j: int|
            0 <= i < patterns@.len() && 0 <= j < patterns@[i]@.len() && #[trigger] patterns@[i]@[j]
                == '/';
        assert(patterns@[i]@.contains('/'));
        assert(has_slash(patterns@[i]@));
    }
}

/// **Law.** A list of plain names denies the entries of those names, at any
/// depth and of either kind, and nothing else; by their name alone or by their
/// path.
///
/// Where case does not count, long names are left out.
pub proof fn law_lists_of_names(
    case_insensitive: bool,
    patterns: &[String],
    list: DenyList,
    path: &[u8],
    is_dir: bool,
    by_path: bool,
    by_name: bool,
)
    requires
        forall|i: int| 0 <= i < patterns@.len() ==> is_plain_name((#[trigger] patterns@[i])@),
        case_insensitive ==> forall|i: int|
            0 <= i < patterns@.len() ==> (#[trigger] patterns@[i])@.len() <= SHORT_LINE,
        call_ensures(DenyList::new, (case_insensitive, patterns), list),
        call_ensures(DenyList::matches_path, (&list, path, is_dir), by_path),
        call_ensures(DenyList::matches_basename, (&list, path, is_dir), by_name),
    ensures
        by_path <==> exists|i: int|
            0 <= i < patterns@.len() && is_called(
                case_insensitive,
                path@,
                (#[trigger] patterns@[i])@,
            ),
        by_name == by_path,
{
    let lines = lines_of(patterns@);
    law_lines_are_the_patterns(patterns@);
    assert forall|i: int| 0 <= i < lines.len() implies is_plain_name(#[trigger] lines[i]) by {
        assert(lines[i] == patterns@[i]@);
    }
    assert forall|i: int| 0 <= i < lines.len() && case_insensitive implies (
    #[trigger] lines[i]).len() <= SHORT_LINE by {
        assert(lines[i] == patterns@[i]@);
    }
    law_plain_names(lines, case_insensitive, path@, is_dir);
    if by_path {
        let i = choose|i: int|
            0 <= i < lines.len() && is_called(case_insensitive, path@, #[trigger] lines[i]);
        assert(is_called(case_insensitive, path@, patterns@[i]@));
    }
    if exists|i: int|
        0 <= i < patterns@.len() && is_called(case_insensitive, path@, (#[trigger] patterns@[i])@) {
        let i = choose|i: int|
            0 <= i < patterns@.len() && is_called(
                case_insensitive,
                path@,
                (#[trigger] patterns@[i])@,
            );
        assert(is_called(case_insensitive, path@, lines[i]));
    }
}

/// **Law.** A remark, or a pattern that cannot be parsed, changes nothing,
/// wherever in the list it stands.
pub proof fn law_invalid_patterns_change_nothing(
    case_insensitive: bool,
    patterns: &[String],
    more: &[String],
    at: int,
    invalid: String,
    list: DenyList,
    longer: DenyList,
    path: &[u8],
    is_dir: bool,
    denied: bool,
    denied_too: bool,
)
    requires
        0 <= at <= patterns@.len(),
        more@ == patterns@.insert(at, invalid),
        is_remark(invalid@) || !is_valid(glob_text(invalid@)),
        call_ensures(DenyList::new, (case_insensitive, patterns), list),
        call_ensures(DenyList::new, (case_insensitive, more), longer),
        call_ensures(DenyList::matches_path, (&list, path, is_dir), denied),
        call_ensures(DenyList::matches_path, (&longer, path, is_dir), denied_too),
    ensures
        denied == denied_too,
{
    law_valid_line_makes_its_rule(invalid@, case_insensitive);
    assert(lines_of(more@) =~= lines_of(patterns@).insert(at, invalid@));
    law_invalid_line_is_skipped(lines_of(patterns@), at, invalid@, case_insensitive);
}

/// **Law.** Without patterns that start with `!`, a list denies what either of
/// its parts denies.
pub proof fn law_lists_of_parts(
    case_insensitive: bool,
    a: &[String],
    b: &[String],
    both: &[String],
    list_a: DenyList,
    list_b: DenyList,
    list: DenyList,
    path: &[u8],
    is_dir: bool,
    by_a: bool,
    by_b: bool,
    denied: bool,
)
    requires
        both@ == a@ + b@,
        forall|i: int|
            0 <= i < both@.len() ==> (#[trigger] both@[i])@.len() == 0 || both@[i]@[0] != '!',
        call_ensures(DenyList::new, (case_insensitive, a), list_a),
        call_ensures(DenyList::new, (case_insensitive, b), list_b),
        call_ensures(DenyList::new, (case_insensitive, both), list),
        call_ensures(DenyList::matches_path, (&list_a, path, is_dir), by_a),
        call_ensures(DenyList::matches_path, (&list_b, path, is_dir), by_b),
        call_ensures(DenyList::matches_path, (&list, path, is_dir), denied),
    ensures
        denied == (by_a || by_b),
{
    let (x, y) = (lines_of(a@), lines_of(b@));
    assert(lines_of(both@) =~= x + y);
    assert forall|i: int| 0 <= i < x.len() implies !is_negated(#[trigger] x[i]) by {
        assert(both@[i] == a@[i]);
        law_trimmed_lines(x[i]);
    }
    assert forall|i: int| 0 <= i < y.len() implies !is_negated(#[trigger] y[i]) by {
        assert(both@[a@.len() + i] == b@[i]);
        law_trimmed_lines(y[i]);
    }
    law_parts_deny_together(x, y, case_insensitive, path@, is_dir);
}

/// **Law.** The last match wins: whatever patterns stand before it, a plain
/// name at the end of a list hides the entries of that name, and behind a `!`
/// exempts them.
///
/// Where case does not count, long names are left out.
pub proof fn law_last_pattern_wins(
    case_insensitive: bool,
    patterns: &[String],
    name: Seq<char>,
    list: DenyList,
    path: &[u8],
    is_dir: bool,
    denied: bool,
)
    requires
        patterns@.len() > 0,
        is_plain_name(name),
        case_insensitive ==> name.len() < SHORT_LINE,
        is_called(case_insensitive, path@, name),
        call_ensures(DenyList::new, (case_insensitive, patterns), list),
        call_ensures(DenyList::matches_path, (&list, path, is_dir), denied),
    ensures
        patterns@.last()@ == name ==> denied,
        patterns@.last()@ == seq!['!'] + name ==> !denied,
{
    let lines = lines_of(patterns@);
    law_lines_are_the_patterns(patterns@);
    law_last_name_wins(lines.drop_last(), name, case_insensitive, path@, is_dir);
    assert(lines.drop_last().push(lines.last()) =~= lines);
}

/// **Law.** A list of one pattern that is a plain name and a `/` hides the
/// directories of that name and no files; one that is a `/` and a plain name,
/// the one entry of that name below the root.
///
/// Where case does not count, long names are left out.
pub proof fn law_lists_of_marked_names(
    case_insensitive: bool,
    patterns: &[String],
    name: Seq<char>,
    list: DenyList,
    path: &[u8],
    is_dir: bool,
    denied: bool,
)
    requires
        patterns@.len() == 1,
        is_plain_name(name),
        case_insensitive ==> name.len() < SHORT_LINE,
        call_ensures(DenyList::new, (case_insensitive, patterns), list),
        call_ensures(DenyList::matches_path, (&list, path, is_dir), denied),
    ensures
        patterns@[0]@ == name.push('/') ==> (denied <==> is_dir && is_called(
            case_insensitive,
            path@,
            name,
        )),
        patterns@[0]@ == seq!['/'] + name ==> (denied <==> folded(case_insensitive, stripped(path@))
            == folded(case_insensitive, encode_utf8(name))),
{
    assert(lines_of(patterns@) =~= seq![patterns@[0]@]);
    law_marked_names(name, case_insensitive, path@, is_dir);
}

/// **Law.** A list of one pattern that is a star and text without a meaning of
/// its own hides the entries whose names end in the text, and nothing else.
///
/// Left out are long patterns, text that ends in white space, and paths that
/// end in `..`.
pub proof fn law_lists_of_endings(
    case_insensitive: bool,
    patterns: &[String],
    text: Seq<char>,
    list: DenyList,
    path: &[u8],
    is_dir: bool,
    denied: bool,
)
    requires
        patterns@.len() == 1,
        patterns@[0]@ == seq!['*'] + text,
        text.len() < SHORT_LINE,
        forall|i: int|
            0 <= i < text.len() ==> !is_glob_char(#[trigger] text[i]) && text[i] != '/'
                && !is_white_space(text[i]),
        !is_parent(last_component(path@)),
        call_ensures(DenyList::new, (case_insensitive, patterns), list),
        call_ensures(DenyList::matches_path, (&list, path, is_dir), denied),
    ensures
        denied <==> folded(case_insensitive, encode_utf8(text)).is_suffix_of(
            folded(case_insensitive, last_component(path@)),
        ),
{
    let line = patterns@[0]@;
    assert(lines_of(patterns@) =~= seq![line]);
    assert(line[0] == '*');
    if text.len() > 0 {
        assert(line.last() == text[text.len() - 1]);
    }
    assert(!is_white_space(line.last()));
    assert(trimmed(line) == line);
    assert forall|i: int| 0 <= i < line.len() implies #[trigger] line[i] != '[' && line[i] != '{'
        && line[i] != '}' && line[i] != '\\' && line[i] != '/' by {
        if i > 0 {
            assert(line[i] == text[i - 1]);
        }
    }
    assert(line[line.len() - 1] != '/');
    assert(!line.contains('/'));
    assert(body(line) == line && !is_negated(line) && !is_dir_only(line) && !is_anchored(line));
    law_short_simple_line_makes_rule(line, case_insensitive);
    law_valid_line_makes_its_rule(line, case_insensitive);
    law_star_hides_endings(line, text, case_insensitive, path@, is_dir);
}

/// **Law.** A list of one pattern with classes, braces or escapes hides what
/// its glob matches, of directories and, unless it ends in a `/`, of files.
///
/// The pattern can be parsed, compiles by itself, has no separator but the one
/// at its end, is not negated, and can match no separator.
pub proof fn law_lists_of_one_glob(
    case_insensitive: bool,
    patterns: &[String],
    list: DenyList,
    path: &[u8],
    is_dir: bool,
    denied: bool,
)
    requires
        patterns@.len() == 1,
        ({
            let line = patterns@[0]@;
            &&& !is_remark(line)
            &&& is_valid(glob_text(line))
            &&& line.filter(|c: char| c == '{').len() <= 1000
            &&& globs_compile(seq![(line, case_insensitive)], usize::BITS)
            &&& !is_simple(body(line)) && !is_anchored(line) && !is_negated(line)
            &&& looks_at_name(body(line), path@)
        }),
        call_ensures(DenyList::new, (case_insensitive, patterns), list),
        call_ensures(DenyList::matches_path, (&list, path, is_dir), denied),
    ensures
        denied <==> (is_dir || !is_dir_only(patterns@[0]@)) && glob_matches(
            patterns@[0]@,
            case_insensitive,
            folded(case_insensitive, last_component(path@)),
        ),
{
    let line = patterns@[0]@;
    assert(lines_of(patterns@) =~= seq![line]);
    law_valid_line_makes_its_rule(line, case_insensitive);
    law_globs_hide_what_they_match(line, case_insensitive, path@, is_dir);
}

/// **Law.** Where case does not count, paths that differ in the case of ASCII
/// letters alone get the same answer.
pub proof fn law_lists_that_disregard_case(
    patterns: &[String],
    list: DenyList,
    p: &[u8],
    q: &[u8],
    is_dir: bool,
    denied_p: bool,
    denied_q: bool,
)
    requires
        ascii_lower(p@) == ascii_lower(q@),
        call_ensures(DenyList::new, (true, patterns), list),
        call_ensures(DenyList::matches_path, (&list, p, is_dir), denied_p),
        call_ensures(DenyList::matches_path, (&list, q, is_dir), denied_q),
    ensures
        denied_p == denied_q,
{
    law_folding_list_disregards_case(lines_of(patterns@), p@, q@, is_dir);
}

/// **Law.** The plain list answers as the other does for files where case
/// counts; by the name and by the path, of the same bytes, it answers the same.
pub proof fn law_plain_lists_see_files(
    patterns: &[String],
    plain: deny::DenyList,
    list: DenyList,
    path: &[u8],
    by_path: bool,
    by_name: bool,
    as_file: bool,
)
    requires
        call_ensures(deny::DenyList::new, (patterns,), plain),
        call_ensures(DenyList::new, (false, patterns), list),
        call_ensures(deny::DenyList::matches_path, (&plain, path), by_path),
        call_ensures(deny::DenyList::matches_basename, (&plain, path), by_name),
        call_ensures(DenyList::matches_path, (&list, path, false), as_file),
    ensures
        by_path == as_file,
        by_name == as_file,
{
}

/// **Law.** Every name that is joined stands in the path between separators, in
/// order, and nothing else does.
pub proof fn law_joined_paths(components: &[Vec<u8>], path: Vec<u8>, i: int)
    requires
        0 <= i < components@.len(),
        forall|j: int| 0 <= j < components@.len() ==> is_name((#[trigger] components@[j])@),
        call_ensures(join_path, (components,), path),
    ensures
        last_component(path@) == components@.last()@,
        path@.len() + 1 == components_of(components@).fold_left(
            0int,
            |n: int, name: Seq<u8>| n + name.len() + 1,
        ),
        ({
            let start: int = components_of(components@).take(i).fold_left(
                0int,
                |n: int, name: Seq<u8>| n + name.len() + 1,
            );
            let end: int = start + components@[i]@.len();
            &&& 0 <= start <= end <= path@.len()
            &&& path@.subrange(start, end) == components@[i]@
            &&& start > 0 ==> path@[start - 1] == 0x2f
            &&& end < path@.len() ==> path@[end] == 0x2f
        }),
{
    let names = components_of(components@);
    law_components_are_the_callers(components@);
    assert forall|j: int| 0 <= j < names.len() implies is_name(#[trigger] names[j]) by {
        assert(names[j] == components@[j]@);
    }
    law_join_keeps_every_name(names, i);
    law_join_keeps_last(names);
    assert(names.last() == components@.last()@);
}

/// **Law.** A further component that does not start with a separator is set
/// behind the path of those before it, and one that does replaces it. Without
/// components the path is empty.
pub proof fn law_further_components(
    components: &[Vec<u8>],
    more: &[Vec<u8>],
    path: Vec<u8>,
    longer: Vec<u8>,
)
    requires
        more@.len() == components@.len() + 1,
        more@.drop_last() == components@,
        call_ensures(join_path, (components,), path),
        call_ensures(join_path, (more,), longer),
    ensures
        components@.len() == 0 ==> path@.len() == 0,
        more@.last()@.is_suffix_of(longer@),
        more@.last()@.len() > 0 && more@.last()@[0] == 0x2f ==> longer@ == more@.last()@,
        !(more@.last()@.len() > 0 && more@.last()@[0] == 0x2f) ==> path@.is_prefix_of(longer@),
        !(more@.last()@.len() > 0 && more@.last()@[0] == 0x2f) ==> longer@.len() == path@.len()
            + more@.last()@.len() + if path@.len() > 0 && path@[path@.len() - 1] != 0x2f {
            1int
        } else {
            0int
        },
{
    let (before, all) = (components_of(components@), components_of(more@));
    let component = more@.last()@;
    assert(all =~= before.push(component));
    law_join_adds_each_component(before, component);
    if components@.len() == 0 {
        assert(before =~= Seq::empty());
    }
    if component.len() > 0 && component[0] == 0x2f {
        assert(longer@ =~= component);
    }
}

/// **Law.** One entry gets one answer: looking for it finds that it does not
/// exist if and only if any other access is refused, and it is listed if and
/// only if it is found.
pub proof fn law_one_entry_one_answer(
    list: &DenyList,
    access: Access,
    parent: &[Vec<u8>],
    name: &[u8],
    entry: Entry,
    entries: Vec<Entry>,
    shown: Vec<Entry>,
    denied: bool,
    found: Result<(), i32>,
    other: Result<(), i32>,
)
    requires
        entry.name@ == name@,
        entries@.contains(entry),
        call_ensures(is_entry_denied, (list, parent, name, entry.is_dir), denied),
        call_ensures(check_access, (list, Access::Lookup, parent, name, entry.is_dir), found),
        call_ensures(check_access, (list, access, parent, name, entry.is_dir), other),
        call_ensures(visible_entries, (list, parent, entries), shown),
    ensures
        found == if denied {
            Err::<(), i32>(2)
        } else {
            Ok(())
        },
        !(access is Lookup) ==> other == if denied {
            Err::<(), i32>(13)
        } else {
            Ok(())
        },
        shown@.contains(entry) <==> !denied,
{
    law_listed_iff_found(list@, components_of(parent@), entries@, entry);
}

/// **Law.** Renaming is refused if and only if a rename is refused under the
/// old name or under the new one.
pub proof fn law_renames(
    list: &DenyList,
    old_parent: &[Vec<u8>],
    old_name: &[u8],
    new_parent: &[Vec<u8>],
    new_name: &[u8],
    is_dir: bool,
    before: Result<(), i32>,
    after: Result<(), i32>,
    renamed: Result<(), i32>,
)
    requires
        call_ensures(check_access, (list, Access::Rename, old_parent, old_name, is_dir), before),
        call_ensures(check_access, (list, Access::Rename, new_parent, new_name, is_dir), after),
        call_ensures(
            check_rename,
            (list, old_parent, old_name, new_parent, new_name, is_dir),
            renamed,
        ),
    ensures
        renamed is Ok <==> before is Ok && after is Ok,
        renamed is Err ==> renamed == Err::<(), i32>(13),
{
}

/// **Law.** An entry is denied as its joined path is where some pattern needs
/// the path, and as its name is elsewhere.
pub proof fn law_entries_are_matched(
    list: &DenyList,
    parent: &[Vec<u8>],
    name: &[u8],
    components: &[Vec<u8>],
    path: Vec<u8>,
    rel: &[u8],
    is_dir: bool,
    denied: bool,
    needs_path: bool,
    by_path: bool,
    by_name: bool,
)
    requires
        components@.len() == parent@.len() + 1,
        components@.drop_last() == parent@,
        components@.last()@ == name@,
        rel@ == path@,
        call_ensures(join_path, (components,), path),
        call_ensures(is_entry_denied, (list, parent, name, is_dir), denied),
        call_ensures(DenyList::needs_path_reconstruction, (list,), needs_path),
        call_ensures(DenyList::matches_path, (list, rel, is_dir), by_path),
        call_ensures(DenyList::matches_basename, (list, name, is_dir), by_name),
    ensures
        needs_path ==> denied == by_path,
        !needs_path ==> denied == by_name,
{
    assert(components_of(components@) =~= components_of(parent@).push(name@));
}

/// **Law.** A probe's names hold the process and the number in decimal behind
/// the prefix and its lower-case form.
pub proof fn law_probe_names_hold_process_and_number(pid: u32, seq: u64, names: ProbeNames)
    requires
        call_ensures(probe_names, (pid, seq), names),
    ensures
        "MsBCaSePrObE"@.is_prefix_of(names.probe@),
        "msbcaseprobe"@.is_prefix_of(names.validation@),
        names.probe@.skip(12) == names.validation@.skip(12),
        ({
            let end: int = 13int + decimal(pid as nat).len();
            &&& names.probe@[12] == '-' && names.probe@[end] == '-'
            &&& number_of(names.probe@.subrange(13, end)) == pid
            &&& number_of(names.probe@.skip(end + 1)) == seq
        }),
{
    reveal_strlit("MsBCaSePrObE");
    reveal_strlit("msbcaseprobe");
    let lower = ascii_lower_chars(CASE_PROBE_PREFIX@);
    assert(lower =~= "msbcaseprobe"@);
    law_probe_name_reads_back(CASE_PROBE_PREFIX@, pid as nat, seq as nat);
    law_probe_name_reads_back(lower, pid as nat, seq as nat);
    assert(names.probe@.skip(12) =~= names.validation@.skip(12));
}

/// **Law.** Lists without a line of more than half a billion characters may be
/// built, and so may all lists where case does not count.
pub proof fn law_ordinary_lists_may_be_built(
    patterns: &[String],
    case_insensitive: bool,
    fitting: bool,
)
    requires
        call_ensures(check_lines, (patterns, case_insensitive), fitting),
        case_insensitive || forall|i: int|
            0 <= i < patterns@.len() ==> (#[trigger] patterns@[i])@.len() <= 0x1fff_0000,
    ensures
        fitting,
{
    let lines = lines_of(patterns@);
    law_lines_are_the_patterns(patterns@);
    assert forall|i: int| 0 <= i < lines.len() && !case_insensitive implies (
    #[trigger] lines[i]).len() <= 0x1fff_0000 by {
        assert(lines[i] == patterns@[i]@);
    }
}

/// **Law.** Without patterns that have a `/` in front of another character, an
/// entry gets the same answer by its name and by its path in any directory.
///
/// Left out are patterns with classes, braces or escapes, in which a separator
/// may be matched without being written.
pub proof fn law_names_do_for_simple_lists(
    case_insensitive: bool,
    patterns: &[String],
    list: DenyList,
    dir: Seq<u8>,
    name: &[u8],
    path: &[u8],
    is_dir: bool,
    by_name: bool,
    alone: bool,
    below: bool,
)
    requires
        forall|i: int| 0 <= i < patterns@.len() ==> is_simple((#[trigger] patterns@[i])@),
        forall|i: int, j: int, k: int|
            0 <= i < patterns@.len() && 0 <= j < k < patterns@[i]@.len()
                && #[trigger] patterns@[i]@[j] == '/' ==> #[trigger] patterns@[i]@[k] == '/',
        is_name(name@),
        path@ == dir.push(0x2f) + name@,
        call_ensures(DenyList::new, (case_insensitive, patterns), list),
        call_ensures(DenyList::matches_basename, (&list, name, is_dir), by_name),
        call_ensures(DenyList::matches_path, (&list, name, is_dir), alone),
        call_ensures(DenyList::matches_path, (&list, path, is_dir), below),
    ensures
        by_name == alone,
        by_name == below,
{
    if list@.needs_path_reconstruction {
        let i = choose|i: int|
            0 <= i < patterns@.len() && has_interior_slash((#[trigger] patterns@[i])@);
        let line = patterns@[i]@;
        let (j, k) = choose|j: int, k: int|
            0 <= j < k < line.len() && line[j] == '/' && line[k] != '/';
        assert(patterns@[i]@[j] == '/');
        assert(patterns@[i]@[k] == '/');
    }
    assert forall|r: int| 0 <= r < list@.rules.len() implies looks_at_name(
        body((#[trigger] list@.rules[r]).0),
        path@,
    ) by {
        let i = choose|i: int|
            0 <= i < patterns@.len() && (#[trigger] patterns@[i])@ == list@.rules[r].0;
        lemma_simple_body(patterns@[i]@);
    }
    law_names_suffice(list@, dir, name@, is_dir);
}

/// **Law.** A probe ends with what it found if every step succeeds, and with
/// `true` if any fails; and it removes the file if it created it.
pub proof fn law_probe_runs(
    steps: Seq<ProbeStep>,
    created: bool,
    written: bool,
    found: bool,
    removed: bool,
)
    requires
        steps.len() == 5,
        call_ensures(ProbeStep::first, (), steps[0]),
        call_ensures(ProbeStep::next, (steps[0], created), steps[1]),
        call_ensures(ProbeStep::next, (steps[1], written), steps[2]),
        created && written ==> call_ensures(ProbeStep::next, (steps[2], found), steps[3]),
        created && written ==> call_ensures(ProbeStep::next, (steps[3], removed), steps[4]),
        created && !written ==> call_ensures(ProbeStep::next, (steps[2], removed), steps[3]),
    ensures
        steps[0] is Create,
        !created ==> steps[1] == (ProbeStep::Done { insensitive: true }),
        created ==> steps[1] is Write,
        created && !written ==> steps[2] is Remove && steps[3] == (ProbeStep::Done {
            insensitive: true,
        }),
        created && written ==> steps[2] is Check && steps[3] is Remove && steps[4] == (
        ProbeStep::Done { insensitive: found || !removed }),
{
}

} // verus!
