//! Byte paths: components, case, and joining.
use bstr::ByteSlice;
use std::path::Path;
use vstd::prelude::*;

verus! {

/// `b` with an ASCII capital letter made small.
pub open spec fn ascii_lower_byte(b: u8) -> u8 {
    if 0x41 <= b <= 0x5a {
        (b + 0x20) as u8
    } else {
        b
    }
}

/// `bytes` with every ASCII capital letter made small.
pub open spec fn ascii_lower(bytes: Seq<u8>) -> Seq<u8> {
    bytes.map_values(|b: u8| ascii_lower_byte(b))
}

/// Whether `bytes` holds no separator.
pub open spec fn is_slash_free(bytes: Seq<u8>) -> bool {
    forall|i: int| 0 <= i < bytes.len() ==> #[trigger] bytes[i] != 0x2f
}

/// Whether every component of `path` has a name: it is not empty, it does not
/// start or end with a separator, and no two separators meet in it.
pub open spec fn is_clean(path: Seq<u8>) -> bool {
    &&& path.len() > 0
    &&& path[0] != 0x2f
    &&& path.last() != 0x2f
    &&& forall|i: int|
        0 <= i < path.len() - 1 && #[trigger] path[i] == 0x2f ==> path[i + 1] != 0x2f
}

/// Whether `bytes` name a directory's parent.
pub open spec fn is_parent(bytes: Seq<u8>) -> bool {
    bytes == seq![0x2eu8, 0x2e]
}

/// What follows the last separator of `path`; all of it where there is none.
pub open spec fn last_component(path: Seq<u8>) -> Seq<u8>
    decreases path.len(),
{
    if path.len() == 0 || path.last() == 0x2f {
        Seq::empty()
    } else {
        last_component(path.drop_last()).push(path.last())
    }
}

/// `path` without a leading `./`, and then without up to two leading
/// separators.
pub open spec fn stripped(path: Seq<u8>) -> Seq<u8> {
    let p = if path.len() >= 2 && path[0] == 0x2e && path[1] == 0x2f {
        path.skip(2)
    } else {
        path
    };
    if p.len() >= 2 && p[0] == 0x2f && p[1] == 0x2f {
        p.skip(2)
    } else if p.len() >= 1 && p[0] == 0x2f {
        p.skip(1)
    } else {
        p
    }
}

#[verifier::external_type_specification]
#[verifier::external_body]
pub struct ExPath(Path);

/// The bytes that a path is made of.
pub uninterp spec fn path_bytes(path: &Path) -> Seq<u8>;

/// The path made of raw entry-name bytes.
///
/// Calls `bstr::ByteSlice::to_path`. On Unix any bytes make a path, and the
/// path holds them as they are; that is what is claimed. Elsewhere bytes that
/// are not UTF-8 make the empty path, which is not claimed.
#[verifier::external_body]
pub(crate) fn name_as_path(bytes: &[u8]) -> (path: &Path)
    ensures
        path_bytes(path) == bytes@,
{
    bytes.to_path().unwrap_or(Path::new(""))
}

/// Whether `bytes` can name an entry of a directory.
pub open spec fn is_name(bytes: Seq<u8>) -> bool {
    bytes.len() > 0 && is_slash_free(bytes)
}

/// `path` with `component` added, as `PathBuf::push` adds it on Unix: an
/// absolute component replaces the path, and any other is set off by one
/// separator.
pub open spec fn pushed(path: Seq<u8>, component: Seq<u8>) -> Seq<u8> {
    if component.len() > 0 && component[0] == 0x2f {
        component
    } else if path.len() > 0 && path.last() != 0x2f {
        path.push(0x2f) + component
    } else {
        path + component
    }
}

/// The components, joined from the first to the last.
pub open spec fn joined(components: Seq<Seq<u8>>) -> Seq<u8>
    decreases components.len(),
{
    if components.len() == 0 {
        Seq::empty()
    } else {
        pushed(joined(components.drop_last()), components.last())
    }
}

/// The bytes of each component.
pub open spec fn components_of(components: Seq<Vec<u8>>) -> Seq<Seq<u8>> {
    components.map_values(|component: Vec<u8>| component@)
}

/// Adds a component to `path`.
pub(crate) fn push_component(path: &mut Vec<u8>, component: &[u8])
    ensures
        final(path)@ == pushed(old(path)@, component@),
{
    if component.len() > 0 && component[0] == 0x2f {
        path.clear();
    } else if path.len() > 0 && path[path.len() - 1] != 0x2f {
        path.push(0x2f);
    }
    path.extend_from_slice(component);
}

/// Joins entry-name components into a path relative to the mount root.
pub fn join_path(components: &[Vec<u8>]) -> (path: Vec<u8>)
    ensures
        path@ == joined(components_of(components@)),
{
    let mut path: Vec<u8> = Vec::new();
    let ghost all = components_of(components@);
    let mut i: usize = 0;
    assert(all.take(0) =~= Seq::empty());
    while i < components.len()
        invariant
            i <= components@.len(),
            all == components_of(components@),
            path@ == joined(all.take(i as int)),
        decreases components.len() - i,
    {
        assert(all.take(i as int + 1).drop_last() =~= all.take(i as int));
        push_component(&mut path, components[i].as_slice());
        i += 1;
    }
    assert(all.take(i as int) =~= all);
    path
}

/// The last component of a path that ends in `/` and a name is that name.
pub proof fn lemma_last_component_after_slash(dir: Seq<u8>, name: Seq<u8>)
    requires
        is_slash_free(name),
    ensures
        last_component(dir.push(0x2f) + name) == name,
    decreases name.len(),
{
    let path = dir.push(0x2f) + name;
    if name.len() == 0 {
        assert(path =~= dir.push(0x2f));
    } else {
        assert(path.drop_last() =~= dir.push(0x2f) + name.drop_last());
        lemma_last_component_after_slash(dir, name.drop_last());
        assert(name.drop_last().push(name.last()) =~= name);
    }
}

/// The last component of a path without a separator is the path.
pub proof fn lemma_last_component_of_name(name: Seq<u8>)
    requires
        is_slash_free(name),
    ensures
        last_component(name) == name,
    decreases name.len(),
{
    if name.len() > 0 {
        lemma_last_component_of_name(name.drop_last());
        assert(name.drop_last().push(name.last()) =~= name);
    }
}

/// The last component is the same with or without regard to case.
pub proof fn lemma_lower_last_component(path: Seq<u8>)
    ensures
        ascii_lower(last_component(path)) == last_component(ascii_lower(path)),
    decreases path.len(),
{
    let lower = ascii_lower(path);
    if path.len() == 0 || path.last() == 0x2f {
        assert(ascii_lower(last_component(path)) =~= Seq::empty());
    } else {
        lemma_lower_last_component(path.drop_last());
        assert(lower.drop_last() =~= ascii_lower(path.drop_last()));
        assert(ascii_lower(last_component(path)) =~= ascii_lower(
            last_component(path.drop_last()),
        ).push(lower.last()));
    }
}

/// The last component of a path has no separator.
pub proof fn lemma_last_component_is_slash_free(path: Seq<u8>)
    ensures
        is_slash_free(last_component(path)),
    decreases path.len(),
{
    if path.len() > 0 {
        lemma_last_component_is_slash_free(path.drop_last());
    }
}

/// Whether a name is that of the parent does not depend on case.
pub proof fn lemma_lower_parent(name: Seq<u8>)
    ensures
        is_parent(ascii_lower(name)) == is_parent(name),
{
    let lower = ascii_lower(name);
    assert(lower.len() == name.len());
    if name.len() == 2 {
        assert(lower[0] == ascii_lower_byte(name[0]) && lower[1] == ascii_lower_byte(name[1]));
        if is_parent(lower) {
            assert(lower[0] == 0x2e && lower[1] == 0x2e);
            assert(name =~= seq![0x2eu8, 0x2e]);
        }
        if is_parent(name) {
            assert(lower =~= seq![0x2eu8, 0x2e]);
        }
    } else {
        assert(seq![0x2eu8, 0x2e].len() == 2);
    }
}

/// Whether a path is clean does not depend on case.
pub proof fn lemma_lower_clean(path: Seq<u8>)
    ensures
        is_clean(ascii_lower(path)) == is_clean(path),
{
    let lower = ascii_lower(path);
    assert forall|i: int| 0 <= i < path.len() implies (#[trigger] lower[i] == 0x2f) == (path[i]
        == 0x2f) by {}
    if is_clean(path) {
        assert forall|i: int| 0 <= i < lower.len() - 1 && #[trigger] lower[i] == 0x2f implies lower[i
            + 1] != 0x2f by {
            assert(path[i] == 0x2f);
        }
    }
    if is_clean(lower) {
        assert forall|i: int| 0 <= i < path.len() - 1 && #[trigger] path[i] == 0x2f implies path[i
            + 1] != 0x2f by {
            assert(lower[i] == 0x2f);
            assert((lower[i + 1] == 0x2f) == (path[i + 1] == 0x2f));
        }
        assert(lower[0] != 0x2f && lower[path.len() - 1] != 0x2f);
    }
}

/// A clean path with a further name is clean.
pub proof fn lemma_clean_after_slash(dir: Seq<u8>, name: Seq<u8>)
    requires
        is_clean(dir),
        is_name(name),
    ensures
        is_clean(dir.push(0x2f) + name),
{
    let path = dir.push(0x2f) + name;
    let n: int = dir.len() as int;
    assert forall|i: int| 0 <= i < path.len() - 1 && #[trigger] path[i] == 0x2f implies path[i + 1]
        != 0x2f by {
        if i < n - 1 {
            assert(dir[i] == 0x2f);
            assert(path[i + 1] == dir[i + 1]);
        } else if i == n - 1 {
            assert(dir[i] == dir.last());
        } else if i == n {
            assert(path[i + 1] == name[0]);
        } else {
            assert(path[i + 1] == name[i - n]);
        }
    }
    assert(path[0] == dir[0]);
    assert(path.last() == name[name.len() - 1]);
}

/// Stripping a path does not depend on case.
pub proof fn lemma_lower_stripped(path: Seq<u8>)
    ensures
        ascii_lower(stripped(path)) == stripped(ascii_lower(path)),
{
    assert(ascii_lower(stripped(path)) =~= stripped(ascii_lower(path)));
}

/// **Law.** A further name is set off by one separator: joining builds the
/// path of an entry from the path of its directory.
pub proof fn law_join_appends(names: Seq<Seq<u8>>, name: Seq<u8>)
    requires
        forall|i: int| 0 <= i < names.len() ==> is_name(#[trigger] names[i]),
        is_name(name),
    ensures
        joined(names.push(name)) == if names.len() == 0 {
            name
        } else {
            joined(names).push(0x2f) + name
        },
{
    assert(names.push(name).drop_last() =~= names);
    assert(name[0] != 0x2f);
    if names.len() == 0 {
        assert(joined(names) + name =~= name);
    } else {
        law_join_keeps_last(names);
    }
}

/// **Law.** The last component of joined names is the last name, and the path
/// is relative.
pub proof fn law_join_keeps_last(names: Seq<Seq<u8>>)
    requires
        names.len() > 0,
        forall|i: int| 0 <= i < names.len() ==> is_name(#[trigger] names[i]),
    ensures
        last_component(joined(names)) == names.last(),
        joined(names).len() > 0,
        joined(names).last() != 0x2f,
        joined(names)[0] != 0x2f,
    decreases names.len(),
{
    let rest = names.drop_last();
    let name = names.last();
    assert(is_name(names[names.len() - 1]));
    assert(name[0] != 0x2f);
    assert(name[name.len() - 1] != 0x2f);
    assert forall|i: int| 0 <= i < rest.len() implies is_name(#[trigger] rest[i]) by {
        assert(rest[i] == names[i]);
    }
    if rest.len() == 0 {
        assert(joined(rest) + name =~= name);
        lemma_last_component_of_name(name);
    } else {
        law_join_keeps_last(rest);
        lemma_last_component_after_slash(joined(rest), name);
    }
}

/// **Law.** Joined names make a clean path.
pub proof fn law_join_is_clean(names: Seq<Seq<u8>>)
    requires
        names.len() > 0,
        forall|i: int| 0 <= i < names.len() ==> is_name(#[trigger] names[i]),
    ensures
        is_clean(joined(names)),
    decreases names.len(),
{
    let rest = names.drop_last();
    let name = names.last();
    assert(is_name(names[names.len() - 1]));
    assert forall|i: int| 0 <= i < rest.len() implies is_name(#[trigger] rest[i]) by {
        assert(rest[i] == names[i]);
    }
    assert(rest.push(name) =~= names);
    law_join_appends(rest, name);
    if rest.len() > 0 {
        law_join_is_clean(rest);
        lemma_clean_after_slash(joined(rest), name);
    } else {
        assert(name[0] != 0x2f && name[name.len() - 1] != 0x2f);
    }
}

/// **Law.** Joining loses nothing: different names make different paths.
pub proof fn law_join_is_injective(a: Seq<Seq<u8>>, b: Seq<Seq<u8>>)
    requires
        forall|i: int| 0 <= i < a.len() ==> is_name(#[trigger] a[i]),
        forall|i: int| 0 <= i < b.len() ==> is_name(#[trigger] b[i]),
        joined(a) == joined(b),
    ensures
        a == b,
    decreases a.len(),
{
    if a.len() > 0 {
        law_join_keeps_last(a);
    }
    if b.len() > 0 {
        law_join_keeps_last(b);
    }
    if a.len() == 0 || b.len() == 0 {
        assert(a =~= b);
    } else {
        let (x, y) = (a.drop_last(), b.drop_last());
        let name = a.last();
        assert(x.push(name) =~= a);
        assert(y.push(name) =~= b);
        assert forall|i: int| 0 <= i < x.len() implies is_name(#[trigger] x[i]) by {
            assert(x[i] == a[i]);
        }
        assert forall|i: int| 0 <= i < y.len() implies is_name(#[trigger] y[i]) by {
            assert(y[i] == b[i]);
        }
        assert(is_name(a[a.len() - 1]));
        law_join_appends(x, name);
        law_join_appends(y, name);
        if x.len() == 0 || y.len() == 0 {
            assert(x.len() == 0 && y.len() == 0);
            assert(a =~= b);
        } else {
            let (p, q) = (joined(x), joined(y));
            assert(p.len() == q.len());
            assert(p =~= q) by {
                assert forall|i: int| 0 <= i < p.len() implies p[i] == q[i] by {
                    assert((p.push(0x2f) + name)[i] == p[i]);
                    assert((q.push(0x2f) + name)[i] == q[i]);
                }
            }
            law_join_is_injective(x, y);
        }
    }
}

/// **Law.** The components that are joined are the caller's, all of them and in
/// order.
pub proof fn law_components_are_the_callers(components: Seq<Vec<u8>>)
    ensures
        components_of(components).len() == components.len(),
        forall|i: int|
            0 <= i < components.len() ==> #[trigger] components_of(components)[i]
                == components[i]@,
{
}

/// **Law.** No components make the empty path. A component that starts with a
/// separator replaces the path before it. Any other stands at the end of the
/// path, all of it, behind what was there and one separator where that is
/// needed.
pub proof fn law_join_adds_each_component(components: Seq<Seq<u8>>, component: Seq<u8>)
    ensures
        joined(Seq::empty()) == Seq::<u8>::empty(),
        ({
            let before = joined(components);
            let path = joined(components.push(component));
            let absolute = component.len() > 0 && component[0] == 0x2f;
            let apart = before.len() > 0 && before[before.len() - 1] != 0x2f;
            &&& component.is_suffix_of(path)
            &&& absolute ==> path.len() == component.len()
            &&& !absolute ==> before.is_prefix_of(path)
            &&& !absolute && !apart ==> path.len() == before.len() + component.len()
            &&& !absolute && apart ==> path.len() == before.len() + 1 + component.len()
                && path[before.len() as int] == 0x2f
        }),
{
    assert(components.push(component).drop_last() =~= components);
    let before = joined(components);
    let path = joined(components.push(component));
    assert(component =~= path.skip(path.len() - component.len()));
    if !(component.len() > 0 && component[0] == 0x2f) {
        assert(before =~= path.take(before.len() as int));
    }
}

/// **Law.** A path of names is as long as the names and one separator between
/// each two of them, and every name stands in it between separators.
pub proof fn law_join_keeps_every_name(names: Seq<Seq<u8>>, i: int)
    requires
        0 <= i < names.len(),
        forall|j: int| 0 <= j < names.len() ==> is_name(#[trigger] names[j]),
    ensures
        joined(names).len() + 1 == names.fold_left(0int, |n: int, name: Seq<u8>| n + name.len() + 1),
        ({
            let start: int = names.take(i).fold_left(
                0int,
                |n: int, name: Seq<u8>| n + name.len() + 1,
            );
            let path = joined(names);
            let end: int = start + names[i].len();
            &&& 0 <= start <= end <= path.len()
            &&& path.subrange(start, end) == names[i]
            &&& start > 0 ==> path[start - 1] == 0x2f
            &&& end < path.len() ==> path[end] == 0x2f
        }),
    decreases names.len(),
{
    let add = |n: int, name: Seq<u8>| n + name.len() + 1;
    let rest = names.drop_last();
    let name = names.last();
    let path = joined(names);
    assert(is_name(names[names.len() - 1]));
    assert forall|j: int| 0 <= j < rest.len() implies is_name(#[trigger] rest[j]) by {
        assert(rest[j] == names[j]);
    }
    assert(rest.push(name) =~= names);
    law_join_appends(rest, name);
    lemma_fold_left_step(names);
    if rest.len() == 0 {
        assert(rest.fold_left(0int, add) == 0) by {
            reveal_with_fuel(Seq::fold_left, 2);
        }
        assert(names.take(i) =~= rest);
        assert(path.subrange(0, path.len() as int) =~= name);
    } else {
        law_join_keeps_every_name(rest, 0);
        let before = joined(rest);
        if i == rest.len() {
            assert(names.take(i) =~= rest);
            assert(path.subrange(before.len() as int + 1, path.len() as int) =~= name);
        } else {
            law_join_keeps_every_name(rest, i);
            assert(names.take(i) =~= rest.take(i));
            let start: int = rest.take(i).fold_left(0int, add);
            let end: int = start + names[i].len();
            assert(path.subrange(start, end) =~= before.subrange(start, end));
            if start > 0 {
                assert(path[start - 1] == before[start - 1]);
            }
        }
    }
}

/// Folding from the left takes the last name last.
proof fn lemma_fold_left_step(names: Seq<Seq<u8>>)
    requires
        names.len() > 0,
    ensures
        names.fold_left(0int, |n: int, name: Seq<u8>| n + name.len() + 1)
            == names.drop_last().fold_left(0int, |n: int, name: Seq<u8>| n + name.len() + 1)
            + names.last().len() + 1,
{
    reveal_with_fuel(Seq::fold_left, 2);
}

/// **Law.** Capital ASCII letters are made small, one by one, and nothing else
/// is changed.
pub proof fn law_lower_changes_capitals_alone(bytes: Seq<u8>, i: int)
    requires
        0 <= i < bytes.len(),
    ensures
        ascii_lower(bytes).len() == bytes.len(),
        'A' as u8 <= bytes[i] <= 'Z' as u8 ==> ascii_lower(bytes)[i] - bytes[i] == 'a' as u8
            - 'A' as u8,
        !('A' as u8 <= bytes[i] <= 'Z' as u8) ==> ascii_lower(bytes)[i] == bytes[i],
{
}

/// **Law.** A clean path is matched as it stands, unless it starts with `./`,
/// which does not count; neither does one leading separator.
pub proof fn law_stripped_paths(path: Seq<u8>)
    requires
        is_clean(path),
        !(path.len() >= 2 && path[0] == 0x2e && path[1] == 0x2f),
    ensures
        stripped(path) == path,
        stripped(seq![0x2fu8] + path) == path,
        stripped(seq![0x2eu8, 0x2f] + path) == path,
{
    assert(stripped(seq![0x2fu8] + path) =~= path);
    assert(stripped(seq![0x2eu8, 0x2f] + path) =~= path);
}

} // verus!
