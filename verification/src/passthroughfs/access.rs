//! What a passthrough mount answers to requests for denied entries.
//!
//! A denied entry does not exist for the guest: it is not found, and it is not
//! listed. It cannot be made, removed, or renamed either, whether it exists on
//! the host or not; that is refused as an access.
use super::deny::{law_names_suffice, DenyList, DenyListView};
use crate::paths::{
    components_of, is_name, join_path, joined, law_join_appends, law_join_is_clean, push_component,
};
use vstd::prelude::*;

verus! {

/// Linux's error number for an entry that does not exist.
pub const LINUX_ENOENT: i32 = 2;

/// Linux's error number for a refused access.
pub const LINUX_EACCES: i32 = 13;

/// What a request wants of an entry.
#[derive(Clone, Copy, Debug, PartialEq, Eq)]
pub enum Access {
    /// To find it.
    Lookup,
    /// To make it as a file.
    Create,
    /// To make it as a directory.
    Mkdir,
    /// To remove it as a file.
    Unlink,
    /// To remove it as a directory.
    Rmdir,
    /// To give it another name, or to give another entry its name.
    Rename,
}

/// An entry of a directory on the host.
#[derive(Debug)]
pub struct Entry {
    /// Its name.
    pub name: Vec<u8>,
    /// Whether it is a directory.
    pub is_dir: bool,
}

/// Whether the list denies the entry `name` of the directory whose path has
/// the components `parent`: by its path where some pattern needs that, and by
/// its name otherwise.
pub open spec fn entry_denied(
    list: DenyListView,
    parent: Seq<Seq<u8>>,
    name: Seq<u8>,
    is_dir: bool,
) -> bool {
    if list.needs_path_reconstruction {
        list.denies(joined(parent.push(name)), is_dir)
    } else {
        list.denies(name, is_dir)
    }
}

/// The error number of a denied access.
pub open spec fn refusal(access: Access) -> i32 {
    if access is Lookup {
        LINUX_ENOENT
    } else {
        LINUX_EACCES
    }
}

/// The answer to an access, which is denied or not.
pub open spec fn answer_to(access: Access, denied: bool) -> Result<(), i32> {
    if denied {
        Err(refusal(access))
    } else {
        Ok(())
    }
}

/// The entries of a directory that the list leaves visible.
pub open spec fn visible(
    list: DenyListView,
    parent: Seq<Seq<u8>>,
    entries: Seq<Entry>,
) -> Seq<Entry> {
    entries.filter(|entry: Entry| !entry_denied(list, parent, entry.name@, entry.is_dir))
}

/// Answers an access to an entry, given whether the entry is denied.
pub fn answer(access: Access, denied: bool) -> (result: Result<(), i32>)
    ensures
        result == answer_to(access, denied),
{
    if !denied {
        return Ok(());
    }
    match access {
        Access::Lookup => Err(LINUX_ENOENT),
        _ => Err(LINUX_EACCES),
    }
}

/// Whether the list denies the entry `name` of the directory whose path has
/// the components `parent`.
pub fn is_entry_denied(list: &DenyList, parent: &[Vec<u8>], name: &[u8], is_dir: bool) -> (denied:
    bool)
    ensures
        denied == entry_denied(list@, components_of(parent@), name@, is_dir),
{
    if list.needs_path_reconstruction() {
        let mut path = join_path(parent);
        push_component(&mut path, name);
        assert(components_of(parent@).push(name@).drop_last() =~= components_of(parent@));
        list.matches_path(path.as_slice(), is_dir)
    } else {
        list.matches_basename(name, is_dir)
    }
}

/// Answers an access to the entry `name` of the directory `parent`.
pub fn check_access(
    list: &DenyList,
    access: Access,
    parent: &[Vec<u8>],
    name: &[u8],
    is_dir: bool,
) -> (result: Result<(), i32>)
    ensures
        result == answer_to(
            access,
            entry_denied(list@, components_of(parent@), name@, is_dir),
        ),
{
    answer(access, is_entry_denied(list, parent, name, is_dir))
}

/// Answers a request to rename an entry, which is refused where either name is
/// denied.
pub fn check_rename(
    list: &DenyList,
    old_parent: &[Vec<u8>],
    old_name: &[u8],
    new_parent: &[Vec<u8>],
    new_name: &[u8],
    is_dir: bool,
) -> (result: Result<(), i32>)
    ensures
        result == answer_to(
            Access::Rename,
            entry_denied(list@, components_of(old_parent@), old_name@, is_dir) || entry_denied(
                list@,
                components_of(new_parent@),
                new_name@,
                is_dir,
            ),
        ),
{
    let denied = is_entry_denied(list, old_parent, old_name, is_dir) || is_entry_denied(
        list,
        new_parent,
        new_name,
        is_dir,
    );
    answer(Access::Rename, denied)
}

/// The entries of the directory `parent` that the list leaves visible, in
/// order.
pub fn visible_entries(list: &DenyList, parent: &[Vec<u8>], entries: Vec<Entry>) -> (shown: Vec<
    Entry,
>)
    ensures
        shown@ == visible(list@, components_of(parent@), entries@),
{
    let mut shown: Vec<Entry> = Vec::new();
    let ghost all = entries@;
    let ghost is_shown = |entry: Entry|
        !entry_denied(list@, components_of(parent@), entry.name@, entry.is_dir);
    assert(all.take(0).filter(is_shown) =~= Seq::empty()) by {
        reveal(Seq::filter);
    }
    for entry in it: entries
        invariant
            it.seq() == all,
            is_shown == (|entry: Entry|
                !entry_denied(list@, components_of(parent@), entry.name@, entry.is_dir)),
            shown@ == all.take(it.index() as int).filter(is_shown),
    {
        proof {
            reveal(Seq::filter);
            assert(all.take(it.index() as int + 1).drop_last() =~= all.take(it.index() as int));
        }
        if !is_entry_denied(list, parent, entry.name.as_slice(), entry.is_dir) {
            shown.push(entry);
        }
    }
    assert(all.take(all.len() as int) =~= all);
    shown
}

/// **Law.** What is listed can be found, and what can be found is listed.
pub proof fn law_listed_iff_found(
    list: DenyListView,
    parent: Seq<Seq<u8>>,
    entries: Seq<Entry>,
    entry: Entry,
)
    requires
        entries.contains(entry),
    ensures
        visible(list, parent, entries).contains(entry) <==> answer_to(
            Access::Lookup,
            entry_denied(list, parent, entry.name@, entry.is_dir),
        ) is Ok,
{
    let is_shown = |e: Entry| !entry_denied(list, parent, e.name@, e.is_dir);
    let shown = visible(list, parent, entries);
    if is_shown(entry) {
        entries.lemma_filter_contains(is_shown, entries.index_of(entry));
    }
    if shown.contains(entry) {
        entries.lemma_filter_pred(is_shown, shown.index_of(entry));
    }
}

/// **Law.** Looking at the name alone, where that is done, gives the same
/// answer as looking at the path.
///
/// Left out are patterns without a separator in which a class other than at
/// either end, or a `**` behind an escaped character, can match one.
pub proof fn law_entry_is_denied_by_its_path(
    list: DenyListView,
    parent: Seq<Seq<u8>>,
    name: Seq<u8>,
    is_dir: bool,
)
    requires
        list.wf(),
        list.looks_at_clean_names() || list.needs_path_reconstruction,
        forall|i: int| 0 <= i < parent.len() ==> is_name(#[trigger] parent[i]),
        is_name(name),
    ensures
        entry_denied(list, parent, name, is_dir) == list.denies(
            joined(parent.push(name)),
            is_dir,
        ),
{
    law_join_appends(parent, name);
    law_join_is_clean(parent.push(name));
    if !list.needs_path_reconstruction && parent.len() > 0 {
        law_names_suffice(list, joined(parent), name, is_dir);
    }
}

/// **Law.** An access is answered with success if and only if it is not
/// denied. Looking for a denied entry finds that it does not exist, and every
/// other access to it is refused as an access.
pub proof fn law_answers(access: Access, denied: bool)
    ensures
        answer_to(access, denied) is Ok <==> !denied,
        answer_to(Access::Lookup, true) == Err::<(), i32>(2),
        !(access is Lookup) ==> answer_to(access, true) == Err::<(), i32>(13),
{
}

/// **Law.** What is listed of a directory is what is listed of its parts, in
/// order: an entry that is not denied as it stands, and nothing of one that is.
pub proof fn law_listings_of_parts(
    list: DenyListView,
    parent: Seq<Seq<u8>>,
    a: Seq<Entry>,
    b: Seq<Entry>,
    entry: Entry,
)
    ensures
        visible(list, parent, a + b) == visible(list, parent, a) + visible(list, parent, b),
        visible(list, parent, seq![entry]) == if entry_denied(
            list,
            parent,
            entry.name@,
            entry.is_dir,
        ) {
            Seq::<Entry>::empty()
        } else {
            seq![entry]
        },
        visible(list, parent, Seq::empty()) == Seq::<Entry>::empty(),
{
    let is_shown = |e: Entry| !entry_denied(list, parent, e.name@, e.is_dir);
    Seq::filter_distributes_over_add(a, b, is_shown);
    reveal(Seq::filter);
    let one = seq![entry];
    assert(one.drop_last() =~= Seq::empty());
    assert(one.drop_last().filter(is_shown) =~= Seq::empty());
    assert(visible(list, parent, one) =~= if is_shown(entry) {
        one
    } else {
        Seq::empty()
    });
}

/// **Law.** Where some pattern needs the path, an entry is denied if and only
/// if the path is that its directory's path and its name make; elsewhere it is
/// denied in one directory if and only if it is denied in any other, by its
/// name.
pub proof fn law_entry_is_denied_by_path_or_name(
    list: DenyListView,
    parent: Seq<Seq<u8>>,
    other: Seq<Seq<u8>>,
    name: Seq<u8>,
    is_dir: bool,
)
    ensures
        list.needs_path_reconstruction ==> entry_denied(list, parent, name, is_dir) == list.denies(
            joined(parent.push(name)),
            is_dir,
        ),
        !list.needs_path_reconstruction ==> entry_denied(list, parent, name, is_dir)
            == list.denies(name, is_dir),
        !list.needs_path_reconstruction ==> entry_denied(list, parent, name, is_dir)
            == entry_denied(list, other, name, is_dir),
{
}

} // verus!
