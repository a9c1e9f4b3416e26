//! The traversal engine: a directory tree modelled as a value, and the
//! recursive search that collects the paths of the files whose stem contains
//! the search term, together with the paths of the directories whose listing
//! failed.

use vstd::prelude::*;
use crate::matching::{matches_name, name_matches};

verus! {

broadcast use vstd::std_specs::vec::group_vec_axioms;

/// The byte that separates the components of a path.
pub const SLASH: u8 = 47;

/// One entry of a directory tree, as a directory listing reports it.
/// A directory whose listing succeeded carries the entries that it produced;
/// one whose listing failed is recorded as `DeniedDir`. Entries that are
/// neither regular files nor directories are `Other` and are skipped.
pub enum Entry {
    File { name: Vec<u8> },
    Dir { name: Vec<u8>, children: Vec<Entry> },
    DeniedDir { name: Vec<u8> },
    Other { name: Vec<u8> },
}

/// `name` appended to the directory path `prefix`, with a separator between
/// them unless the prefix is empty or already ends in one.
pub open spec fn join_spec(prefix: Seq<u8>, name: Seq<u8>) -> Seq<u8> {
    if prefix.len() == 0 {
        name
    } else if prefix.last() == SLASH {
        prefix + name
    } else {
        prefix + seq![SLASH] + name
    }
}

/// Returns `name` appended to the directory path `prefix`, separated by a
/// slash unless the prefix is empty or already ends in one.
pub fn path_join(prefix: &Vec<u8>, name: &Vec<u8>) -> (r: Vec<u8>)
    ensures
        r@ == join_spec(prefix@, name@),
{
    let mut r: Vec<u8> = Vec::new();
    let mut i: usize = 0;
    while i < prefix.len()
        invariant
            i <= prefix.len(),
            r@ =~= prefix@.subrange(0, i as int),
        decreases prefix.len() - i,
    {
        r.push(prefix[i]);
        assert(r@ =~= prefix@.subrange(0, i + 1 as int));
        i += 1;
    }
    assert(r@ =~= prefix@);
    if prefix.len() > 0 && prefix[prefix.len() - 1] != SLASH {
        r.push(SLASH);
        assert(r@ =~= prefix@ + seq![SLASH]);
    }
    let ghost mid: Seq<u8> = r@;
    let mut j: usize = 0;
    while j < name.len()
        invariant
            j <= name.len(),
            r@ =~= mid + name@.subrange(0, j as int),
        decreases name.len() - j,
    {
        r.push(name[j]);
        assert(r@ =~= mid + name@.subrange(0, j + 1 as int));
        j += 1;
    }
    proof {
        assert(name@.subrange(0, name@.len() as int) =~= name@);
        assert(r@ =~= join_spec(prefix@, name@));
    }
    r
}

/// The paths, in listing order, of the files in the subtree rooted at `e`
/// (placed under the directory path `prefix`) whose stem contains `term`.
pub open spec fn search_entry_spec(prefix: Seq<u8>, e: Entry, term: Seq<u8>) -> Seq<Seq<u8>>
    decreases e,
{
    match e {
        Entry::File { name } => if matches_name(name@, term) {
            seq![join_spec(prefix, name@)]
        } else {
            Seq::empty()
        },
        Entry::Dir { name, children } => search_entries_spec(
            join_spec(prefix, name@),
            children@,
            term,
        ),
        Entry::DeniedDir { .. } => Seq::empty(),
        Entry::Other { .. } => Seq::empty(),
    }
}

/// The matching file paths of a sequence of sibling entries, in order.
pub open spec fn search_entries_spec(prefix: Seq<u8>, es: Seq<Entry>, term: Seq<u8>) -> Seq<
    Seq<u8>,
>
    decreases es,
{
    if es.len() == 0 {
        Seq::empty()
    } else {
        search_entry_spec(prefix, es[0], term) + search_entries_spec(prefix, es.drop_first(), term)
    }
}

/// The paths, in listing order, of the directories in the subtree rooted at
/// `e` whose listing failed.
pub open spec fn denied_entry_spec(prefix: Seq<u8>, e: Entry) -> Seq<Seq<u8>>
    decreases e,
{
    match e {
        Entry::File { .. } => Seq::empty(),
        Entry::Dir { name, children } => denied_entries_spec(join_spec(prefix, name@), children@),
        Entry::DeniedDir { name } => seq![join_spec(prefix, name@)],
        Entry::Other { .. } => Seq::empty(),
    }
}

/// The unlistable directory paths of a sequence of sibling entries, in order.
pub open spec fn denied_entries_spec(prefix: Seq<u8>, es: Seq<Entry>) -> Seq<Seq<u8>>
    decreases es,
{
    if es.len() == 0 {
        Seq::empty()
    } else {
        denied_entry_spec(prefix, es[0]) + denied_entries_spec(prefix, es.drop_first())
    }
}

/// The views of the byte vectors of a sequence, element for element.
pub open spec fn views(s: Seq<Vec<u8>>) -> Seq<Seq<u8>> {
    s.map_values(|v: Vec<u8>| v@)
}

/// Appending one element to a sequence of byte vectors appends its view.
proof fn lemma_views_push(s: Seq<Vec<u8>>, v: Vec<u8>)
    ensures
        views(s.push(v)) == views(s).push(v@),
{
    assert(views(s.push(v)) =~= views(s).push(v@));
}

/// The matching paths of the siblings `es + [e]` are those of `es` followed
/// by those of `e`, and likewise for the unlistable directories.
proof fn lemma_entries_spec_snoc(prefix: Seq<u8>, es: Seq<Entry>, e: Entry, term: Seq<u8>)
    ensures
        search_entries_spec(prefix, es.push(e), term) == search_entries_spec(prefix, es, term)
            + search_entry_spec(prefix, e, term),
        denied_entries_spec(prefix, es.push(e)) == denied_entries_spec(prefix, es)
            + denied_entry_spec(prefix, e),
    decreases es,
{
    if es.len() == 0 {
        let single = es.push(e);
        assert(single[0] == e);
        assert(single.drop_first() =~= Seq::<Entry>::empty());
        assert(search_entries_spec(prefix, Seq::<Entry>::empty(), term)
            == Seq::<Seq<u8>>::empty());
        assert(denied_entries_spec(prefix, Seq::<Entry>::empty()) == Seq::<Seq<u8>>::empty());
        assert(search_entries_spec(prefix, single, term) == search_entry_spec(prefix, e, term)
            + Seq::<Seq<u8>>::empty());
        assert(denied_entries_spec(prefix, single) == denied_entry_spec(prefix, e)
            + Seq::<Seq<u8>>::empty());
        assert(search_entries_spec(prefix, single, term) =~= search_entries_spec(prefix, es, term)
            + search_entry_spec(prefix, e, term));
        assert(denied_entries_spec(prefix, single) =~= denied_entries_spec(prefix, es)
            + denied_entry_spec(prefix, e));
    } else {
        assert(es.push(e).drop_first() =~= es.drop_first().push(e));
        lemma_entries_spec_snoc(prefix, es.drop_first(), e, term);
        assert(es.push(e)[0] == es[0]);
        assert(search_entries_spec(prefix, es.push(e), term) =~= search_entries_spec(
            prefix,
            es,
            term,
        ) + search_entry_spec(prefix, e, term));
        assert(denied_entries_spec(prefix, es.push(e)) =~= denied_entries_spec(prefix, es)
            + denied_entry_spec(prefix, e));
    }
}

/// Walks the subtree rooted at `e`, which stands under the directory path
/// `prefix`, appending to `found` the path of every file whose stem contains
/// `term` and to `denied` the path of every directory whose listing failed.
pub fn search_entry(
    prefix: &Vec<u8>,
    e: &Entry,
    term: &Vec<u8>,
    found: &mut Vec<Vec<u8>>,
    denied: &mut Vec<Vec<u8>>,
)
    ensures
        views(final(found)@) == views(old(found)@) + search_entry_spec(prefix@, *e, term@),
        views(final(denied)@) == views(old(denied)@) + denied_entry_spec(prefix@, *e),
    decreases *e,
{
    match e {
        Entry::File { name } => {
            if name_matches(name, term) {
                let p = path_join(prefix, name);
                proof {
                    lemma_views_push(found@, p);
                }
                found.push(p);
            }
            assert(views(found@) =~= views(old(found)@) + search_entry_spec(prefix@, *e, term@));
            assert(views(denied@) =~= views(old(denied)@) + denied_entry_spec(prefix@, *e));
        },
        Entry::Dir { name, children } => {
            let child_prefix = path_join(prefix, name);
            let mut i: usize = 0;
            while i < children.len()
                invariant
                    i <= children.len(),
                    *e is Dir,
                    (*e)->Dir_children@ == children@,
                    child_prefix@ == join_spec(prefix@, name@),
                    views(found@) == views(old(found)@) + search_entries_spec(
                        child_prefix@,
                        children@.take(i as int),
                        term@,
                    ),
                    views(denied@) == views(old(denied)@) + denied_entries_spec(
                        child_prefix@,
                        children@.take(i as int),
                    ),
                decreases children.len() - i,
            {
                proof {
                    assert(decreases_to!(*e => (*e)->Dir_children));
                    assert(decreases_to!((*e)->Dir_children => (*e)->Dir_children@));
                    assert(decreases_to!((*e)->Dir_children@ => (*e)->Dir_children@[i as int]));
                    assert(decreases_to!(*e => children@[i as int]));
                }
                search_entry(&child_prefix, &children[i], term, found, denied);
                proof {
                    lemma_entries_spec_snoc(
                        child_prefix@,
                        children@.take(i as int),
                        children@[i as int],
                        term@,
                    );
                    assert(children@.take(i + 1 as int) =~= children@.take(i as int).push(
                        children@[i as int],
                    ));
                    assert(views(found@) =~= views(old(found)@) + search_entries_spec(
                        child_prefix@,
                        children@.take(i + 1 as int),
                        term@,
                    ));
                    assert(views(denied@) =~= views(old(denied)@) + denied_entries_spec(
                        child_prefix@,
                        children@.take(i + 1 as int),
                    ));
                }
                i += 1;
            }
            proof {
                assert(children@.take(children@.len() as int) =~= children@);
            }
        },
        Entry::DeniedDir { name } => {
            let p = path_join(prefix, name);
            proof {
                lemma_views_push(denied@, p);
            }
            denied.push(p);
            assert(views(denied@) =~= views(old(denied)@) + denied_entry_spec(prefix@, *e));
            assert(views(found@) =~= views(old(found)@) + search_entry_spec(prefix@, *e, term@));
        },
        Entry::Other { .. } => {
            assert(views(found@) =~= views(old(found)@) + search_entry_spec(prefix@, *e, term@));
            assert(views(denied@) =~= views(old(denied)@) + denied_entry_spec(prefix@, *e));
        },
    }
}

/// Searches the tree whose root directory has the path `root_path` and whose
/// listing produced `entries`. Returns, in listing order, the paths of the
/// files whose stem contains `term`, and the paths of the directories whose
/// listing failed.
pub fn search_files(root_path: &Vec<u8>, entries: &Vec<Entry>, term: &Vec<u8>) -> (r: (
    Vec<Vec<u8>>,
    Vec<Vec<u8>>,
))
    ensures
        views(r.0@) == search_entries_spec(root_path@, entries@, term@),
        views(r.1@) == denied_entries_spec(root_path@, entries@),
{
    let mut found: Vec<Vec<u8>> = Vec::new();
    let mut denied: Vec<Vec<u8>> = Vec::new();
    assert(views(found@) =~= Seq::<Seq<u8>>::empty());
    assert(views(denied@) =~= Seq::<Seq<u8>>::empty());
    let mut i: usize = 0;
    while i < entries.len()
        invariant
            i <= entries.len(),
            views(found@) == search_entries_spec(root_path@, entries@.take(i as int), term@),
            views(denied@) == denied_entries_spec(root_path@, entries@.take(i as int)),
        decreases entries.len() - i,
    {
        search_entry(root_path, &entries[i], term, &mut found, &mut denied);
        proof {
            lemma_entries_spec_snoc(
                root_path@,
                entries@.take(i as int),
                entries@[i as int],
                term@,
            );
            assert(entries@.take(i + 1 as int) =~= entries@.take(i as int).push(
                entries@[i as int],
            ));
        }
        i += 1;
    }
    proof {
        assert(entries@.take(entries@.len() as int) =~= entries@);
    }
    (found, denied)
}

} // verus!
