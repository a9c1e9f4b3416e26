//! The properties that hold of the search as a whole: over a well-formed
//! tree it prints, as a set, exactly the paths of the files whose stem
//! contains the term; it is deterministic; and an empty directory yields
//! nothing.

use vstd::prelude::*;
use crate::matching::matches_name;
use crate::walk::{
    Entry, SLASH, join_spec, search_entry_spec, search_entries_spec, denied_entry_spec,
    denied_entries_spec,
};

verus! {

/// Whether a single path component is free of separators, as every name that
/// a directory listing reports is.
pub open spec fn no_slash(name: Seq<u8>) -> bool {
    forall|i: int| 0 <= i < name.len() ==> name[i] != SLASH
}

/// A tree is well formed when every name in it is a single path component.
pub open spec fn wf_entry(e: Entry) -> bool
    decreases e,
{
    match e {
        Entry::File { name } => no_slash(name@),
        Entry::Dir { name, children } => no_slash(name@) && wf_entries(children@),
        Entry::DeniedDir { name } => no_slash(name@),
        Entry::Other { name } => no_slash(name@),
    }
}

/// Well-formedness of a sequence of sibling entries.
pub open spec fn wf_entries(es: Seq<Entry>) -> bool
    decreases es,
{
    if es.len() == 0 {
        true
    } else {
        wf_entry(es[0]) && wf_entries(es.drop_first())
    }
}

/// Whether the path holds a separator anywhere.
pub open spec fn contains_slash(p: Seq<u8>) -> bool {
    exists|i: int| 0 <= i < p.len() && p[i] == SLASH
}

/// The base name of a path: everything after the final separator, or the
/// whole path when it holds none.
pub open spec fn base_name_spec(p: Seq<u8>) -> Seq<u8>
    decreases p.len(),
{
    if !contains_slash(p) {
        p
    } else if p.last() == SLASH {
        Seq::empty()
    } else {
        base_name_spec(p.drop_last()).push(p.last())
    }
}

/// A path whose last separator stands at index `k` has as base name the
/// bytes that follow it.
proof fn lemma_base_name_characterization(p: Seq<u8>, k: int)
    requires
        0 <= k < p.len(),
        p[k] == SLASH,
        forall|j: int| k < j < p.len() ==> p[j] != SLASH,
    ensures
        base_name_spec(p) == p.subrange(k + 1, p.len() as int),
    decreases p.len(),
{
    assert(contains_slash(p));
    if p.last() == SLASH {
        assert(k == p.len() - 1);
        assert(p.subrange(k + 1, p.len() as int) =~= Seq::<u8>::empty());
    } else {
        assert(k < p.len() - 1);
        let prev = p.drop_last();
        assert(prev[k] == SLASH);
        lemma_base_name_characterization(prev, k);
        assert(prev.subrange(k + 1, prev.len() as int).push(p.last()) =~= p.subrange(
            k + 1,
            p.len() as int,
        ));
    }
}

/// Appending a separator-free name to a directory path leaves that name as
/// the base name of the joined path.
pub proof fn lemma_base_name_join(prefix: Seq<u8>, name: Seq<u8>)
    requires
        no_slash(name),
    ensures
        base_name_spec(join_spec(prefix, name)) == name,
{
    let p = join_spec(prefix, name);
    if prefix.len() == 0 {
        assert(p == name);
        assert(!contains_slash(name));
    } else if prefix.last() == SLASH {
        let k = prefix.len() - 1;
        assert(p[k] == SLASH);
        assert(forall|j: int| k < j < p.len() ==> p[j] == name[j - prefix.len()]);
        lemma_base_name_characterization(p, k);
        assert(p.subrange(k + 1, p.len() as int) =~= name);
    } else {
        let k = prefix.len() as int;
        assert(p[k] == SLASH);
        assert(forall|j: int| k < j < p.len() ==> p[j] == name[j - (prefix.len() + 1)]);
        lemma_base_name_characterization(p, k);
        assert(p.subrange(k + 1, p.len() as int) =~= name);
    }
}

/// The paths of all regular files in the subtree rooted at `e`, placed under
/// the directory path `prefix`, whatever their name.
pub open spec fn files_entry_spec(prefix: Seq<u8>, e: Entry) -> Set<Seq<u8>>
    decreases e,
{
    match e {
        Entry::File { name } => Set::empty().insert(join_spec(prefix, name@)),
        Entry::Dir { name, children } => files_entries_spec(join_spec(prefix, name@), children@),
        Entry::DeniedDir { .. } => Set::empty(),
        Entry::Other { .. } => Set::empty(),
    }
}

/// The regular-file paths of a sequence of sibling entries.
pub open spec fn files_entries_spec(prefix: Seq<u8>, es: Seq<Entry>) -> Set<Seq<u8>>
    decreases es,
{
    if es.len() == 0 {
        Set::empty()
    } else {
        files_entry_spec(prefix, es[0]).union(files_entries_spec(prefix, es.drop_first()))
    }
}

/// The set of elements of a concatenation is the union of the two sets.
proof fn lemma_to_set_concat(a: Seq<Seq<u8>>, b: Seq<Seq<u8>>)
    ensures
        (a + b).to_set() == a.to_set().union(b.to_set()),
{
    broadcast use vstd::seq_lib::lemma_seq_concat_contains_all_elements;

    assert((a + b).to_set() =~= a.to_set().union(b.to_set()));
}

/// The search prints exactly the right files. Over a well-formed subtree,
/// the set of paths that the search emits equals the set of paths of the
/// regular files in that subtree whose stem contains the term.
pub proof fn lemma_search_exact_entry(prefix: Seq<u8>, e: Entry, term: Seq<u8>)
    requires
        wf_entry(e),
    ensures
        search_entry_spec(prefix, e, term).to_set() == files_entry_spec(prefix, e).filter(
            (|p: Seq<u8>| matches_name(base_name_spec(p), term)),
        ),
    decreases e,
{
    let pred = (|p: Seq<u8>| matches_name(base_name_spec(p), term));
    match e {
        Entry::File { name } => {
            let q = join_spec(prefix, name@);
            lemma_base_name_join(prefix, name@);
            assert(pred(q) == matches_name(name@, term));
            if matches_name(name@, term) {
                assert(seq![q][0] == q);
                assert(seq![q].contains(q));
                assert(search_entry_spec(prefix, e, term).to_set() =~= files_entry_spec(
                    prefix,
                    e,
                ).filter(pred));
            } else {
                assert(search_entry_spec(prefix, e, term).to_set() =~= files_entry_spec(
                    prefix,
                    e,
                ).filter(pred));
            }
        },
        Entry::Dir { name, children } => {
            lemma_search_exact_entries(join_spec(prefix, name@), children@, term);
        },
        Entry::DeniedDir { .. } => {
            assert(search_entry_spec(prefix, e, term).to_set() =~= files_entry_spec(
                prefix,
                e,
            ).filter(pred));
        },
        Entry::Other { .. } => {
            assert(search_entry_spec(prefix, e, term).to_set() =~= files_entry_spec(
                prefix,
                e,
            ).filter(pred));
        },
    }
}

/// The exactness law over a sequence of well-formed sibling entries.
pub proof fn lemma_search_exact_entries(prefix: Seq<u8>, es: Seq<Entry>, term: Seq<u8>)
    requires
        wf_entries(es),
    ensures
        search_entries_spec(prefix, es, term).to_set() == files_entries_spec(prefix, es).filter(
            (|p: Seq<u8>| matches_name(base_name_spec(p), term)),
        ),
    decreases es,
{
    let pred = (|p: Seq<u8>| matches_name(base_name_spec(p), term));
    if es.len() == 0 {
        assert(search_entries_spec(prefix, es, term).to_set() =~= files_entries_spec(
            prefix,
            es,
        ).filter(pred));
    } else {
        lemma_search_exact_entry(prefix, es[0], term);
        lemma_search_exact_entries(prefix, es.drop_first(), term);
        lemma_to_set_concat(
            search_entry_spec(prefix, es[0], term),
            search_entries_spec(prefix, es.drop_first(), term),
        );
        assert(search_entries_spec(prefix, es, term).to_set() =~= files_entries_spec(
            prefix,
            es,
        ).filter(pred));
    }
}

/// Running the search twice against an unchanged tree yields the same set of
/// output lines, whatever order each run emitted them in.
pub proof fn lemma_search_idempotent(
    prefix: Seq<u8>,
    es: Seq<Entry>,
    term: Seq<u8>,
    r1: Seq<Seq<u8>>,
    r2: Seq<Seq<u8>>,
)
    requires
        r1 == search_entries_spec(prefix, es, term),
        r2 == search_entries_spec(prefix, es, term),
    ensures
        r1.to_set() == r2.to_set(),
{
}

/// An empty directory produces no output lines and no diagnostics.
pub proof fn lemma_empty_dir_no_output(prefix: Seq<u8>, term: Seq<u8>)
    ensures
        search_entries_spec(prefix, Seq::<Entry>::empty(), term) == Seq::<Seq<u8>>::empty(),
        denied_entries_spec(prefix, Seq::<Entry>::empty()) == Seq::<Seq<u8>>::empty(),
{
}

/// A directory entry without children contributes nothing to the output.
pub proof fn lemma_childless_dir_no_output(prefix: Seq<u8>, e: Entry, term: Seq<u8>)
    requires
        e matches Entry::Dir { children, .. } && children@.len() == 0,
    ensures
        search_entry_spec(prefix, e, term) == Seq::<Seq<u8>>::empty(),
        denied_entry_spec(prefix, e) == Seq::<Seq<u8>>::empty(),
{
}

} // verus!
