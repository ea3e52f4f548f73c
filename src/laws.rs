use vstd::prelude::*;

use crate::model::{
    classified_files, direct_files, files_where, key_under, subtree_files, ClassifiedFile,
    KeyFilter,
};

verus! {

proof fn lemma_insert_unclassified(files: Seq<ClassifiedFile>, k: int, f: ClassifiedFile, p: KeyFilter)
    requires
        0 <= k <= files.len(),
        !f.classified(),
    ensures
        files_where(files.insert(k, f), p) == files_where(files, p),
    decreases files.len(),
{
    let g = files.insert(k, f);
    if k == files.len() {
        assert(g.drop_last() =~= files);
    } else {
        assert(g.drop_last() =~= files.drop_last().insert(k, f));
        assert(g.last() == files.last());
        lemma_insert_unclassified(files.drop_last(), k, f, p);
    }
}

/// A file that could not be classified counts nowhere: putting it anywhere in
/// the listing changes no directory's count, direct or recursive, nor the
/// number of classified files.
pub proof fn lemma_unclassified_file_counts_nowhere(files: Seq<ClassifiedFile>, k: int, f: ClassifiedFile)
    requires
        0 <= k <= files.len(),
        f.file_type@.len() == 0,
    ensures
        forall|d: Seq<Seq<char>>, t: Seq<char>|
            #[trigger] direct_files(files.insert(k, f), d, t) == direct_files(files, d, t),
        forall|d: Seq<Seq<char>>, t: Seq<char>|
            #[trigger] subtree_files(files.insert(k, f), d, t) == subtree_files(files, d, t),
        classified_files(files.insert(k, f)) == classified_files(files),
{
    assert forall|p: KeyFilter| #[trigger] files_where(files.insert(k, f), p) == files_where(files, p) by {
        lemma_insert_unclassified(files, k, f, p);
    }
}

/// Sum of the recursive counts of type `t` over the children of `d` named in
/// `names`.
pub open spec fn children_total(
    files: Seq<ClassifiedFile>,
    d: Seq<Seq<char>>,
    t: Seq<char>,
    names: Seq<Seq<char>>,
) -> int
    decreases names.len(),
{
    if names.len() == 0 {
        0
    } else {
        children_total(files, d, t, names.drop_last()) + subtree_files(files, d.push(names.last()), t)
    }
}

/// The children of `d` named in `names` that hold the one file `f`, counted.
spec fn children_hits(f: ClassifiedFile, d: Seq<Seq<char>>, t: Seq<char>, names: Seq<Seq<char>>) -> int
    decreases names.len(),
{
    if names.len() == 0 {
        0
    } else {
        children_hits(f, d, t, names.drop_last()) + if f.selected(key_under(d.push(names.last()), t)) {
            1int
        } else {
            0
        }
    }
}

proof fn lemma_children_push(
    files: Seq<ClassifiedFile>,
    f: ClassifiedFile,
    d: Seq<Seq<char>>,
    t: Seq<char>,
    names: Seq<Seq<char>>,
)
    ensures
        children_total(files.push(f), d, t, names) == children_total(files, d, t, names)
            + children_hits(f, d, t, names),
    decreases names.len(),
{
    assert(files.push(f).drop_last() =~= files);
    if names.len() > 0 {
        lemma_children_push(files, f, d, t, names.drop_last());
    }
}

/// A file lies under the child of `d` named `s` exactly when it lies strictly
/// below `d` and its path continues with `s`.
proof fn lemma_under_child(f: ClassifiedFile, d: Seq<Seq<char>>, t: Seq<char>, s: Seq<char>)
    ensures
        f.selected(key_under(d.push(s), t)) == (f.selected(key_under(d, t)) && f.dir_view().len()
            > d.len() && f.dir_view()[d.len() as int] == s),
{
    let v = f.dir_view();
    if f.selected(key_under(d.push(s), t)) {
        assert(d.is_prefix_of(v)) by {
            assert forall|i: int| 0 <= i < d.len() implies d[i] == v[i] by {
                assert(d.push(s)[i] == v[i]);
            }
        }
        assert(d.push(s)[d.len() as int] == v[d.len() as int]);
    }
    if f.selected(key_under(d, t)) && v.len() > d.len() && v[d.len() as int] == s {
        assert(d.push(s).is_prefix_of(v)) by {
            assert forall|i: int| 0 <= i < d.len() + 1 implies d.push(s)[i] == v[i] by {
                if i < d.len() {
                    assert(d[i] == v[i]);
                }
            }
        }
    }
}

proof fn lemma_hits(f: ClassifiedFile, d: Seq<Seq<char>>, t: Seq<char>, names: Seq<Seq<char>>)
    requires
        names.no_duplicates(),
    ensures
        children_hits(f, d, t, names) == if f.selected(key_under(d, t)) && f.dir_view().len()
            > d.len() && names.contains(f.dir_view()[d.len() as int]) {
            1int
        } else {
            0
        },
    decreases names.len(),
{
    if names.len() > 0 {
        let init = names.drop_last();
        assert(init.no_duplicates());
        lemma_hits(f, d, t, init);
        lemma_under_child(f, d, t, names.last());
        if f.selected(key_under(d, t)) && f.dir_view().len() > d.len() {
            let s0 = f.dir_view()[d.len() as int];
            if names.last() == s0 {
                assert(!init.contains(s0)) by {
                    if init.contains(s0) {
                        let i = choose|i: int| 0 <= i < init.len() && init[i] == s0;
                        assert(names[i] == names[names.len() - 1]);
                    }
                }
            } else {
                assert(names.contains(s0) == init.contains(s0)) by {
                    if names.contains(s0) {
                        let i = choose|i: int| 0 <= i < names.len() && names[i] == s0;
                        assert(init[i] == s0);
                    }
                    if init.contains(s0) {
                        let i = choose|i: int| 0 <= i < init.len() && init[i] == s0;
                        assert(names[i] == s0);
                    }
                }
            }
        }
    }
}

/// The recursive count of a directory is its direct count plus the recursive
/// counts of its children: of every child that holds a file of that type,
/// each named once in `names`.
pub proof fn lemma_subtree_by_children(
    files: Seq<ClassifiedFile>,
    d: Seq<Seq<char>>,
    t: Seq<char>,
    names: Seq<Seq<char>>,
)
    requires
        names.no_duplicates(),
        forall|i: int|
            0 <= i < files.len() && (#[trigger] files[i]).selected(key_under(d, t))
                && files[i].dir_view().len() > d.len() ==> names.contains(
                files[i].dir_view()[d.len() as int],
            ),
    ensures
        subtree_files(files, d, t) == direct_files(files, d, t) + children_total(files, d, t, names),
    decreases files.len(),
{
    if files.len() > 0 {
        let init = files.drop_last();
        let f = files.last();
        assert forall|i: int|
            0 <= i < init.len() && (#[trigger] init[i]).selected(key_under(d, t))
                && init[i].dir_view().len() > d.len() implies names.contains(
            init[i].dir_view()[d.len() as int],
        ) by {
            assert(files[i] == init[i]);
        }
        lemma_subtree_by_children(init, d, t, names);
        assert(files =~= init.push(f));
        lemma_children_push(init, f, d, t, names);
        lemma_hits(f, d, t, names);
        assert(files[files.len() - 1] == f);
        if f.selected(key_under(d, t)) && f.dir_view().len() == d.len() {
            assert(f.dir_view() =~= d);
        }
    } else {
        lemma_children_zero(files, d, t, names);
    }
}

proof fn lemma_children_zero(files: Seq<ClassifiedFile>, d: Seq<Seq<char>>, t: Seq<char>, names: Seq<Seq<char>>)
    requires
        files.len() == 0,
    ensures
        children_total(files, d, t, names) == 0,
    decreases names.len(),
{
    if names.len() > 0 {
        lemma_children_zero(files, d, t, names.drop_last());
    }
}

} // verus!
