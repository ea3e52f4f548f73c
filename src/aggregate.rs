use vstd::prelude::*;

use crate::model::{
    classified_files, direct_files, files_where, first_entry_display, first_file_display, key_any, key_at_root, key_is, key_under,
    segs, subtree_files, table_wf, total_where, ClassifiedFile, DirSummaries, DirTypeCount,
    KeyFilter, DIR_SUMMARY_VERSION,
};
use crate::table::{add_count, copy_prefix};
use crate::model::{lemma_total_none, lemma_total_single};

verus! {

/// Counts never exceed the number of files looked at.
proof fn lemma_files_bounds(files: Seq<ClassifiedFile>, p: KeyFilter)
    ensures
        0 <= files_where(files, p) <= files.len(),
    decreases files.len(),
{
    if files.len() > 0 {
        lemma_files_bounds(files.drop_last(), p);
    }
}

/// With non-negative counts, any selected sum lies between zero and the sum
/// over every entry.
proof fn lemma_total_bounds(s: Seq<DirTypeCount>, p: KeyFilter)
    requires
        table_wf(s),
    ensures
        0 <= total_where(s, p) <= total_where(s, key_any()),
    decreases s.len(),
{
    if s.len() > 0 {
        assert(table_wf(s.drop_last()));
        lemma_total_bounds(s.drop_last(), p);
    }
}

/// The sum over every entry grows with the prefix taken.
proof fn lemma_total_prefix(s: Seq<DirTypeCount>, j: int)
    requires
        table_wf(s),
        0 <= j <= s.len(),
    ensures
        total_where(s.subrange(0, j), key_any()) <= total_where(s, key_any()),
    decreases s.len(),
{
    if j < s.len() {
        assert(table_wf(s.drop_last()));
        assert(s.drop_last().subrange(0, j) =~= s.subrange(0, j));
        lemma_total_prefix(s.drop_last(), j);
    } else {
        assert(s.subrange(0, j) =~= s);
    }
}

/// The directory that directly holds a file.
fn parent_of(path: &Vec<String>) -> (r: Vec<String>)
    ensures
        segs(r@) == crate::model::parent_dir(segs(path@)),
{
    if path.len() == 0 {
        let r: Vec<String> = Vec::new();
        assert(segs(r@) =~= segs(path@));
        r
    } else {
        let r = copy_prefix(path, path.len() - 1);
        assert(segs(r@) =~= segs(path@).drop_last());
        r
    }
}

/// Counts, for each directory, the classified files that it directly holds,
/// by type. The name of a type in a directory is that of the first such file.
pub fn build_direct_summaries(files: &Vec<ClassifiedFile>) -> (r: DirSummaries)
    requires
        files@.len() <= i64::MAX,
    ensures
        r.wf(),
        r.version == DIR_SUMMARY_VERSION,
        forall|p: KeyFilter| #[trigger] total_where(r.summaries@, p) == files_where(files@, p),
        forall|k: int|
            0 <= k < r.summaries@.len() ==> (#[trigger] r.summaries@[k]).info.display_name@
                == first_file_display(files@, key_is(r.summaries@[k].dir_view(), r.summaries@[k].file_type@)),
{
    let mut table: Vec<DirTypeCount> = Vec::new();
    let mut i: usize = 0;
    while i < files.len()
        invariant
            i <= files@.len() <= i64::MAX,
            table_wf(table@),
            forall|p: KeyFilter|
                #[trigger] total_where(table@, p) == files_where(files@.subrange(0, i as int), p),
            forall|k: int|
                0 <= k < table@.len() ==> (#[trigger] table@[k]).info.display_name@
                    == first_file_display(files@.subrange(0, i as int), key_is(table@[k].dir_view(), table@[k].file_type@)),
        decreases files@.len() - i,
    {
        let ghost done = files@.subrange(0, i as int);
        let f = &files[i];
        assert(files@.subrange(0, i + 1).drop_last() =~= done);
        if !f.file_type.as_str().is_empty() {
            let dir = parent_of(&f.path);
            proof {
                lemma_files_bounds(done, key_is(segs(dir@), f.file_type@));
            }
            let ghost before = table@;
            let ghost key = key_is(segs(dir@), f.file_type@);
            add_count(&mut table, dir, &f.file_type, &f.display_name, 1);
            proof {
                let next = files@.subrange(0, i + 1);
                assert forall|k: int| 0 <= k < table@.len() implies (#[trigger] table@[k]).info.display_name@
                    == first_file_display(next, key_is(table@[k].dir_view(), table@[k].file_type@)) by {
                    let q = key_is(table@[k].dir_view(), table@[k].file_type@);
                    if k < before.len() {
                        lemma_total_single(before, k);
                        assert(before[k].dir_view() == table@[k].dir_view());
                    } else {
                        assert(q == key);
                        assert forall|j: int| 0 <= j < before.len() implies !(#[trigger] before[j]).selected(key) by {
                            assert(table@[j].dir_view() == before[j].dir_view());
                        }
                        lemma_total_none(before, key);
                    }
                }
            }
        } else {
            assert forall|k: int| 0 <= k < table@.len() implies (#[trigger] table@[k]).info.display_name@
                == first_file_display(files@.subrange(0, i + 1), key_is(table@[k].dir_view(), table@[k].file_type@)) by {
                lemma_total_single(table@, k);
            }
        }
        i = i + 1;
    }
    assert(files@.subrange(0, i as int) =~= files@);
    DirSummaries { version: DIR_SUMMARY_VERSION, summaries: table }
}

/// Adds `c` files of type `t` to directory `dir` and to each of its
/// ancestors, up to and including the root.
fn add_to_ancestors(
    table: &mut Vec<DirTypeCount>,
    dir: &Vec<String>,
    t: &String,
    display: &String,
    c: i64,
)
    requires
        table_wf(old(table)@),
        t@.len() > 0,
        c > 0,
        forall|a: Seq<Seq<char>>, tt: Seq<char>|
            #[trigger] total_where(old(table)@, key_is(a, tt)) + c <= i64::MAX,
    ensures
        table_wf(final(table)@),
        forall|a: Seq<Seq<char>>, tt: Seq<char>|
            #[trigger] total_where(final(table)@, key_is(a, tt)) == total_where(
                old(table)@,
                key_is(a, tt),
            ) + (if tt == t@ && a.is_prefix_of(segs(dir@)) {
                c as int
            } else {
                0
            }),
        total_where(final(table)@, key_at_root()) == total_where(old(table)@, key_at_root()) + c,
        old(table)@.len() <= final(table)@.len(),
        forall|k: int|
            0 <= k < old(table)@.len() ==> {
                &&& (#[trigger] final(table)@[k]).dir_view() == old(table)@[k].dir_view()
                &&& final(table)@[k].file_type@ == old(table)@[k].file_type@
                &&& final(table)@[k].info.display_name@ == old(table)@[k].info.display_name@
            },
        forall|k: int|
            old(table)@.len() <= k < final(table)@.len() ==> {
                &&& (#[trigger] final(table)@[k]).dir_view().is_prefix_of(segs(dir@))
                &&& final(table)@[k].file_type@ == t@
                &&& final(table)@[k].info.display_name@ == display@
            },
{
    let ghost d = segs(dir@);
    let ghost start = table@;
    let mut m: usize = dir.len();
    loop
        invariant_except_break
            m <= d.len(),
            table_wf(table@),
            forall|a: Seq<Seq<char>>, tt: Seq<char>|
                #[trigger] total_where(table@, key_is(a, tt)) == total_where(start, key_is(a, tt))
                    + (if tt == t@ && a.is_prefix_of(d) && a.len() > m {
                    c as int
                } else {
                    0
                }),
            total_where(table@, key_at_root()) == total_where(start, key_at_root()),
        invariant
            d == segs(dir@),
            d.len() == dir@.len(),
            t@.len() > 0,
            c > 0,
            forall|a: Seq<Seq<char>>, tt: Seq<char>|
                #[trigger] total_where(start, key_is(a, tt)) + c <= i64::MAX,
            start.len() <= table@.len(),
            forall|k: int|
                0 <= k < start.len() ==> {
                    &&& (#[trigger] table@[k]).dir_view() == start[k].dir_view()
                    &&& table@[k].file_type@ == start[k].file_type@
                    &&& table@[k].info.display_name@ == start[k].info.display_name@
                },
            forall|k: int|
                start.len() <= k < table@.len() ==> {
                    &&& (#[trigger] table@[k]).dir_view().is_prefix_of(d)
                    &&& table@[k].file_type@ == t@
                    &&& table@[k].info.display_name@ == display@
                },
        ensures
            table_wf(table@),
            forall|a: Seq<Seq<char>>, tt: Seq<char>|
                #[trigger] total_where(table@, key_is(a, tt)) == total_where(start, key_is(a, tt))
                    + (if tt == t@ && a.is_prefix_of(d) {
                    c as int
                } else {
                    0
                }),
            total_where(table@, key_at_root()) == total_where(start, key_at_root()) + c,
        decreases m,
    {
        let anc = copy_prefix(dir, m);
        let ghost ad = segs(anc@);
        let ghost before = table@;
        assert(ad.is_prefix_of(d));
        assert(!(ad.len() > m));
        add_count(table, anc, t, display, c);
        assert forall|a: Seq<Seq<char>>, tt: Seq<char>|
            #[trigger] total_where(table@, key_is(a, tt)) == total_where(start, key_is(a, tt)) + (
            if tt == t@ && a.is_prefix_of(d) && a.len() >= m {
                c as int
            } else {
                0
            }) by {
            assert(total_where(table@, key_is(a, tt)) == total_where(before, key_is(a, tt)) + (
            if key_is(a, tt)(ad, t@) {
                c as int
            } else {
                0
            }));
            if tt == t@ && a.is_prefix_of(d) && a.len() == m {
                assert(a =~= ad);
            }
        }
        assert(total_where(table@, key_at_root()) == total_where(before, key_at_root()) + (if key_at_root()(ad, t@) {
                c as int
            } else {
                0
            }));
        if m == 0 {
            break;
        }
        m = m - 1;
    }
}

/// Rolls direct counts up: each directory receives the counts of every
/// directory at or below it.
pub fn roll_up(direct: &DirSummaries) -> (r: DirSummaries)
    requires
        direct.wf(),
        total_where(direct.summaries@, key_any()) <= i64::MAX,
    ensures
        r.wf(),
        r.version == DIR_SUMMARY_VERSION,
        forall|a: Seq<Seq<char>>, t: Seq<char>|
            #[trigger] r.count_of(a, t) == total_where(direct.summaries@, key_under(a, t)),
        total_where(r.summaries@, key_at_root()) == total_where(direct.summaries@, key_any()),
        forall|k: int|
            0 <= k < r.summaries@.len() ==> (#[trigger] r.summaries@[k]).info.display_name@
                == first_entry_display(direct.summaries@, key_under(r.summaries@[k].dir_view(), r.summaries@[k].file_type@)),
{
    let ghost s = direct.summaries@;
    let mut out: Vec<DirTypeCount> = Vec::new();
    let mut j: usize = 0;
    while j < direct.summaries.len()
        invariant
            s == direct.summaries@,
            table_wf(s),
            total_where(s, key_any()) <= i64::MAX,
            j <= s.len(),
            table_wf(out@),
            forall|a: Seq<Seq<char>>, t: Seq<char>|
                #[trigger] total_where(out@, key_is(a, t)) == total_where(
                    s.subrange(0, j as int),
                    key_under(a, t),
                ),
            total_where(out@, key_at_root()) == total_where(s.subrange(0, j as int), key_any()),
            forall|k: int|
                0 <= k < out@.len() ==> (#[trigger] out@[k]).info.display_name@
                    == first_entry_display(s.subrange(0, j as int), key_under(out@[k].dir_view(), out@[k].file_type@)),
        decreases s.len() - j,
    {
        let e = &direct.summaries[j];
        let ghost done = s.subrange(0, j as int);
        let ghost next = s.subrange(0, j + 1);
        proof {
            assert(next.drop_last() =~= done);
            assert(table_wf(done));
            assert(table_wf(next));
            lemma_total_prefix(s, j + 1);
            assert forall|a: Seq<Seq<char>>, t: Seq<char>|
                #[trigger] total_where(out@, key_is(a, t)) + e.info.count <= i64::MAX by {
                lemma_total_bounds(done, key_under(a, t));
            }
        }
        let ghost before = out@;
        add_to_ancestors(&mut out, &e.dir, &e.file_type, &e.info.display_name, e.info.count);
        proof {
            assert(next.last() == *e);
            assert forall|k: int| 0 <= k < out@.len() implies (#[trigger] out@[k]).info.display_name@
                == first_entry_display(next, key_under(out@[k].dir_view(), out@[k].file_type@)) by {
                let a = out@[k].dir_view();
                let t = out@[k].file_type@;
                if k < before.len() {
                    lemma_total_single(before, k);
                    assert(before[k].dir_view() == a);
                } else {
                    assert forall|i: int| 0 <= i < before.len() implies !(#[trigger] before[i]).selected(key_is(a, t)) by {
                        assert(out@[i].dir_view() == before[i].dir_view());
                    }
                    lemma_total_none(before, key_is(a, t));
                }
            }
        }
        j = j + 1;
    }
    assert(s.subrange(0, j as int) =~= s);
    DirSummaries { version: DIR_SUMMARY_VERSION, summaries: out }
}

/// Per-directory counts of the classified files, by type: of the files
/// directly in each directory, or, when `recursive`, of the files anywhere
/// below it.
pub fn compute_dir_summaries(files: &Vec<ClassifiedFile>, recursive: bool) -> (r: DirSummaries)
    requires
        files@.len() <= i64::MAX,
    ensures
        r.wf(),
        r.version == DIR_SUMMARY_VERSION,
        !recursive ==> forall|d: Seq<Seq<char>>, t: Seq<char>|
            #[trigger] r.count_of(d, t) == direct_files(files@, d, t),
        recursive ==> forall|d: Seq<Seq<char>>, t: Seq<char>|
            #[trigger] r.count_of(d, t) == subtree_files(files@, d, t),
        recursive ==> total_where(r.summaries@, key_at_root()) == classified_files(files@),
        !recursive ==> forall|k: int|
            0 <= k < r.summaries@.len() ==> (#[trigger] r.summaries@[k]).info.display_name@
                == first_file_display(files@, key_is(r.summaries@[k].dir_view(), r.summaries@[k].file_type@)),
{
    let direct = build_direct_summaries(files);
    if recursive {
        proof {
            lemma_files_bounds(files@, key_any());
        }
        roll_up(&direct)
    } else {
        direct
    }
}

} // verus!
