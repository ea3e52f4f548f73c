use vstd::prelude::*;

use crate::model::{
    key_is, lemma_total_none, lemma_total_push, lemma_total_single, lemma_total_update, segs, table_wf, total_where,
    DirSummaries, DirTypeCount, KeyFilter, PerFileInfo,
};

verus! {

/// The first `n` segments of a path, copied.
pub fn copy_prefix(v: &Vec<String>, n: usize) -> (r: Vec<String>)
    requires
        n <= v@.len(),
    ensures
        segs(r@) == segs(v@).subrange(0, n as int),
{
    let mut r: Vec<String> = Vec::new();
    let mut i: usize = 0;
    while i < n
        invariant
            i <= n <= v@.len(),
            r@.len() == i,
            forall|j: int| 0 <= j < i ==> (#[trigger] r@[j])@ == v@[j]@,
        decreases n - i,
    {
        let s: String = v[i].clone();
        r.push(s);
        i = i + 1;
    }
    assert(segs(r@) =~= segs(v@).subrange(0, n as int));
    r
}

/// Whether two paths have the same segments.
pub fn same_segments(a: &Vec<String>, b: &Vec<String>) -> (r: bool)
    ensures
        r == (segs(a@) == segs(b@)),
{
    if a.len() != b.len() {
        assert(segs(a@).len() != segs(b@).len());
        return false;
    }
    let mut i: usize = 0;
    while i < a.len()
        invariant
            a@.len() == b@.len(),
            i <= a@.len(),
            segs(a@).subrange(0, i as int) == segs(b@).subrange(0, i as int),
        decreases a@.len() - i,
    {
        if a[i] != b[i] {
            assert(segs(a@)[i as int] != segs(b@)[i as int]);
            return false;
        }
        i = i + 1;
        assert(segs(a@).subrange(0, i as int) =~= segs(b@).subrange(0, i as int));
    }
    assert(segs(a@) =~= segs(a@).subrange(0, i as int));
    assert(segs(b@) =~= segs(b@).subrange(0, i as int));
    true
}

/// The position of the entry for directory `dir` and type `t`, if there is one.
pub fn find_entry(table: &Vec<DirTypeCount>, dir: &Vec<String>, t: &String) -> (r: Option<usize>)
    ensures
        match r {
            Some(k) => k < table@.len() && table@[k as int].dir_view() == segs(dir@)
                && table@[k as int].file_type@ == t@,
            None => forall|i: int|
                0 <= i < table@.len() ==> !((#[trigger] table@[i]).dir_view() == segs(dir@)
                    && table@[i].file_type@ == t@),
        },
{
    let mut i: usize = 0;
    while i < table.len()
        invariant
            i <= table@.len(),
            forall|j: int|
                0 <= j < i ==> !((#[trigger] table@[j]).dir_view() == segs(dir@)
                    && table@[j].file_type@ == t@),
        decreases table@.len() - i,
    {
        if table[i].file_type == *t && same_segments(&table[i].dir, dir) {
            return Some(i);
        }
        i = i + 1;
    }
    None
}

/// Adds `c` files of type `t` to directory `dir`, creating the entry, with
/// `display` as its name, when there is none yet.
pub fn add_count(
    table: &mut Vec<DirTypeCount>,
    dir: Vec<String>,
    t: &String,
    display: &String,
    c: i64,
)
    requires
        table_wf(old(table)@),
        t@.len() > 0,
        c > 0,
        total_where(old(table)@, key_is(segs(dir@), t@)) + c <= i64::MAX,
    ensures
        table_wf(final(table)@),
        old(table)@.len() <= final(table)@.len() <= old(table)@.len() + 1,
        forall|k: int|
            0 <= k < old(table)@.len() ==> {
                &&& (#[trigger] final(table)@[k]).dir_view() == old(table)@[k].dir_view()
                &&& final(table)@[k].file_type@ == old(table)@[k].file_type@
                &&& final(table)@[k].info.display_name@ == old(table)@[k].info.display_name@
            },
        forall|k: int|
            old(table)@.len() <= k < final(table)@.len() ==> {
                &&& (#[trigger] final(table)@[k]).dir_view() == segs(dir@)
                &&& final(table)@[k].file_type@ == t@
                &&& final(table)@[k].info.display_name@ == display@
            },
        forall|p: KeyFilter|
            #[trigger] total_where(final(table)@, p) == total_where(old(table)@, p) + (if p(
                segs(dir@),
                t@,
            ) {
                c as int
            } else {
                0
            }),
{
    let ghost before = table@;
    match find_entry(table, &dir, t) {
        Some(k) => {
            proof {
                lemma_total_single(before, k as int);
            }
            let count = table[k].info.count + c;
            table[k].info.count = count;
            proof {
                assert(table@ == before.update(k as int, table@[k as int]));
                assert forall|p: KeyFilter|
                    #[trigger] total_where(table@, p) == total_where(before, p) + (if p(
                        segs(dir@),
                        t@,
                    ) {
                        c as int
                    } else {
                        0
                    }) by {
                    lemma_total_update(before, k as int, table@[k as int], p);
                }
            }
        },
        None => {
            let e = DirTypeCount {
                dir,
                file_type: t.clone(),
                info: PerFileInfo { count: c, display_name: display.clone() },
            };
            table.push(e);
            proof {
                assert forall|p: KeyFilter|
                    #[trigger] total_where(table@, p) == total_where(before, p) + (if p(
                        segs(e.dir@),
                        t@,
                    ) {
                        c as int
                    } else {
                        0
                    }) by {
                    lemma_total_push(before, e, p);
                }
            }
        },
    }
}

impl DirSummaries {
    /// The count of files of type `t` recorded for directory `dir`; zero when
    /// there is no entry.
    pub fn count(&self, dir: &Vec<String>, t: &String) -> (r: i64)
        requires
            self.wf(),
        ensures
            r == self.count_of(segs(dir@), t@),
    {
        match find_entry(&self.summaries, dir, t) {
            Some(k) => {
                proof {
                    lemma_total_single(self.summaries@, k as int);
                }
                self.summaries[k].info.count
            },
            None => {
                proof {
                    lemma_total_none(self.summaries@, key_is(segs(dir@), t@));
                }
                0
            },
        }
    }

    /// The number of (directory, type) entries.
    pub fn len(&self) -> (r: usize)
        ensures
            r == self.summaries@.len(),
    {
        self.summaries.len()
    }
}

} // verus!
