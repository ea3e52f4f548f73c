use vstd::prelude::*;

verus! {

/// Format version of a stored summary; a stored result is reused only when
/// its version equals this one.
pub const DIR_SUMMARY_VERSION: i64 = 1;

/// A directory, or a file path, as the list of its path segments. The root
/// directory is the empty list.
pub type Segments = Vec<String>;

/// Count of the files of one type, with the type's human-readable name.
pub struct PerFileInfo {
    pub count: i64,
    pub display_name: String,
}

/// The counts of one file type in one directory.
pub struct DirTypeCount {
    pub dir: Segments,
    pub file_type: String,
    pub info: PerFileInfo,
}

/// A file of the snapshot with the classification given to it. An empty
/// `file_type` means the file could not be classified.
pub struct ClassifiedFile {
    pub path: Segments,
    pub file_type: String,
    pub display_name: String,
}

/// Counts per directory and file type, tagged with a format version.
pub struct DirSummaries {
    pub version: i64,
    pub summaries: Vec<DirTypeCount>,
}

/// A list of segments seen as a sequence of strings.
pub open spec fn segs(v: Seq<String>) -> Seq<Seq<char>> {
    v.map_values(|s: String| s@)
}

/// The directory that holds a path: the path without its last segment. The
/// root holds itself.
pub open spec fn parent_dir(p: Seq<Seq<char>>) -> Seq<Seq<char>> {
    if p.len() == 0 {
        p
    } else {
        p.drop_last()
    }
}

/// A selection of (directory, file type) keys.
pub type KeyFilter = spec_fn(Seq<Seq<char>>, Seq<char>) -> bool;

/// The keys of exactly one directory and one type.
pub open spec fn key_is(d: Seq<Seq<char>>, t: Seq<char>) -> KeyFilter {
    |dd: Seq<Seq<char>>, tt: Seq<char>| dd == d && tt == t
}

/// The keys of one type in a directory and everything below it.
pub open spec fn key_under(d: Seq<Seq<char>>, t: Seq<char>) -> KeyFilter {
    |dd: Seq<Seq<char>>, tt: Seq<char>| d.is_prefix_of(dd) && tt == t
}

/// The keys of the root directory, of any type.
pub open spec fn key_at_root() -> KeyFilter {
    |dd: Seq<Seq<char>>, tt: Seq<char>| dd.len() == 0
}

/// Every key.
pub open spec fn key_any() -> KeyFilter {
    |dd: Seq<Seq<char>>, tt: Seq<char>| true
}

impl DirTypeCount {
    pub open spec fn dir_view(&self) -> Seq<Seq<char>> {
        segs(self.dir@)
    }

    pub open spec fn selected(&self, p: KeyFilter) -> bool {
        p(self.dir_view(), self.file_type@)
    }
}

impl ClassifiedFile {
    /// Whether the file was given a type.
    pub open spec fn classified(&self) -> bool {
        self.file_type@.len() > 0
    }

    /// The directory that directly holds the file.
    pub open spec fn dir_view(&self) -> Seq<Seq<char>> {
        parent_dir(segs(self.path@))
    }

    pub open spec fn selected(&self, p: KeyFilter) -> bool {
        self.classified() && p(self.dir_view(), self.file_type@)
    }
}

/// Sum of the counts of the entries whose key `p` selects.
pub open spec fn total_where(s: Seq<DirTypeCount>, p: KeyFilter) -> int
    decreases s.len(),
{
    if s.len() == 0 {
        0
    } else {
        total_where(s.drop_last(), p) + if s.last().selected(p) {
            s.last().info.count as int
        } else {
            0
        }
    }
}

/// Number of classified files whose (directory, type) key `p` selects.
pub open spec fn files_where(files: Seq<ClassifiedFile>, p: KeyFilter) -> int
    decreases files.len(),
{
    if files.len() == 0 {
        0
    } else {
        files_where(files.drop_last(), p) + if files.last().selected(p) {
            1int
        } else {
            0
        }
    }
}

/// The display name of the first classified file whose key `p` selects.
pub open spec fn first_file_display(files: Seq<ClassifiedFile>, p: KeyFilter) -> Seq<char>
    decreases files.len(),
{
    if files.len() == 0 {
        Seq::empty()
    } else if files_where(files.drop_last(), p) > 0 {
        first_file_display(files.drop_last(), p)
    } else {
        files.last().display_name@
    }
}

/// The display name of the first entry whose key `p` selects.
pub open spec fn first_entry_display(s: Seq<DirTypeCount>, p: KeyFilter) -> Seq<char>
    decreases s.len(),
{
    if s.len() == 0 {
        Seq::empty()
    } else if total_where(s.drop_last(), p) > 0 {
        first_entry_display(s.drop_last(), p)
    } else {
        s.last().info.display_name@
    }
}

/// Number of files directly in directory `d` classified with type `t`.
pub open spec fn direct_files(files: Seq<ClassifiedFile>, d: Seq<Seq<char>>, t: Seq<char>) -> int {
    files_where(files, key_is(d, t))
}

/// Number of files of type `t` in directory `d` or anywhere below it.
pub open spec fn subtree_files(files: Seq<ClassifiedFile>, d: Seq<Seq<char>>, t: Seq<char>) -> int {
    files_where(files, key_under(d, t))
}

/// Number of classified files.
pub open spec fn classified_files(files: Seq<ClassifiedFile>) -> int {
    files_where(files, key_any())
}

impl DirSummaries {
    /// The count stored for directory `d` and type `t`; zero when absent.
    pub open spec fn count_of(&self, d: Seq<Seq<char>>, t: Seq<char>) -> int {
        total_where(self.summaries@, key_is(d, t))
    }

    /// Keys are unique, types non-empty, and every stored count positive.
    pub open spec fn wf(&self) -> bool {
        table_wf(self.summaries@)
    }
}

/// Keys are unique, types non-empty, and every stored count positive.
pub open spec fn table_wf(s: Seq<DirTypeCount>) -> bool {
    &&& forall|i: int|
        0 <= i < s.len() ==> {
            &&& (#[trigger] s[i]).file_type@.len() > 0
            &&& s[i].info.count > 0
        }
    &&& forall|i: int, j: int|
        0 <= i < j < s.len() ==> (#[trigger] s[i].dir_view() != #[trigger] s[j].dir_view()
            || s[i].file_type@ != s[j].file_type@)
}

/// Replacing one entry changes every selected sum by the difference of the
/// two entries' selected counts.
pub proof fn lemma_total_update(s: Seq<DirTypeCount>, k: int, e: DirTypeCount, p: KeyFilter)
    requires
        0 <= k < s.len(),
    ensures
        total_where(s.update(k, e), p) == total_where(s, p) - (if s[k].selected(p) {
            s[k].info.count as int
        } else {
            0
        }) + (if e.selected(p) {
            e.info.count as int
        } else {
            0
        }),
    decreases s.len(),
{
    let u = s.update(k, e);
    if k == s.len() - 1 {
        assert(u.drop_last() =~= s.drop_last());
    } else {
        assert(u.drop_last() =~= s.drop_last().update(k, e));
        lemma_total_update(s.drop_last(), k, e, p);
    }
}

/// Appending an entry adds its count to every sum that selects it.
pub proof fn lemma_total_push(s: Seq<DirTypeCount>, e: DirTypeCount, p: KeyFilter)
    ensures
        total_where(s.push(e), p) == total_where(s, p) + (if e.selected(p) {
            e.info.count as int
        } else {
            0
        }),
{
    assert(s.push(e).drop_last() =~= s);
}

/// With unique keys, an entry's count is the whole sum for its key.
pub proof fn lemma_total_single(s: Seq<DirTypeCount>, k: int)
    requires
        0 <= k < s.len(),
        forall|i: int, j: int|
            0 <= i < j < s.len() ==> (#[trigger] s[i].dir_view() != #[trigger] s[j].dir_view()
                || s[i].file_type@ != s[j].file_type@),
    ensures
        total_where(s, key_is(s[k].dir_view(), s[k].file_type@)) == s[k].info.count,
    decreases s.len(),
{
    let p = key_is(s[k].dir_view(), s[k].file_type@);
    if k < s.len() - 1 {
        lemma_total_single(s.drop_last(), k);
        assert(s.drop_last()[k] == s[k]);
        assert(!s.last().selected(p)) by {
            assert(s[k].dir_view() != s[s.len() - 1].dir_view() || s[k].file_type@ != s[s.len()
                - 1].file_type@);
        }
    } else {
        lemma_total_none(s.drop_last(), p);
    }
}

/// A sum that selects no entry is zero.
pub proof fn lemma_total_none(s: Seq<DirTypeCount>, p: KeyFilter)
    requires
        forall|i: int| 0 <= i < s.len() ==> !(#[trigger] s[i]).selected(p),
    ensures
        total_where(s, p) == 0,
    decreases s.len(),
{
    if s.len() > 0 {
        lemma_total_none(s.drop_last(), p);
    }
}

} // verus!
