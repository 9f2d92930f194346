//! Disk engine model: the managed installation root as a value. Unpacking
//! writes only into a private staging directory; commit publishes the fully
//! populated staging directory in one atomic step; identical content across
//! toolchains is stored once by hard-linking. The module computes, for each
//! staged file, the I/O action the surrounding program must perform; the
//! model is what the orchestrator's guarantees are stated over.

use vstd::prelude::*;
use crate::strutil::str_eq;

verus! {

/// One file of a toolchain tree, named by its path relative to the
/// toolchain's directory, with the checksum of its verified content.
pub struct FileEntry {
    pub rel_path: String,
    pub checksum: u64,
}

#[verifier::ext_equal]
pub struct FileEntryView {
    pub rel_path: Seq<char>,
    pub checksum: u64,
}

impl View for FileEntry {
    type V = FileEntryView;

    open spec fn view(&self) -> FileEntryView {
        FileEntryView { rel_path: self.rel_path@, checksum: self.checksum }
    }
}

impl DeepView for FileEntry {
    type V = FileEntryView;

    open spec fn deep_view(&self) -> FileEntryView {
        self.view()
    }
}

/// One toolchain's directory tree.
pub struct ToolchainDir {
    pub dir: String,
    pub files: Vec<FileEntry>,
}

#[verifier::ext_equal]
pub struct ToolchainDirView {
    pub dir: Seq<char>,
    pub files: Seq<FileEntryView>,
}

impl View for ToolchainDir {
    type V = ToolchainDirView;

    open spec fn view(&self) -> ToolchainDirView {
        ToolchainDirView { dir: self.dir@, files: self.files.deep_view() }
    }
}

impl DeepView for ToolchainDir {
    type V = ToolchainDirView;

    open spec fn deep_view(&self) -> ToolchainDirView {
        self.view()
    }
}

/// The managed installation root: the live toolchain directories any reader
/// may see, and at most one private staging directory.
pub struct Disk {
    pub live: Vec<ToolchainDir>,
    pub staging: Option<ToolchainDir>,
}

#[verifier::ext_equal]
pub struct DiskView {
    pub live: Seq<ToolchainDirView>,
    pub staging: Option<ToolchainDirView>,
}

impl View for Disk {
    type V = DiskView;

    open spec fn view(&self) -> DiskView {
        DiskView {
            live: self.live.deep_view(),
            staging: match self.staging {
                Some(ref d) => Some(d@),
                None => None,
            },
        }
    }
}

impl DiskView {
    /// Whether some live toolchain holds content with checksum `c`.
    pub open spec fn live_has_object(self, c: u64) -> bool {
        exists|i: int, j: int|
            0 <= i < self.live.len() && 0 <= j < (#[trigger] self.live[i]).files.len()
                && (#[trigger] self.live[i].files[j]).checksum == c
    }

    /// Whether the staging directory holds content with checksum `c`.
    pub open spec fn staging_has_object(self, c: u64) -> bool {
        match self.staging {
            Some(d) => exists|j: int| 0 <= j < d.files.len() && (#[trigger] d.files[j]).checksum == c,
            None => false,
        }
    }

    /// Whether any content with checksum `c` is stored at all.
    pub open spec fn has_object(self, c: u64) -> bool {
        self.live_has_object(c) || self.staging_has_object(c)
    }

    /// The distinct contents stored under the root: content-addressed, each
    /// checksum occupies storage once however many paths link to it.
    pub open spec fn stored_contents(self) -> Set<u64> {
        Set::new(|c: u64| self.has_object(c))
    }
}

/// `ds` with the directory named `name` removed.
pub open spec fn dir_remove(ds: Seq<ToolchainDirView>, name: Seq<char>) -> Seq<ToolchainDirView>
    decreases ds.len(),
{
    if ds.len() == 0 {
        Seq::empty()
    } else {
        let rest = dir_remove(ds.drop_last(), name);
        if ds.last().dir == name {
            rest
        } else {
            rest.push(ds.last())
        }
    }
}

/// Staging one file: the model transition.
pub open spec fn stage_file_spec(d: DiskView, e: FileEntryView) -> DiskView {
    DiskView {
        live: d.live,
        staging: match d.staging {
            Some(s) => Some(ToolchainDirView { dir: s.dir, files: s.files.push(e) }),
            None => d.staging,
        },
    }
}

/// Committing the staging directory: it replaces any live directory of the
/// same name, in one atomic step.
pub open spec fn commit_spec(d: DiskView) -> DiskView {
    match d.staging {
        Some(s) => DiskView { live: dir_remove(d.live, s.dir).push(s), staging: None },
        None => d,
    }
}

/// Abandoning the staging directory.
pub open spec fn abort_spec(d: DiskView) -> DiskView {
    DiskView { live: d.live, staging: None }
}

/// The I/O the surrounding program performs for one staged file. Paths of
/// sources are relative to the named live toolchain directory; destinations
/// are relative to the staging directory.
pub enum IoAction {
    /// Identical content is already installed: hard-link it instead of
    /// duplicating storage. (The program falls back to a full copy where the
    /// filesystem cannot link the two locations.)
    HardLink { source_dir: String, source_path: String, dest_path: String },
    /// New content: write the verified bytes.
    WriteFile { dest_path: String },
}

/// The first live file whose content has checksum `c`, as (directory
/// index, file index).
fn find_live_with_checksum(live: &Vec<ToolchainDir>, c: u64) -> (r: Option<(usize, usize)>)
    ensures
        match r {
            Some((i, j)) => 0 <= i < live.deep_view().len() && 0 <= j < live.deep_view()[
                i as int
            ].files.len() && live.deep_view()[i as int].files[j as int].checksum == c,
            None => forall|x: int, y: int|
                0 <= x < live.deep_view().len() && 0 <= y < (#[trigger] live.deep_view()[x]).files.len()
                    ==> (#[trigger] live.deep_view()[x].files[y]).checksum != c,
        },
{
    let n = live.len();
    for i in 0..n
        invariant
            n == live.len(),
            forall|x: int, y: int|
                0 <= x < i && 0 <= y < (#[trigger] live.deep_view()[x]).files.len() ==> (
                #[trigger] live.deep_view()[x].files[y]).checksum != c,
    {
        let nf = live[i].files.len();
        for j in 0..nf
            invariant
                n == live.len(),
                i < n,
                nf == live[i as int].files.len(),
                forall|x: int, y: int|
                    0 <= x < i && 0 <= y < (#[trigger] live.deep_view()[x]).files.len() ==> (
                    #[trigger] live.deep_view()[x].files[y]).checksum != c,
                forall|y: int|
                    0 <= y < j ==> (#[trigger] live.deep_view()[i as int].files[y]).checksum != c,
        {
            if live[i].files[j].checksum == c {
                assert(live.deep_view()[i as int].files[j as int] == live[i as int].files[
                    j as int
                ]@);
                return Some((i, j));
            }
            assert(live.deep_view()[i as int].files[j as int] == live[i as int].files[j as int]@);
        }
    }
    None
}

/// The first file in the list whose content has checksum `c`.
fn find_staged_with_checksum(files: &Vec<FileEntry>, c: u64) -> (r: Option<usize>)
    ensures
        match r {
            Some(j) => 0 <= j < files.deep_view().len() && files.deep_view()[j as int].checksum
                == c,
            None => forall|y: int|
                0 <= y < files.deep_view().len() ==> (#[trigger] files.deep_view()[y]).checksum
                    != c,
        },
{
    let n = files.len();
    for j in 0..n
        invariant
            n == files.len(),
            forall|y: int| 0 <= y < j ==> (#[trigger] files.deep_view()[y]).checksum != c,
    {
        if files[j].checksum == c {
            assert(files.deep_view()[j as int] == files[j as int]@);
            return Some(j);
        }
        assert(files.deep_view()[j as int] == files[j as int]@);
    }
    None
}

impl Disk {
    /// An empty installation root.
    pub fn new() -> (r: Disk)
        ensures
            r@.live == Seq::<ToolchainDirView>::empty(),
            r@.staging is None,
    {
        let r = Disk { live: Vec::new(), staging: None };
        assert(r@.live =~= Seq::<ToolchainDirView>::empty());
        r
    }

    /// Opens a fresh private staging directory for the toolchain directory
    /// named `dir`. Live directories are untouched.
    pub fn begin_staging(&mut self, dir: String)
        requires
            old(self)@.staging is None,
        ensures
            final(self)@.live == old(self)@.live,
            final(self)@.staging == Some(ToolchainDirView { dir: dir@, files: Seq::empty() }),
    {
        let d = ToolchainDir { dir, files: Vec::new() };
        assert(d@.files =~= Seq::<FileEntryView>::empty());
        self.staging = Some(d);
    }

    /// Stages one verified file and says what I/O to perform: a hard link
    /// exactly when identical content is already stored, else a write. Live
    /// directories are untouched.
    pub fn stage_file(&mut self, entry: FileEntry) -> (action: IoAction)
        requires
            old(self)@.staging is Some,
        ensures
            final(self)@ == stage_file_spec(old(self)@, entry@),
            action matches IoAction::HardLink { .. } <==> old(self)@.has_object(entry@.checksum),
            match action {
                IoAction::HardLink { source_dir, source_path, dest_path } => {
                    &&& dest_path@ == entry@.rel_path
                    &&& {
                        ||| exists|i: int, j: int|
                            0 <= i < old(self)@.live.len() && 0 <= j < (#[trigger] old(
                                self,
                            )@.live[i]).files.len() && old(self)@.live[i].dir == source_dir@ && (
                            #[trigger] old(self)@.live[i].files[j]).rel_path == source_path@ && old(
                                self,
                            )@.live[i].files[j].checksum == entry@.checksum
                        ||| (old(self)@.staging matches Some(s) && s.dir == source_dir@
                            && exists|j: int|
                            0 <= j < s.files.len() && (#[trigger] s.files[j]).rel_path
                                == source_path@ && s.files[j].checksum == entry@.checksum)
                    }
                },
                IoAction::WriteFile { dest_path } => dest_path@ == entry@.rel_path,
            },
    {
        let dest_path = entry.rel_path.clone();
        match find_live_with_checksum(&self.live, entry.checksum) {
            Some((i, j)) => {
                let source_dir = self.live[i].dir.clone();
                let source_path = self.live[i].files[j].rel_path.clone();
                let ghost ev = entry@;
                self.push_staged(entry);
                return IoAction::HardLink { source_dir, source_path, dest_path };
            },
            None => (),
        }
        let staging_hit = match &self.staging {
            Some(s) => find_staged_with_checksum(&s.files, entry.checksum),
            None => {
                proof {
                    assert(false);
                }
                None
            },
        };
        match staging_hit {
            Some(j) => {
                let (source_dir, source_path) = match &self.staging {
                    Some(s) => (s.dir.clone(), s.files[j].rel_path.clone()),
                    None => {
                        proof {
                            assert(false);
                        }
                        (String::new(), String::new())
                    },
                };
                let ghost ev = entry@;
                self.push_staged(entry);
                IoAction::HardLink { source_dir, source_path, dest_path }
            },
            None => {
                assert(!old(self)@.staging_has_object(entry@.checksum));
                let ghost ev = entry@;
                self.push_staged(entry);
                IoAction::WriteFile { dest_path }
            },
        }
    }

    /// Appends an entry to the staging directory.
    fn push_staged(&mut self, entry: FileEntry)
        requires
            old(self)@.staging is Some,
        ensures
            final(self)@ == stage_file_spec(old(self)@, entry@),
    {
        let ghost old_disk = self@;
        match &mut self.staging {
            Some(s) => {
                let ghost prev = s.files.deep_view();
                let ghost ev = entry@;
                s.files.push(entry);
                assert(s.files.deep_view() =~= prev.push(ev));
                assert(self@.live =~= old_disk.live);
            },
            None => {
                proof {
                    assert(false);
                }
            },
        }
    }

    /// Abandons the staging directory: live directories and hence every
    /// concurrent reader's view are untouched.
    pub fn abort_staging(&mut self)
        ensures
            final(self)@ == abort_spec(old(self)@),
    {
        self.staging = None;
    }

    /// Publishes the fully populated staging directory as the live directory
    /// of its name, atomically: a reader sees the old complete tree or the
    /// new complete one, never an intermediate state.
    pub fn commit_staging(&mut self)
        requires
            old(self)@.staging is Some,
        ensures
            final(self)@ == commit_spec(old(self)@),
    {
        let staged = match self.staging.take() {
            Some(s) => s,
            None => {
                proof {
                    assert(false);
                }
                ToolchainDir { dir: String::new(), files: Vec::new() }
            },
        };
        self.remove_live_dir_internal(staged.dir.as_str());
        let ghost mid = self@.live;
        let ghost sv = staged@;
        self.live.push(staged);
        assert(self@.live =~= mid.push(sv));
    }

    /// Deletes the live directory named `dir` from the model.
    pub fn remove_live_dir(&mut self, dir: &str)
        ensures
            final(self)@ == (DiskView {
                live: dir_remove(old(self)@.live, dir@),
                ..old(self)@
            }),
    {
        self.remove_live_dir_internal(dir);
    }

    fn remove_live_dir_internal(&mut self, dir: &str)
        ensures
            final(self)@.live == dir_remove(old(self)@.live, dir@),
            final(self)@.staging == old(self)@.staging,
    {
        let mut kept: Vec<ToolchainDir> = Vec::new();
        let n = self.live.len();
        let ghost orig = self@.live;
        for i in 0..n
            invariant
                n == self.live.len(),
                self@.live == orig,
                kept.deep_view() =~= dir_remove(orig.take(i as int), dir@),
        {
            let ghost prev = kept.deep_view();
            if !str_eq(self.live[i].dir.as_str(), dir) {
                let d = &self.live[i];
                kept.push(ToolchainDir { dir: d.dir.clone(), files: clone_file_list(&d.files) });
                assert(kept.deep_view() =~= prev.push(orig[i as int]));
            }
            assert(orig.take(i + 1).drop_last() =~= orig.take(i as int));
        }
        assert(orig.take(n as int) =~= orig);
        self.live = kept;
    }
}

/// An equal copy of a file list.
pub fn clone_file_list(v: &Vec<FileEntry>) -> (r: Vec<FileEntry>)
    ensures
        r.deep_view() == v.deep_view(),
{
    let mut r: Vec<FileEntry> = Vec::new();
    let n = v.len();
    for i in 0..n
        invariant
            n == v.len(),
            r.deep_view() =~= v.deep_view().take(i as int),
    {
        let ghost prev = r.deep_view();
        r.push(FileEntry { rel_path: v[i].rel_path.clone(), checksum: v[i].checksum });
        assert(r.deep_view() =~= prev.push(v.deep_view()[i as int]));
        assert(v.deep_view().take(i + 1).drop_last() =~= v.deep_view().take(i as int));
    }
    assert(v.deep_view().take(n as int) =~= v.deep_view());
    r
}

/// Staging a whole list of files, one transition per file.
pub open spec fn stage_all_spec(d: DiskView, entries: Seq<FileEntryView>) -> DiskView
    decreases entries.len(),
{
    if entries.len() == 0 {
        d
    } else {
        stage_file_spec(stage_all_spec(d, entries.drop_last()), entries.last())
    }
}

/// Law: however much has been staged, live directories are untouched, so
/// interrupting (aborting) before commit leaves every live toolchain
/// directory identical to its pre-operation state.
pub proof fn lemma_interrupt_before_commit_preserves_live(d: DiskView, entries: Seq<FileEntryView>)
    ensures
        stage_all_spec(d, entries).live == d.live,
        abort_spec(stage_all_spec(d, entries)).live == d.live,
    decreases entries.len(),
{
    if entries.len() > 0 {
        lemma_interrupt_before_commit_preserves_live(d, entries.drop_last());
    }
}

/// Law: content shared between toolchains occupies storage once. Staging a
/// file whose checksum is already stored adds no new stored content (the
/// file is hard-linked, as `stage_file`'s action says), and every checksum
/// is one element of the content-addressed store however many toolchains
/// hold it.
pub proof fn lemma_shared_content_stored_once(d: DiskView, e: FileEntryView)
    requires
        d.has_object(e.checksum),
        d.staging is Some,
    ensures
        stage_file_spec(d, e).stored_contents() =~= d.stored_contents(),
{
    let d2 = stage_file_spec(d, e);
    assert forall|c: u64| d2.has_object(c) implies d.has_object(c) by {
        if d2.staging_has_object(c) {
            let s = d.staging.unwrap();
            let s2 = d2.staging.unwrap();
            let j = choose|j: int| 0 <= j < s2.files.len() && (#[trigger] s2.files[j]).checksum == c;
            if j < s.files.len() {
                assert(s.files[j].checksum == c);
            } else {
                assert(c == e.checksum);
            }
        }
    }
    assert forall|c: u64| d.has_object(c) implies d2.has_object(c) by {
        if d.live_has_object(c) {
            let (i, j) = choose|i: int, j: int|
                0 <= i < d.live.len() && 0 <= j < (#[trigger] d.live[i]).files.len() && (
                #[trigger] d.live[i].files[j]).checksum == c;
            assert(0 <= i < d2.live.len() && 0 <= j < d2.live[i].files.len() && d2.live[i].files[
                j
            ].checksum == c);
        }
        if d.staging_has_object(c) {
            let s = d.staging.unwrap();
            let j = choose|j: int| 0 <= j < s.files.len() && (#[trigger] s.files[j]).checksum == c;
            assert(d2.staging.unwrap().files[j].checksum == c);
        }
    }
}

} // verus!
