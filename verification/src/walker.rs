//! The lazy directory enumerator: two work stacks (pending files, pending
//! directories), pull-based traversal, optional rebasing of each path onto
//! its first subdirectory, and a byte-stream view with carry-over
//! buffering. Scanning a directory is the caller's outside work: the state
//! machine hands out the directory to scan and takes the results back.
use crate::text;
use vstd::prelude::*;
use vstd::seq_lib::*;
use vstd::string::StringSliceAdditionalSpecFns;
use vstd::utf8::encode_utf8;

verus! {

/// One pull from the traversal: a file path, a directory that must be
/// scanned before the traversal can go on, or exhaustion.
pub enum WalkStep {
    File(String),
    ScanNeeded(String),
    Done,
}

/// One read from the byte-stream view of the traversal.
pub enum StreamStep {
    Bytes(Vec<u8>),
    ScanNeeded(String),
    Eof,
}

/// An object that yields paths to all files under a root, depth-first.
pub struct DirWalker {
    /// The currently known files, not yet returned.
    pub current_files: Vec<String>,
    /// The directories that still have to be scanned.
    pub current_directories: Vec<String>,
    /// The bytes of a path that was only partially read out.
    pub unfinished_read: Vec<u8>,
    /// Whether the first directory is stripped from each returned path.
    pub subdir_mode: bool,
}

/// A path framed for the byte stream: its UTF-8 bytes and a newline.
pub open spec fn frame_of(p: Seq<char>) -> Seq<u8> {
    encode_utf8(p) + seq![10u8]
}

/// The position of the first separator at or after `i`, or the length if
/// there is none.
pub open spec fn first_slash_from(p: Seq<char>, i: int) -> int
    decreases p.len() - i,
{
    if i < 0 || i >= p.len() {
        p.len() as int
    } else if p[i] == '/' {
        i
    } else {
        first_slash_from(p, i + 1)
    }
}

proof fn lemma_first_slash_from(p: Seq<char>, k: int, i: int)
    requires
        0 <= k <= i <= p.len(),
        forall|j: int| k <= j < i ==> p[j] != '/',
        i == p.len() || p[i] == '/',
    ensures
        first_slash_from(p, k) == i,
    decreases i - k,
{
    if k < i {
        lemma_first_slash_from(p, k + 1, i);
    }
}

impl DirWalker {
    /// Whether a path can be rebased: a two-character lead, and a
    /// separator somewhere after it.
    pub open spec fn rebasable(p: Seq<char>) -> bool {
        &&& p.len() >= 2
        &&& exists|i: int| 2 <= i < p.len() && #[trigger] p[i] == '/'
    }

    /// A rebased path: a dot, then everything from the first separator
    /// after the two-character lead.
    pub open spec fn spec_rebase(p: Seq<char>) -> Seq<char> {
        "."@ + p.skip(first_slash_from(p, 2))
    }

    pub open spec fn files(&self) -> Seq<Seq<char>> {
        self.current_files.deep_view()
    }

    pub open spec fn dirs(&self) -> Seq<Seq<char>> {
        self.current_directories.deep_view()
    }

    pub open spec fn carry(&self) -> Seq<u8> {
        self.unfinished_read@
    }

    /// In rebasing mode every pending file can be rebased; outside it
    /// nothing is demanded.
    pub open spec fn paths_ok(&self) -> bool {
        self.subdir_mode ==> forall|i: int| 0 <= i < self.files().len()
            ==> Self::rebasable(#[trigger] self.files()[i])
    }

    /// Every pending path lies under `root`.
    pub open spec fn rooted(&self, root: Seq<char>) -> bool {
        &&& forall|i: int| 0 <= i < self.files().len() ==> root.is_prefix_of(
            #[trigger] self.files()[i],
        )
        &&& forall|i: int| 0 <= i < self.dirs().len() ==> root.is_prefix_of(
            #[trigger] self.dirs()[i],
        )
    }

    /// Creates a traversal that will start by scanning `start_directory`.
    pub fn new(start_directory: &String, subdir_mode: bool) -> (w: DirWalker)
        ensures
            w.files() == Seq::<Seq<char>>::empty(),
            w.dirs() == seq![start_directory@],
            w.carry() == Seq::<u8>::empty(),
            w.subdir_mode == subdir_mode,
            w.paths_ok(),
            w.rooted(start_directory@),
    {
        let mut dirs: Vec<String> = Vec::new();
        dirs.push(start_directory.clone());
        let w = DirWalker {
            current_files: Vec::new(),
            current_directories: dirs,
            unfinished_read: Vec::new(),
            subdir_mode,
        };
        proof {
            assert(w.files() =~= Seq::<Seq<char>>::empty());
            assert(w.dirs() =~= seq![start_directory@]);
            assert(start_directory@.is_prefix_of(w.dirs()[0]));
        }
        w
    }

    /// The position of the first directory separator in a path.
    pub fn find_dir_seperator_position(path_string: &str) -> (r: usize)
        requires
            exists|i: int| 0 <= i < path_string@.len() && #[trigger] path_string@[i] == '/',
        ensures
            r < path_string@.len(),
            path_string@[r as int] == '/',
            forall|j: int| 0 <= j < r ==> path_string@[j] != '/',
    {
        match text::find_char_from(path_string, 0, '/') {
            Some(i) => i,
            None => {
                proof {
                    assert(false);
                }
                0
            },
        }
    }

    /// Rewrites a pending path relative to its first subdirectory.
    fn rebase(path: &String) -> (r: String)
        requires
            Self::rebasable(path@),
        ensures
            r@ == Self::spec_rebase(path@),
    {
        let n = path.as_str().unicode_len();
        proof {
            let witness = choose|i: int| 2 <= i < path@.len() && #[trigger] path@[i] == '/';
            assert(path@[witness] == '/');
            assert(n >= 3);
        }
        let pos = match text::find_char_from(path.as_str(), 2, '/') {
            Some(i) => i,
            None => {
                proof {
                    assert(false);
                }
                0
            },
        };
        proof {
            lemma_first_slash_from(path@, 2, pos as int);
        }
        let tail = path.as_str().substring_char(pos, n);
        let r = String::from_str(".").concat(tail);
        proof {
            assert(path@.skip(pos as int) =~= path@.subrange(pos as int, n as int));
            assert(r@ == Self::spec_rebase(path@));
        }
        r
    }

    /// One pull: a pending file is returned (rebased when so configured);
    /// otherwise a pending directory is handed out for scanning; otherwise
    /// the traversal is exhausted. A returned file leaves the state, so no
    /// file is returned twice; every step but `Done` shrinks the pending
    /// work by one.
    pub fn next_step(&mut self) -> (r: WalkStep)
        requires
            old(self).paths_ok(),
        ensures
            final(self).subdir_mode == old(self).subdir_mode,
            final(self).carry() == old(self).carry(),
            final(self).paths_ok(),
            old(self).files().len() > 0 ==> final(self).files() == old(self).files().drop_last()
                && final(self).dirs() == old(self).dirs() && (r matches WalkStep::File(p)
                && p@ == (if old(self).subdir_mode {
                    Self::spec_rebase(old(self).files().last())
                } else {
                    old(self).files().last()
})),
            old(self).files().len() == 0 && old(self).dirs().len() > 0 ==> final(self).files()
                == old(self).files() && final(self).dirs() == old(self).dirs().drop_last() && (
            r matches WalkStep::ScanNeeded(d) && d@ == old(self).dirs().last()),
            old(self).files().len() == 0 && old(self).dirs().len() == 0 ==> r is Done
                && final(self).files() == old(self).files() && final(self).dirs() == old(self).dirs(),
            !(r is Done) ==> final(self).files().len() + final(self).dirs().len() + 1 == old(self).files().len() + old(self).dirs().len(),
    {
        if self.current_files.len() > 0 {
            let filepath = match self.current_files.pop() {
                Some(p) => p,
                None => {
                    proof {
                        assert(false);
                    }
                    String::new()
                },
            };
            proof {
                assert(self.files() =~= old(self).files().drop_last());
                assert(filepath@ == old(self).files().last());
            }
            if self.subdir_mode {
                let rebased = Self::rebase(&filepath);
                return WalkStep::File(rebased);
            }
            return WalkStep::File(filepath);
        }
        if self.current_directories.len() > 0 {
            let dirpath = match self.current_directories.pop() {
                Some(d) => d,
                None => {
                    proof {
                        assert(false);
                    }
                    String::new()
                },
            };
            proof {
                assert(self.dirs() =~= old(self).dirs().drop_last());
                assert(dirpath@ == old(self).dirs().last());
            }
            return WalkStep::ScanNeeded(dirpath);
        }
        WalkStep::Done
    }

    /// Takes the results of scanning a handed-out directory back into the
    /// two work stacks.
    pub fn add_scan_results(&mut self, files: Vec<String>, dirs: Vec<String>)
        requires
            old(self).paths_ok(),
            old(self).subdir_mode ==> forall|i: int| 0 <= i < files.deep_view().len()
                ==> Self::rebasable(#[trigger] files.deep_view()[i]),
        ensures
            final(self).files() == old(self).files() + files.deep_view(),
            final(self).dirs() == old(self).dirs() + dirs.deep_view(),
            final(self).carry() == old(self).carry(),
            final(self).subdir_mode == old(self).subdir_mode,
            final(self).paths_ok(),
    {
        let ghost files_snap = files.deep_view();
        let ghost dirs_snap = dirs.deep_view();
        let mut files = files;
        let mut dirs = dirs;
        self.current_files.append(&mut files);
        self.current_directories.append(&mut dirs);
        proof {
            assert(self.files() =~= old(self).files() + files_snap);
            assert(self.dirs() =~= old(self).dirs() + dirs_snap);
        }
    }
}

/// The first `k` bytes of `v`.
fn vec_take(v: &Vec<u8>, k: usize) -> (r: Vec<u8>)
    requires
        k <= v.len(),
    ensures
        r@ == v@.take(k as int),
{
    let mut r: Vec<u8> = Vec::new();
    proof {
        assert(r@ =~= v@.take(0));
    }
    let mut i: usize = 0;
    while i < k
        invariant
            i <= k,
            k <= v.len(),
            r@ == v@.take(i as int),
        decreases k - i,
    {
        r.push(v[i]);
        proof {
            assert(v@.take(i + 1) =~= v@.take(i as int).push(v@[i as int]));
        }
        i = i + 1;
    }
    r
}

/// The bytes of `v` from position `k` on.
fn vec_skip(v: &Vec<u8>, k: usize) -> (r: Vec<u8>)
    requires
        k <= v.len(),
    ensures
        r@ == v@.skip(k as int),
{
    let mut r: Vec<u8> = Vec::new();
    proof {
        assert(r@ =~= v@.subrange(k as int, k as int));
    }
    let mut i: usize = k;
    while i < v.len()
        invariant
            k <= i <= v.len(),
            r@ == v@.subrange(k as int, i as int),
        decreases v.len() - i,
    {
        r.push(v[i]);
        proof {
            assert(v@.subrange(k as int, i + 1) =~= v@.subrange(k as int, i as int).push(
                v@[i as int],
            ));
        }
        i = i + 1;
    }
    proof {
        assert(v@.subrange(k as int, v@.len() as int) =~= v@.skip(k as int));
    }
    r
}

impl DirWalker {
    /// One read of at most `max` bytes from the stream of
    /// newline-terminated paths. A partially read path is carried over and
    /// handed out first on the next read, before the traversal advances;
    /// a pending directory is handed out for scanning as in `next_step`.
    pub fn stream_step(&mut self, max: usize) -> (r: StreamStep)
        requires
            old(self).paths_ok(),
        ensures
            final(self).subdir_mode == old(self).subdir_mode,
            final(self).paths_ok(),
            old(self).carry().len() > 0 ==> ({
                let k = if max < old(self).carry().len() {
                    max as int
                } else {
                    old(self).carry().len() as int
                };
                &&& r matches StreamStep::Bytes(b) && b@ == old(self).carry().take(k)
                &&& final(self).carry() == old(self).carry().skip(k)
                &&& final(self).files() == old(self).files()
                &&& final(self).dirs() == old(self).dirs()
            }),
            old(self).carry().len() == 0 && old(self).files().len() > 0 ==> ({
                let p = if old(self).subdir_mode {
                    Self::spec_rebase(old(self).files().last())
                } else {
                    old(self).files().last()
                };
                let line = frame_of(p);
                let k = if max < line.len() {
                    max as int
                } else {
                    line.len() as int
                };
                &&& r matches StreamStep::Bytes(b) && b@ == line.take(k)
                &&& final(self).carry() == line.skip(k)
                &&& final(self).files() == old(self).files().drop_last()
                &&& final(self).dirs() == old(self).dirs()
            }),
            old(self).carry().len() == 0 && old(self).files().len() == 0 && old(self).dirs().len() > 0 ==> (r matches StreamStep::ScanNeeded(d) && d@ == old(self).dirs().last() && final(self).dirs() == old(self).dirs().drop_last() && final(self).files() == old(self).files() && final(self).carry() == old(self).carry()),
            old(self).carry().len() == 0 && old(self).files().len() == 0 && old(self).dirs().len() == 0 ==> (r is Eof && final(self).files() == old(self).files()
                && final(self).dirs() == old(self).dirs() && final(self).carry() == old(self).carry()),
    {
        if self.unfinished_read.len() > 0 {
            let k = if max < self.unfinished_read.len() {
                max
            } else {
                self.unfinished_read.len()
            };
            let out = vec_take(&self.unfinished_read, k);
            let rest = vec_skip(&self.unfinished_read, k);
            self.unfinished_read = rest;
            return StreamStep::Bytes(out);
        }
        let step = self.next_step();
        match step {
            WalkStep::File(p) => {
                let p_str = p.as_str();
                let mut line = p_str.as_bytes_vec();
                proof {
                    assert(line@ == encode_utf8(p@));
                }
                line.push(10u8);
                proof {
                    assert(line@ =~= frame_of(p@));
                }
                let k = if max < line.len() {
                    max
                } else {
                    line.len()
                };
                let out = vec_take(&line, k);
                let rest = vec_skip(&line, k);
                self.unfinished_read = rest;
                StreamStep::Bytes(out)
            },
            WalkStep::ScanNeeded(d) => StreamStep::ScanNeeded(d),
            WalkStep::Done => StreamStep::Eof,
        }
    }
}

/// A pull only removes pending work, so every root that held all pending
/// paths before a `next_step` or `stream_step` still holds them after it.
/// With `new` establishing `rooted` for its start directory and
/// `lemma_rooted_after_scan` carrying it through scan results, every state
/// a traversal reaches from `new(root)` on scans that stay under `root` is
/// rooted.
pub proof fn lemma_rooted_after_pull(before: DirWalker, after: DirWalker, root: Seq<char>)
    requires
        before.rooted(root),
        after.files() == before.files() || (before.files().len() > 0 && after.files()
            == before.files().drop_last()),
        after.dirs() == before.dirs() || (before.dirs().len() > 0 && after.dirs()
            == before.dirs().drop_last()),
    ensures
        after.rooted(root),
{
    assert forall|i: int| 0 <= i < after.files().len() implies root.is_prefix_of(
        #[trigger] after.files()[i],
    ) by {
        if after.files() == before.files() {
            assert(after.files()[i] == before.files()[i]);
        } else {
            assert(after.files()[i] == before.files().subrange(
                0,
                before.files().len() - 1,
            )[i]);
            assert(after.files()[i] == before.files()[i]);
        }
    }
    assert forall|i: int| 0 <= i < after.dirs().len() implies root.is_prefix_of(
        #[trigger] after.dirs()[i],
    ) by {
        if after.dirs() == before.dirs() {
            assert(after.dirs()[i] == before.dirs()[i]);
        } else {
            assert(after.dirs()[i] == before.dirs().subrange(0, before.dirs().len() - 1)[i]);
            assert(after.dirs()[i] == before.dirs()[i]);
        }
    }
}

/// In plain (non-rebasing) mode, the file that the next pull returns lies
/// under any root that all pending paths lie under: the traversal never
/// escapes its root.
pub proof fn lemma_next_file_stays_under_root(w: DirWalker, root: Seq<char>)
    requires
        w.rooted(root),
        w.files().len() > 0,
    ensures
        root.is_prefix_of(w.files().last()),
{
    assert(root.is_prefix_of(w.files()[w.files().len() - 1]));
}

/// Taking scan results whose paths all lie under the root keeps every
/// pending path under the root.
pub proof fn lemma_rooted_after_scan(
    before: DirWalker,
    after: DirWalker,
    files: Seq<Seq<char>>,
    dirs: Seq<Seq<char>>,
    root: Seq<char>,
)
    requires
        before.rooted(root),
        after.files() == before.files() + files,
        after.dirs() == before.dirs() + dirs,
        forall|i: int| 0 <= i < files.len() ==> root.is_prefix_of(#[trigger] files[i]),
        forall|i: int| 0 <= i < dirs.len() ==> root.is_prefix_of(#[trigger] dirs[i]),
    ensures
        after.rooted(root),
{
    assert forall|i: int| 0 <= i < after.files().len() implies root.is_prefix_of(
        #[trigger] after.files()[i],
    ) by {
        if i < before.files().len() {
            assert(after.files()[i] == before.files()[i]);
        } else {
            assert(after.files()[i] == files[i - before.files().len()]);
        }
    }
    assert forall|i: int| 0 <= i < after.dirs().len() implies root.is_prefix_of(
        #[trigger] after.dirs()[i],
    ) by {
        if i < before.dirs().len() {
            assert(after.dirs()[i] == before.dirs()[i]);
        } else {
            assert(after.dirs()[i] == dirs[i - before.dirs().len()]);
        }
    }
}

} // verus!
