use vstd::prelude::*;

use crate::text::{opt_view, str_eq};

verus! {

/// One context found in a credential bundle.
#[derive(Debug, Clone)]
pub struct DiscoveredContext {
    pub context_name: String,
    pub cluster_name: String,
    pub user_name: String,
    pub namespace: Option<String>,
    pub source_file: String,
}

/// The mathematical value of a [`DiscoveredContext`].
pub ghost struct DiscoveredView {
    pub context_name: Seq<char>,
    pub cluster_name: Seq<char>,
    pub user_name: Seq<char>,
    pub namespace: Option<Seq<char>>,
    pub source_file: Seq<char>,
}

impl View for DiscoveredContext {
    type V = DiscoveredView;

    open spec fn view(&self) -> DiscoveredView {
        DiscoveredView {
            context_name: self.context_name@,
            cluster_name: self.cluster_name@,
            user_name: self.user_name@,
            namespace: opt_view(self.namespace),
            source_file: self.source_file@,
        }
    }
}

/// The context names of a list of discovered contexts.
pub open spec fn context_names(d: Seq<DiscoveredContext>) -> Seq<Seq<char>> {
    d.map_values(|c: DiscoveredContext| c.context_name@)
}

/// Deepest directory level that a folder scan reads; the scanned folder
/// itself is level 0.
pub const MAX_DISCOVERY_DEPTH: usize = 8;

/// One entry of a directory listing, as the filesystem reports it without
/// following symlinks.
#[derive(Debug)]
pub struct DirEntryInfo {
    pub name: String,
    pub path: String,
    pub is_symlink: bool,
    pub is_dir: bool,
    pub is_file: bool,
}

/// A directory that a scan is still to read, and its level.
#[derive(Debug)]
pub struct PendingDir {
    pub path: String,
    pub depth: usize,
}

/// What a scan does with a directory entry.
#[derive(Debug, Clone, Copy, PartialEq, Eq, Structural)]
pub enum EntryAction {
    Skip,
    /// Read it as a directory, one level down.
    Descend,
    /// Try it as a credential bundle.
    Parse,
}

/// A directory the scan leaves out: hidden, or known to hold no credentials.
pub open spec fn skipped_dir_name(name: Seq<char>) -> bool {
    (name.len() > 0 && name[0] == '.') || name == "node_modules"@
}

/// What a scan does with an entry of a directory at level `depth`: symlinks
/// are never followed, skipped directories and directories below the deepest
/// level are not entered, files are parsed.
pub open spec fn entry_action_spec(e: DirEntryInfo, depth: int) -> EntryAction {
    if e.is_symlink {
        EntryAction::Skip
    } else if e.is_dir {
        if skipped_dir_name(e.name@) || depth + 1 > MAX_DISCOVERY_DEPTH {
            EntryAction::Skip
        } else {
            EntryAction::Descend
        }
    } else if e.is_file {
        EntryAction::Parse
    } else {
        EntryAction::Skip
    }
}

/// What to do with an entry of a directory at level `depth`.
pub fn entry_action(e: &DirEntryInfo, depth: usize) -> (r: EntryAction)
    ensures
        r == entry_action_spec(*e, depth as int),
{
    if e.is_symlink {
        return EntryAction::Skip;
    }
    if e.is_dir {
        let n = e.name.as_str();
        let len = n.unicode_len();
        let hidden = len > 0 && n.get_char(0) == '.';
        if hidden || str_eq(n, "node_modules") || depth >= MAX_DISCOVERY_DEPTH {
            return EntryAction::Skip;
        }
        return EntryAction::Descend;
    }
    if e.is_file {
        EntryAction::Parse
    } else {
        EntryAction::Skip
    }
}

/// The paths of the first `n` entries that are to be parsed, in order.
pub open spec fn files_upto(entries: Seq<DirEntryInfo>, depth: int, n: nat) -> Seq<Seq<char>>
    decreases n,
{
    if n == 0 {
        Seq::empty()
    } else {
        let prev = files_upto(entries, depth, (n - 1) as nat);
        if entry_action_spec(entries[n - 1], depth) is Parse {
            prev.push(entries[n - 1].path@)
        } else {
            prev
        }
    }
}

/// The directories among the first `n` entries that are to be read, each
/// one level down, in order.
pub open spec fn dirs_upto(entries: Seq<DirEntryInfo>, depth: int, n: nat) -> Seq<(Seq<char>, int)>
    decreases n,
{
    if n == 0 {
        Seq::empty()
    } else {
        let prev = dirs_upto(entries, depth, (n - 1) as nat);
        if entry_action_spec(entries[n - 1], depth) is Descend {
            prev.push((entries[n - 1].path@, depth + 1))
        } else {
            prev
        }
    }
}

/// One of the first `n` entries, no symlink, is a file at `path`.
pub open spec fn is_file_entry(entries: Seq<DirEntryInfo>, n: int, path: Seq<char>) -> bool {
    exists|j: int|
        0 <= j < n && !entries[j].is_symlink && entries[j].is_file && entries[j].path@ == path
}

/// One of the first `n` entries, no symlink, is a directory at `path`.
pub open spec fn is_dir_entry(entries: Seq<DirEntryInfo>, n: int, path: Seq<char>) -> bool {
    exists|j: int|
        0 <= j < n && !entries[j].is_symlink && entries[j].is_dir && entries[j].path@ == path
}

/// A folder scan never follows a symlink and reads no directory below the
/// deepest level: every file it parses and every directory it enters is an
/// entry that is no symlink, and every directory it enters is at most at
/// the deepest level.
pub proof fn lemma_scan_bounded(entries: Seq<DirEntryInfo>, depth: int, n: nat)
    requires
        n <= entries.len(),
    ensures
        forall|i: int|
            0 <= i < files_upto(entries, depth, n).len() ==> is_file_entry(
                entries,
                n as int,
                #[trigger] files_upto(entries, depth, n)[i],
            ),
        forall|i: int|
            0 <= i < dirs_upto(entries, depth, n).len() ==> #[trigger] dirs_upto(
                entries,
                depth,
                n,
            )[i].1 <= MAX_DISCOVERY_DEPTH && is_dir_entry(
                entries,
                n as int,
                dirs_upto(entries, depth, n)[i].0,
            ),
    decreases n,
{
    if n > 0 {
        let m = (n - 1) as nat;
        lemma_scan_bounded(entries, depth, m);
        let f = files_upto(entries, depth, n);
        let fp = files_upto(entries, depth, m);
        let e = entries[m as int];
        assert forall|i: int| 0 <= i < f.len() implies is_file_entry(
            entries,
            n as int,
            #[trigger] f[i],
        ) by {
            if entry_action_spec(e, depth) is Parse && i == fp.len() {
                assert(f[i] == e.path@);
                assert(!e.is_symlink && e.is_file);
            } else {
                assert(f[i] == fp[i]);
                assert(is_file_entry(entries, m as int, fp[i]));
                let j = choose|j: int|
                    0 <= j < m && !entries[j].is_symlink && entries[j].is_file && entries[j].path@
                        == fp[i];
                assert(0 <= j < n);
            }
        }
        let d = dirs_upto(entries, depth, n);
        let dp = dirs_upto(entries, depth, m);
        assert forall|i: int| 0 <= i < d.len() implies #[trigger] d[i].1 <= MAX_DISCOVERY_DEPTH
            && is_dir_entry(entries, n as int, d[i].0) by {
            if entry_action_spec(e, depth) is Descend && i == dp.len() {
                assert(d[i] == (e.path@, depth + 1));
                assert(!e.is_symlink && e.is_dir);
            } else {
                if entry_action_spec(e, depth) is Descend {
                    assert(d == dp.push((e.path@, depth + 1)));
                } else {
                    assert(d == dp);
                }
                assert(d[i] == dp[i]);
                assert(dp[i].1 <= MAX_DISCOVERY_DEPTH);
                assert(is_dir_entry(entries, m as int, dp[i].0));
                let j = choose|j: int|
                    0 <= j < m && !entries[j].is_symlink && entries[j].is_dir && entries[j].path@
                        == dp[i].0;
                assert(0 <= j < n);
            }
        }
    }
}

/// One of the first `n` entries is a directory at `path` that the scan enters.
pub open spec fn descends_to(entries: Seq<DirEntryInfo>, depth: int, n: int, path: Seq<char>) -> bool {
    exists|j: int|
        0 <= j < n && entries[j].path@ == path && entry_action_spec(entries[j], depth) is Descend
}

/// One of the first `n` entries is a file at `path` that the scan parses.
pub open spec fn parses(entries: Seq<DirEntryInfo>, depth: int, n: int, path: Seq<char>) -> bool {
    exists|j: int|
        0 <= j < n && entries[j].path@ == path && entry_action_spec(entries[j], depth) is Parse
}

proof fn lemma_upto_sources(entries: Seq<DirEntryInfo>, depth: int, n: nat)
    requires
        n <= entries.len(),
    ensures
        forall|i: int|
            0 <= i < dirs_upto(entries, depth, n).len() ==> #[trigger] dirs_upto(
                entries,
                depth,
                n,
            )[i].1 == depth + 1 && descends_to(
                entries,
                depth,
                n as int,
                dirs_upto(entries, depth, n)[i].0,
            ),
        forall|i: int|
            0 <= i < files_upto(entries, depth, n).len() ==> parses(
                entries,
                depth,
                n as int,
                #[trigger] files_upto(entries, depth, n)[i],
            ),
    decreases n,
{
    if n > 0 {
        let m = (n - 1) as nat;
        lemma_upto_sources(entries, depth, m);
        let e = entries[m as int];
        let d = dirs_upto(entries, depth, n);
        let dp = dirs_upto(entries, depth, m);
        assert forall|i: int| 0 <= i < d.len() implies #[trigger] d[i].1 == depth + 1
            && descends_to(entries, depth, n as int, d[i].0) by {
            if entry_action_spec(e, depth) is Descend && i == dp.len() {
                assert(d == dp.push((e.path@, depth + 1)));
                assert(entries[m as int].path@ == d[i].0);
            } else {
                if entry_action_spec(e, depth) is Descend {
                    assert(d == dp.push((e.path@, depth + 1)));
                } else {
                    assert(d == dp);
                }
                assert(d[i] == dp[i]);
                assert(dp[i].1 == depth + 1);
                let j = choose|j: int|
                    0 <= j < m && entries[j].path@ == dp[i].0 && entry_action_spec(
                        entries[j],
                        depth,
                    ) is Descend;
                assert(0 <= j < n);
            }
        }
        let f = files_upto(entries, depth, n);
        let fp = files_upto(entries, depth, m);
        assert forall|i: int| 0 <= i < f.len() implies parses(
            entries,
            depth,
            n as int,
            #[trigger] f[i],
        ) by {
            if entry_action_spec(e, depth) is Parse && i == fp.len() {
                assert(f == fp.push(e.path@));
                assert(entries[m as int].path@ == f[i]);
            } else {
                if entry_action_spec(e, depth) is Parse {
                    assert(f == fp.push(e.path@));
                } else {
                    assert(f == fp);
                }
                assert(f[i] == fp[i]);
                assert(parses(entries, depth, m as int, fp[i]));
                let j = choose|j: int|
                    0 <= j < m && entries[j].path@ == fp[i] && entry_action_spec(entries[j], depth)
                        is Parse;
                assert(0 <= j < n);
            }
        }
    }
}

/// What a directory lists, as the scan is handed it; nothing for a path
/// that is no directory.
pub open spec fn listing(fs: Map<Seq<char>, Seq<DirEntryInfo>>, p: Seq<char>) -> Seq<DirEntryInfo> {
    if fs.contains_key(p) {
        fs[p]
    } else {
        Seq::empty()
    }
}

/// `chain` leads from `root` down to its last directory, each step an
/// entry that the scan enters (no symlink, not skipped, none below the
/// deepest level) of the directory before it.
pub open spec fn is_descent(
    fs: Map<Seq<char>, Seq<DirEntryInfo>>,
    root: Seq<char>,
    chain: Seq<Seq<char>>,
) -> bool {
    &&& chain.len() > 0
    &&& chain[0] == root
    &&& forall|i: int|
        0 <= i < chain.len() - 1 ==> descends_to(
            listing(fs, #[trigger] chain[i]),
            i,
            listing(fs, chain[i]).len() as int,
            chain[i + 1],
        )
}

/// `p` is a directory `d` levels below `root`, reached by a descent.
pub open spec fn reached(
    fs: Map<Seq<char>, Seq<DirEntryInfo>>,
    root: Seq<char>,
    p: Seq<char>,
    d: nat,
) -> bool {
    exists|chain: Seq<Seq<char>>|
        #[trigger] is_descent(fs, root, chain) && chain.len() == d + 1 && chain.last() == p
}

/// The state of a scan: the directories still to read, each with its
/// level, and the files handed out for parsing so far.
pub ghost struct ScanState {
    pub pending: Seq<(Seq<char>, int)>,
    pub parsed: Seq<Seq<char>>,
}

/// One round of a scan over the filesystem `fs`: the last pending
/// directory is read, as `next_dir` and `visit` do.
pub open spec fn scan_step(fs: Map<Seq<char>, Seq<DirEntryInfo>>, s: ScanState) -> ScanState {
    if s.pending.len() == 0 {
        s
    } else {
        let (p, d) = s.pending.last();
        let es = listing(fs, p);
        ScanState {
            pending: s.pending.drop_last() + dirs_upto(es, d, es.len()),
            parsed: s.parsed + files_upto(es, d, es.len()),
        }
    }
}

/// A scan of `root` over `fs` after `n` rounds.
pub open spec fn scan_run(fs: Map<Seq<char>, Seq<DirEntryInfo>>, root: Seq<char>, n: nat) -> ScanState
    decreases n,
{
    if n == 0 {
        ScanState { pending: seq![(root, 0int)], parsed: Seq::empty() }
    } else {
        scan_step(fs, scan_run(fs, root, (n - 1) as nat))
    }
}

/// `f` is a file that the scan parses in a directory it reaches.
pub open spec fn parsed_in_reach(
    fs: Map<Seq<char>, Seq<DirEntryInfo>>,
    root: Seq<char>,
    f: Seq<char>,
) -> bool {
    exists|p: Seq<char>, d: int|
        0 <= d <= MAX_DISCOVERY_DEPTH && #[trigger] reached(fs, root, p, d as nat) && parses(
            listing(fs, p),
            d,
            listing(fs, p).len() as int,
            f,
        )
}

/// A whole folder scan, over any filesystem: every directory it reads is
/// reached from the scanned folder through directories that are no
/// symlinks, and lies at most at the deepest level; every file it parses is
/// a regular file, no symlink, listed in such a directory. So nothing that
/// lies deeper, or is reached only through a symlink, is ever parsed.
pub proof fn lemma_scan_reaches_only(fs: Map<Seq<char>, Seq<DirEntryInfo>>, root: Seq<char>, n: nat)
    ensures
        forall|i: int|
            0 <= i < scan_run(fs, root, n).pending.len() ==> {
                &&& 0 <= #[trigger] scan_run(fs, root, n).pending[i].1 <= MAX_DISCOVERY_DEPTH
                &&& reached(
                    fs,
                    root,
                    scan_run(fs, root, n).pending[i].0,
                    scan_run(fs, root, n).pending[i].1 as nat,
                )
            },
        forall|i: int|
            0 <= i < scan_run(fs, root, n).parsed.len() ==> parsed_in_reach(
                fs,
                root,
                #[trigger] scan_run(fs, root, n).parsed[i],
            ),
    decreases n,
{
    if n == 0 {
        let s = scan_run(fs, root, 0);
        assert(s.pending[0] == (root, 0int));
        assert(is_descent(fs, root, seq![root]));
        assert(reached(fs, root, root, 0));
    } else {
        let m = (n - 1) as nat;
        lemma_scan_reaches_only(fs, root, m);
        let s = scan_run(fs, root, m);
        let t = scan_run(fs, root, n);
        if s.pending.len() > 0 {
            let last = s.pending.len() - 1;
            let (p, d) = s.pending.last();
            assert(s.pending[last] == (p, d));
            assert(0 <= s.pending[last].1 <= MAX_DISCOVERY_DEPTH);
            assert(reached(fs, root, p, d as nat));
            let es = listing(fs, p);
            lemma_upto_sources(es, d, es.len());
            let dirs = dirs_upto(es, d, es.len());
            let files = files_upto(es, d, es.len());
            let init = s.pending.drop_last();
            assert(t.pending == init + dirs);
            assert(t.parsed == s.parsed + files);
            assert forall|i: int| 0 <= i < t.pending.len() implies {
                &&& 0 <= #[trigger] t.pending[i].1 <= MAX_DISCOVERY_DEPTH
                &&& reached(fs, root, t.pending[i].0, t.pending[i].1 as nat)
            } by {
                if i < init.len() {
                    assert(t.pending[i] == s.pending[i]);
                    assert(0 <= s.pending[i].1 <= MAX_DISCOVERY_DEPTH);
                } else {
                    let k = i - init.len();
                    assert(t.pending[i] == dirs[k]);
                    assert(dirs[k].1 == d + 1);
                    assert(descends_to(es, d, es.len() as int, dirs[k].0));
                    let j = choose|j: int|
                        0 <= j < es.len() && es[j].path@ == dirs[k].0 && entry_action_spec(
                            es[j],
                            d,
                        ) is Descend;
                    assert(d + 1 <= MAX_DISCOVERY_DEPTH);
                    let chain = choose|chain: Seq<Seq<char>>|
                        #[trigger] is_descent(fs, root, chain) && chain.len() == d + 1
                            && chain.last() == p;
                    let longer = chain.push(dirs[k].0);
                    assert forall|x: int| 0 <= x < longer.len() - 1 implies descends_to(
                        listing(fs, #[trigger] longer[x]),
                        x,
                        listing(fs, longer[x]).len() as int,
                        longer[x + 1],
                    ) by {
                        assert(longer[x] == chain[x]);
                        if x < chain.len() - 1 {
                            assert(longer[x + 1] == chain[x + 1]);
                        } else {
                            assert(chain[x] == p);
                            assert(x == d);
                        }
                    }
                    assert(is_descent(fs, root, longer));
                    assert(reached(fs, root, dirs[k].0, (d + 1) as nat));
                }
            }
            assert forall|i: int| 0 <= i < t.parsed.len() implies parsed_in_reach(
                fs,
                root,
                #[trigger] t.parsed[i],
            ) by {
                if i < s.parsed.len() {
                    assert(t.parsed[i] == s.parsed[i]);
                } else {
                    let k = i - s.parsed.len();
                    assert(t.parsed[i] == files[k]);
                    assert(parses(es, d, es.len() as int, files[k]));
                    assert(reached(fs, root, p, d as nat));
                }
            }
        } else {
            assert(t == s);
        }
    }
}

/// The pending directories as (path, level) pairs.
pub open spec fn pending_view(p: Seq<PendingDir>) -> Seq<(Seq<char>, int)> {
    p.map_values(|d: PendingDir| (d.path@, d.depth as int))
}

/// A recursive scan of a folder for credential bundles, driven by whoever
/// reads the filesystem: it hands out the directories to read and, for the
/// entries of each, says which to parse.
#[derive(Debug)]
pub struct FolderScan {
    pending: Vec<PendingDir>,
}

impl FolderScan {
    pub closed spec fn pending(&self) -> Seq<(Seq<char>, int)> {
        pending_view(self.pending@)
    }

    /// Every directory still to read is at most at the deepest level.
    pub open spec fn wf(&self) -> bool {
        forall|i: int| 0 <= i < self.pending().len() ==> #[trigger] self.pending()[i].1
            <= MAX_DISCOVERY_DEPTH
    }

    /// A scan of the folder `root`, which is level 0.
    pub fn new(root: String) -> (r: FolderScan)
        ensures
            r.wf(),
            r.pending() == seq![(root@, 0int)],
    {
        let ghost rv = root@;
        let r = FolderScan { pending: vec![PendingDir { path: root, depth: 0 }] };
        assert(r.pending() =~= seq![(rv, 0int)]);
        r
    }

    /// The next directory to read, if any is left.
    pub fn next_dir(&mut self) -> (r: Option<PendingDir>)
        requires
            old(self).wf(),
        ensures
            final(self).wf(),
            old(self).pending().len() == 0 ==> r is None && final(self).pending() == old(
                self,
            ).pending(),
            old(self).pending().len() > 0 ==> (r matches Some(d) && (d.path@, d.depth as int)
                == old(self).pending().last() && d.depth <= MAX_DISCOVERY_DEPTH
                && final(self).pending() == old(self).pending().drop_last()),
    {
        let ghost old_p = self.pending();
        let r = self.pending.pop();
        proof {
            if old_p.len() > 0 {
                assert(old_p[old_p.len() - 1].1 <= MAX_DISCOVERY_DEPTH);
                assert(self.pending() =~= old_p.drop_last());
                assert(old_p[old_p.len() - 1] == old_p.last());
            }
        }
        r
    }

    /// Takes the entries of a directory at level `depth` that was handed
    /// out: directories to enter join the scan one level down, and the
    /// paths of the files to parse are returned.
    pub fn visit(&mut self, depth: usize, entries: &Vec<DirEntryInfo>) -> (r: Vec<String>)
        requires
            old(self).wf(),
            depth <= MAX_DISCOVERY_DEPTH,
        ensures
            final(self).wf(),
            r@.map_values(|s: String| s@) == files_upto(entries@, depth as int, entries.len() as nat),
            final(self).pending() == old(self).pending() + dirs_upto(
                entries@,
                depth as int,
                entries.len() as nat,
            ),
    {
        let ghost start = self.pending();
        let mut files: Vec<String> = Vec::new();
        let mut k: usize = 0;
        while k < entries.len()
            invariant
                0 <= k <= entries.len(),
                depth <= MAX_DISCOVERY_DEPTH,
                files@.map_values(|s: String| s@) == files_upto(entries@, depth as int, k as nat),
                self.pending() == start + dirs_upto(entries@, depth as int, k as nat),
                forall|i: int| 0 <= i < start.len() ==> #[trigger] start[i].1 <= MAX_DISCOVERY_DEPTH,
            decreases entries.len() - k,
        {
            let e = &entries[k];
            let ghost prev_files = files@;
            let ghost prev_pending = self.pending();
            match entry_action(e, depth) {
                EntryAction::Parse => {
                    files.push(e.path.clone());
                    proof {
                        let a = files@.map_values(|s: String| s@);
                        let b = files_upto(entries@, depth as int, (k + 1) as nat);
                        assert forall|i: int| 0 <= i < a.len() implies a[i] == b[i] by {
                            if i < prev_files.len() {
                                assert(files@[i] == prev_files[i]);
                            }
                        }
                        assert(a =~= b);
                    }
                },
                EntryAction::Descend => {
                    self.pending.push(PendingDir { path: e.path.clone(), depth: depth + 1 });
                    proof {
                        assert(self.pending() =~= prev_pending.push((e.path@, depth + 1)));
                        assert(self.pending() =~= start + dirs_upto(
                            entries@,
                            depth as int,
                            (k + 1) as nat,
                        ));
                    }
                },
                EntryAction::Skip => {},
            }
            k += 1;
        }
        proof {
            lemma_scan_bounded(entries@, depth as int, entries.len() as nat);
            let d = dirs_upto(entries@, depth as int, entries.len() as nat);
            assert forall|i: int| 0 <= i < self.pending().len() implies #[trigger] self.pending()[i].1
                <= MAX_DISCOVERY_DEPTH by {
                if i >= start.len() {
                    assert(self.pending()[i] == d[i - start.len()]);
                }
            }
        }
        files
    }
}

} // verus!
