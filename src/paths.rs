use vstd::prelude::*;

use crate::text::owned;

verus! {

/// Name of the application directory under the home directory.
pub const APP_DIR_NAME: &'static str = ".rustylens";

/// Name of the vault directory under the application directory.
pub const VAULT_DIR_NAME: &'static str = "kubeconfigs";

/// Why a vault path or an import source was refused.
#[derive(Debug, Clone, PartialEq, Eq)]
pub enum VaultError {
    /// The path resolves outside the vault root (which it names).
    PathTraversal(String),
    /// A path that should be canonical is not absolute or holds an empty,
    /// `.` or `..` component.
    NotCanonical(String),
    /// A file name that is empty, `.`, `..` or holds a separator.
    InvalidFileName(String),
    /// The import source does not exist.
    SourceMissing,
    /// The import source is not a regular file.
    SourceNotAFile,
    /// The import source could not be resolved, for the given reason.
    SourceUnresolved(String),
    /// The import source could not be read, for the given reason.
    SourceUnreadable(String),
    /// Restricting permissions failed for a reason other than a denial.
    PermissionHardening(String),
}

impl VaultError {
    /// A message for the user.
    pub fn message(&self) -> (r: String)
        ensures
            r@ == match self {
                VaultError::PathTraversal(root) => "Path traversal detected: path must be within "@
                    + root@,
                VaultError::NotCanonical(p) => "Invalid path: "@ + p@,
                VaultError::InvalidFileName(n) => "Path has no valid filename: "@ + n@,
                VaultError::SourceMissing => "Source file does not exist"@,
                VaultError::SourceNotAFile => "Source path is not a file"@,
                VaultError::SourceUnresolved(e) => "Failed to resolve path: "@ + e@,
                VaultError::SourceUnreadable(e) => "Cannot read file: "@ + e@,
                VaultError::PermissionHardening(e) => "Failed to set secure permissions: "@ + e@,
            },
    {
        match self {
            VaultError::PathTraversal(root) => {
                let mut m = owned("Path traversal detected: path must be within ");
                m.append(root.as_str());
                m
            },
            VaultError::NotCanonical(p) => {
                let mut m = owned("Invalid path: ");
                m.append(p.as_str());
                m
            },
            VaultError::InvalidFileName(n) => {
                let mut m = owned("Path has no valid filename: ");
                m.append(n.as_str());
                m
            },
            VaultError::SourceMissing => owned("Source file does not exist"),
            VaultError::SourceNotAFile => owned("Source path is not a file"),
            VaultError::SourceUnresolved(e) => {
                let mut m = owned("Failed to resolve path: ");
                m.append(e.as_str());
                m
            },
            VaultError::SourceUnreadable(e) => {
                let mut m = owned("Cannot read file: ");
                m.append(e.as_str());
                m
            },
            VaultError::PermissionHardening(e) => {
                let mut m = owned("Failed to set secure permissions: ");
                m.append(e.as_str());
                m
            },
        }
    }
}

/// The component of `p` that starts at `i` is `.`.
pub open spec fn dot_at(p: Seq<char>, i: int) -> bool {
    p[i] == '.' && (i + 1 == p.len() || p[i + 1] == '/')
}

/// The component of `p` that starts at `i` is `..`.
pub open spec fn dot_dot_at(p: Seq<char>, i: int) -> bool {
    i + 1 < p.len() && p[i] == '.' && p[i + 1] == '.' && (i + 2 == p.len() || p[i + 2] == '/')
}

/// An absolute path with no empty, `.` or `..` component and no trailing
/// separator: the form that resolving symlinks and `..` yields.
pub open spec fn is_canonical(p: Seq<char>) -> bool {
    &&& p.len() > 0
    &&& p[0] == '/'
    &&& p.len() > 1 ==> p.last() != '/'
    &&& forall|i: int|
        0 <= i < p.len() - 1 && #[trigger] p[i] == '/' ==> p[i + 1] != '/' && !dot_at(p, i + 1)
            && !dot_dot_at(p, i + 1)
}

/// A single path component: non-empty, not `.` or `..`, without a separator.
pub open spec fn is_plain_name(n: Seq<char>) -> bool {
    &&& n.len() > 0
    &&& n != seq!['.']
    &&& n != seq!['.', '.']
    &&& forall|i: int| 0 <= i < n.len() ==> n[i] != '/'
}

/// `name` placed under the directory `dir`.
pub open spec fn join_spec(dir: Seq<char>, name: Seq<char>) -> Seq<char> {
    if dir.len() > 0 && dir.last() == '/' {
        dir + name
    } else {
        dir + seq!['/'] + name
    }
}

/// `p` lies strictly inside `root`: `root` is a proper prefix of `p` by
/// whole components.
pub open spec fn strictly_inside(root: Seq<char>, p: Seq<char>) -> bool {
    &&& root.len() < p.len()
    &&& root.is_prefix_of(p)
    &&& (root.len() > 0 && root.last() == '/') || p[root.len() as int] == '/'
    &&& p.last() != '/'
}

/// Whether `p` is canonical.
pub fn check_canonical(p: &str) -> (r: bool)
    ensures
        r == is_canonical(p@),
{
    let n = p.unicode_len();
    if n == 0 || p.get_char(0) != '/' {
        return false;
    }
    if n > 1 && p.get_char(n - 1) == '/' {
        return false;
    }
    let mut i: usize = 0;
    while i + 1 < n
        invariant
            n == p@.len(),
            n > 0,
            p@[0] == '/',
            n > 1 ==> p@.last() != '/',
            0 <= i < n,
            forall|j: int|
                0 <= j < i && #[trigger] p@[j] == '/' ==> p@[j + 1] != '/' && !dot_at(p@, j + 1)
                    && !dot_dot_at(p@, j + 1),
        decreases n - i,
    {
        if p.get_char(i) == '/' {
            let c1 = p.get_char(i + 1);
            if c1 == '/' {
                return false;
            }
            if c1 == '.' {
                if i + 2 == n {
                    return false;
                }
                let c2 = p.get_char(i + 2);
                if c2 == '/' {
                    return false;
                }
                if c2 == '.' && (i + 3 == n || p.get_char(i + 3) == '/') {
                    return false;
                }
            }
        }
        i += 1;
    }
    true
}

/// Whether `n` is a single plain path component.
pub fn check_plain_name(n: &str) -> (r: bool)
    ensures
        r == is_plain_name(n@),
{
    let len = n.unicode_len();
    if len == 0 {
        return false;
    }
    if len == 1 && n.get_char(0) == '.' {
        assert(n@ =~= seq!['.']);
        return false;
    }
    if len == 2 && n.get_char(0) == '.' && n.get_char(1) == '.' {
        assert(n@ =~= seq!['.', '.']);
        return false;
    }
    let mut i: usize = 0;
    while i < len
        invariant
            len == n@.len(),
            0 <= i <= len,
            forall|j: int| 0 <= j < i ==> n@[j] != '/',
        decreases len - i,
    {
        if n.get_char(i) == '/' {
            return false;
        }
        i += 1;
    }
    assert(n@ != seq!['.']) by {
        if len == 1 {
            assert(n@[0] != '.');
        }
    }
    assert(n@ != seq!['.', '.']) by {
        if len == 2 {
            assert(n@[0] != '.' || n@[1] != '.');
        }
    }
    true
}

/// `name` placed under the directory `dir`.
pub fn join(dir: &str, name: &str) -> (r: String)
    ensures
        r@ == join_spec(dir@, name@),
{
    let mut r = owned(dir);
    let n = dir.unicode_len();
    if !(n > 0 && dir.get_char(n - 1) == '/') {
        r.append("/");
        proof {
            reveal_strlit("/");
        }
    }
    r.append(name);
    r
}

/// Whether `p` lies strictly inside `root`.
pub fn is_strictly_inside(root: &str, p: &str) -> (r: bool)
    ensures
        r == strictly_inside(root@, p@),
{
    let rn = root.unicode_len();
    let pn = p.unicode_len();
    if rn >= pn {
        return false;
    }
    let mut i: usize = 0;
    while i < rn
        invariant
            rn == root@.len(),
            pn == p@.len(),
            rn < pn,
            0 <= i <= rn,
            forall|j: int| 0 <= j < i ==> root@[j] == p@[j],
        decreases rn - i,
    {
        if root.get_char(i) != p.get_char(i) {
            return false;
        }
        i += 1;
    }
    let root_ends_in_separator = rn > 0 && root.get_char(rn - 1) == '/';
    if !root_ends_in_separator && p.get_char(rn) != '/' {
        return false;
    }
    p.get_char(pn - 1) != '/'
}

/// The application directory under the given home directory.
pub fn app_config_dir_in(home: &str) -> (r: String)
    ensures
        r@ == join_spec(home@, APP_DIR_NAME@),
{
    join(home, APP_DIR_NAME)
}

/// The vault directory under the given application directory.
pub fn kubeconfigs_dir_in(app_dir: &str) -> (r: String)
    ensures
        r@ == join_spec(app_dir@, VAULT_DIR_NAME@),
{
    join(app_dir, VAULT_DIR_NAME)
}

/// Relies on dirs::home_dir: the user's home directory, if one can be
/// found; it depends on the environment.
#[verifier::external_body]
fn home_dir() -> (r: Option<String>) {
    dirs::home_dir().map(|p| p.to_string_lossy().to_string())
}

/// The application directory, `None` when no home directory can be found.
pub fn get_app_config_dir() -> (r: Option<String>)
    ensures
        r matches Some(d) ==> exists|home: Seq<char>| d@ == join_spec(home, APP_DIR_NAME@),
{
    match home_dir() {
        Some(home) => Some(app_config_dir_in(home.as_str())),
        None => None,
    }
}

/// The vault directory, `None` when no home directory can be found.
pub fn get_kubeconfigs_dir() -> (r: Option<String>)
    ensures
        r matches Some(d) ==> exists|home: Seq<char>|
            d@ == join_spec(join_spec(home, APP_DIR_NAME@), VAULT_DIR_NAME@),
{
    match get_app_config_dir() {
        Some(app) => Some(kubeconfigs_dir_in(app.as_str())),
        None => None,
    }
}

/// A plain name placed under a canonical directory gives a canonical path
/// strictly inside it.
pub proof fn lemma_join_plain(dir: Seq<char>, name: Seq<char>)
    requires
        is_canonical(dir),
        is_plain_name(name),
    ensures
        is_canonical(join_spec(dir, name)),
        strictly_inside(dir, join_spec(dir, name)),
{
    let p = join_spec(dir, name);
    let sep = if dir.len() > 0 && dir.last() == '/' { dir.len() - 1 } else { dir.len() as int };
    if dir.len() > 0 && dir.last() == '/' {
        assert(dir.len() == 1);
        assert(p =~= dir + name);
    } else {
        assert(p =~= dir + seq!['/'] + name);
    }
    assert(p[sep] == '/');
    assert forall|i: int| sep < i < p.len() implies p[i] == name[i - sep - 1] && p[i] != '/' by {}
    assert(p.last() != '/') by {
        assert(p.last() == name[name.len() - 1]);
    }
    assert forall|i: int| 0 <= i < p.len() - 1 && #[trigger] p[i] == '/' implies p[i + 1] != '/'
        && !dot_at(p, i + 1) && !dot_dot_at(p, i + 1) by {
        if i < sep {
            assert(p[i] == dir[i]);
            assert(p[i + 1] == dir[i + 1]);
            if i + 2 < dir.len() {
                assert(p[i + 2] == dir[i + 2]);
            }
            if i + 3 < dir.len() {
                assert(p[i + 3] == dir[i + 3]);
            }
            if i + 2 == dir.len() {
                assert(p[i + 2] == '/');
            }
            if i + 3 == dir.len() {
                assert(p[i + 3] == '/');
            }
        } else {
            assert(i == sep);
            assert(p[i + 1] == name[0]);
            if name.len() == 1 {
                assert(name =~= seq![name[0]]);
            } else {
                assert(p[i + 2] == name[1]);
                if name.len() == 2 {
                    assert(name =~= seq![name[0], name[1]]);
                } else {
                    assert(p[i + 3] == name[2]);
                }
            }
        }
    }
}

/// The isolated credential file of a cluster: `<dir>/<id>.yaml`.
pub open spec fn credential_file_spec(dir: Seq<char>, cluster_id: Seq<char>) -> Seq<char> {
    join_spec(dir, cluster_id + seq!['.', 'y', 'a', 'm', 'l'])
}

/// The isolated credential file of a cluster in the vault directory.
pub fn credential_file_path(dir: &str, cluster_id: &str) -> (r: String)
    ensures
        r@ == credential_file_spec(dir@, cluster_id@),
{
    let mut name = owned(cluster_id);
    name.append(".yaml");
    proof {
        reveal_strlit(".yaml");
    }
    join(dir, name.as_str())
}

/// How the filesystem resolved a candidate path.
#[derive(Debug)]
pub enum ResolvedPath {
    /// The path exists; its canonical form.
    Existing(String),
    /// The path does not exist yet: the canonical form of its parent
    /// directory, and its file name.
    Created { parent: String, file_name: String },
}

/// The canonical form that a resolution stands for, if it is well formed.
pub open spec fn resolved_spec(c: ResolvedPath) -> Option<Seq<char>> {
    match c {
        ResolvedPath::Existing(p) => Some(p@),
        ResolvedPath::Created { parent, file_name } => if is_plain_name(file_name@) {
            Some(join_spec(parent@, file_name@))
        } else {
            None
        },
    }
}

/// Admits a candidate path into the vault: accepted iff its canonical form
/// lies strictly inside the canonical vault root. Returns that canonical form.
pub fn validate_kubeconfig_path(allowed_dir: &str, candidate: &ResolvedPath) -> (r: Result<
    String,
    VaultError,
>)
    ensures
        r is Ok <==> (resolved_spec(*candidate) matches Some(p) && is_canonical(allowed_dir@)
            && is_canonical(p) && strictly_inside(allowed_dir@, p)),
        r matches Ok(p) ==> resolved_spec(*candidate) == Some(p@),
        r matches Err(VaultError::PathTraversal(_)) ==> (resolved_spec(*candidate) matches Some(
            p,
        ) && !strictly_inside(allowed_dir@, p)),
        (resolved_spec(*candidate) matches Some(p) && is_canonical(allowed_dir@) && is_canonical(p)
            && !strictly_inside(allowed_dir@, p)) ==> r matches Err(VaultError::PathTraversal(_)),
{
    let canonical = match candidate {
        ResolvedPath::Existing(p) => p.clone(),
        ResolvedPath::Created { parent, file_name } => {
            if !check_plain_name(file_name.as_str()) {
                return Err(VaultError::InvalidFileName(file_name.clone()));
            }
            join(parent.as_str(), file_name.as_str())
        },
    };
    if !check_canonical(allowed_dir) {
        return Err(VaultError::NotCanonical(owned(allowed_dir)));
    }
    if !check_canonical(canonical.as_str()) {
        return Err(VaultError::NotCanonical(canonical));
    }
    if !is_strictly_inside(allowed_dir, canonical.as_str()) {
        return Err(VaultError::PathTraversal(owned(allowed_dir)));
    }
    Ok(canonical)
}

/// What the filesystem reported of an import source.
#[derive(Debug)]
pub struct SourceProbe {
    pub exists: bool,
    pub is_file: bool,
    /// Its canonical form, or why it could not be resolved.
    pub canonical: Result<String, String>,
    /// Why its metadata could not be read, if it could not.
    pub unreadable: Option<String>,
}

/// Admits an import source: it must exist, be a regular file, resolve and
/// be readable, checked in that order. Returns its canonical form.
pub fn validate_import_source(probe: &SourceProbe) -> (r: Result<String, VaultError>)
    ensures
        !probe.exists ==> r == Err::<String, VaultError>(VaultError::SourceMissing),
        probe.exists && !probe.is_file ==> r == Err::<String, VaultError>(
            VaultError::SourceNotAFile,
        ),
        r is Ok <==> (probe.exists && probe.is_file && probe.canonical is Ok
            && probe.unreadable is None),
        r matches Ok(p) ==> probe.canonical matches Ok(c) && p@ == c@,
{
    if !probe.exists {
        return Err(VaultError::SourceMissing);
    }
    if !probe.is_file {
        return Err(VaultError::SourceNotAFile);
    }
    let canonical = match &probe.canonical {
        Ok(c) => c.clone(),
        Err(e) => {
            return Err(VaultError::SourceUnresolved(e.clone()));
        },
    };
    match &probe.unreadable {
        Some(e) => Err(VaultError::SourceUnreadable(e.clone())),
        None => Ok(canonical),
    }
}

/// What restricting a path to its owner came to.
#[derive(Debug)]
pub enum ChmodOutcome {
    Done,
    /// The filesystem does not allow it.
    Denied,
    /// It failed for the given other reason.
    Failed(String),
}

/// Restricting permissions is best effort: a denial is accepted, any other
/// failure is reported.
pub fn hardening_result(outcome: ChmodOutcome) -> (r: Result<(), VaultError>)
    ensures
        r is Ok <==> !(outcome is Failed),
{
    match outcome {
        ChmodOutcome::Failed(e) => Err(VaultError::PermissionHardening(e)),
        _ => Ok(()),
    }
}

/// The vault file name of a legacy import: `<file name>_<timestamp>`.
pub fn legacy_import_name(file_name: &str, timestamp: &str) -> (r: String)
    ensures
        r@ == file_name@ + seq!['_'] + timestamp@,
{
    let mut r = owned(file_name);
    r.append("_");
    proof {
        reveal_strlit("_");
    }
    r.append(timestamp);
    r
}

} // verus!
