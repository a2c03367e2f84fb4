use vstd::prelude::*;

use crate::discovery::{context_names, DiscoveredContext};
use crate::paths::{check_canonical, is_canonical, is_strictly_inside, strictly_inside};
use crate::text::{copy_opt, opt_view, owned, str_eq};

verus! {

/// One registered cluster: its identity, display metadata and the
/// location of its isolated credential file.
#[derive(Debug)]
pub struct Cluster {
    pub id: String,
    pub name: String,
    pub context_name: String,
    pub config_path: String,
    pub icon: Option<String>,
    pub description: Option<String>,
    /// The ordered tag list, JSON-encoded.
    pub tags: String,
    pub created_at: i64,
    pub last_accessed: i64,
}

/// The mathematical value of a [`Cluster`].
pub ghost struct ClusterView {
    pub id: Seq<char>,
    pub name: Seq<char>,
    pub context_name: Seq<char>,
    pub config_path: Seq<char>,
    pub icon: Option<Seq<char>>,
    pub description: Option<Seq<char>>,
    pub tags: Seq<char>,
    pub created_at: i64,
    pub last_accessed: i64,
}

impl View for Cluster {
    type V = ClusterView;

    open spec fn view(&self) -> ClusterView {
        ClusterView {
            id: self.id@,
            name: self.name@,
            context_name: self.context_name@,
            config_path: self.config_path@,
            icon: opt_view(self.icon),
            description: opt_view(self.description),
            tags: self.tags@,
            created_at: self.created_at,
            last_accessed: self.last_accessed,
        }
    }
}

impl Cluster {
    /// A record with the same contents.
    pub fn duplicate(&self) -> (r: Cluster)
        ensures
            r@ == self@,
    {
        Cluster {
            id: self.id.clone(),
            name: self.name.clone(),
            context_name: self.context_name.clone(),
            config_path: self.config_path.clone(),
            icon: copy_opt(&self.icon),
            description: copy_opt(&self.description),
            tags: self.tags.clone(),
            created_at: self.created_at,
            last_accessed: self.last_accessed,
        }
    }
}

/// Rows are ordered from the most recently used to the least.
pub open spec fn sorted_by_recency(rows: Seq<ClusterView>) -> bool {
    forall|i: int, j: int|
        0 <= i < j < rows.len() ==> rows[i].last_accessed >= rows[j].last_accessed
}

/// No two rows share an id.
pub open spec fn ids_unique(rows: Seq<ClusterView>) -> bool {
    forall|i: int, j: int|
        0 <= i < rows.len() && 0 <= j < rows.len() && i != j ==> rows[i].id != rows[j].id
}

pub open spec fn has_id(rows: Seq<ClusterView>, id: Seq<char>) -> bool {
    exists|i: int| 0 <= i < rows.len() && rows[i].id == id
}

/// The position of the row with the given id (meaningful when `has_id`).
pub open spec fn index_of(rows: Seq<ClusterView>, id: Seq<char>) -> int {
    choose|i: int| 0 <= i < rows.len() && rows[i].id == id
}

pub open spec fn has_context(rows: Seq<ClusterView>, name: Seq<char>) -> bool {
    exists|i: int| 0 <= i < rows.len() && rows[i].context_name == name
}

/// The row with the given id, if any.
pub open spec fn find_by_id(rows: Seq<ClusterView>, id: Seq<char>) -> Option<ClusterView> {
    if has_id(rows, id) {
        Some(rows[index_of(rows, id)])
    } else {
        None
    }
}

/// `p` is where a row last used at `la` goes: after every row used at or
/// after `la`, before every row used earlier.
pub open spec fn is_insert_point(rows: Seq<ClusterView>, la: i64, p: int) -> bool {
    &&& 0 <= p <= rows.len()
    &&& forall|i: int| 0 <= i < p ==> rows[i].last_accessed >= la
    &&& forall|i: int| p <= i < rows.len() ==> rows[i].last_accessed < la
}

/// `rows` with `c` placed by recency.
pub open spec fn insert_by_recency(rows: Seq<ClusterView>, c: ClusterView) -> Seq<ClusterView> {
    rows.insert(choose|p: int| is_insert_point(rows, c.last_accessed, p), c)
}

proof fn lemma_insert_point_unique(rows: Seq<ClusterView>, la: i64, p: int, q: int)
    requires
        is_insert_point(rows, la, p),
        is_insert_point(rows, la, q),
    ensures
        p == q,
{
    if p < q {
        assert(rows[p].last_accessed < la);
        assert(rows[p].last_accessed >= la);
    } else if q < p {
        assert(rows[q].last_accessed < la);
        assert(rows[q].last_accessed >= la);
    }
}

proof fn lemma_insert_keeps_order(rows: Seq<ClusterView>, c: ClusterView, p: int)
    requires
        sorted_by_recency(rows),
        is_insert_point(rows, c.last_accessed, p),
    ensures
        insert_by_recency(rows, c) == rows.insert(p, c),
        sorted_by_recency(rows.insert(p, c)),
{
    let q = choose|q: int| is_insert_point(rows, c.last_accessed, q);
    lemma_insert_point_unique(rows, c.last_accessed, p, q);
    let s = rows.insert(p, c);
    assert forall|i: int, j: int| 0 <= i < j < s.len() implies s[i].last_accessed
        >= s[j].last_accessed by {
        if j < p {
        } else if j == p {
            assert(s[i] == rows[i]);
        } else if i < p {
            assert(s[j] == rows[j - 1]);
        } else if i == p {
            assert(s[j] == rows[j - 1]);
        } else {
            assert(s[i] == rows[i - 1]);
            assert(s[j] == rows[j - 1]);
        }
    }
}

proof fn lemma_remove_keeps_invariant(rows: Seq<ClusterView>, k: int)
    requires
        sorted_by_recency(rows),
        ids_unique(rows),
        0 <= k < rows.len(),
    ensures
        sorted_by_recency(rows.remove(k)),
        ids_unique(rows.remove(k)),
        forall|id: Seq<char>| has_id(rows.remove(k), id) <==> (has_id(rows, id) && id != rows[k].id),
{
    let s = rows.remove(k);
    assert forall|i: int, j: int| 0 <= i < j < s.len() implies s[i].last_accessed
        >= s[j].last_accessed by {
        let oi = if i < k { i } else { i + 1 };
        let oj = if j < k { j } else { j + 1 };
        assert(s[i] == rows[oi]);
        assert(s[j] == rows[oj]);
    }
    assert forall|i: int, j: int|
        0 <= i < s.len() && 0 <= j < s.len() && i != j implies s[i].id != s[j].id by {
        let oi = if i < k { i } else { i + 1 };
        let oj = if j < k { j } else { j + 1 };
        assert(s[i] == rows[oi]);
        assert(s[j] == rows[oj]);
    }
    assert forall|id: Seq<char>| has_id(s, id) <==> (has_id(rows, id) && id != rows[k].id) by {
        if has_id(s, id) {
            let i = choose|i: int| 0 <= i < s.len() && s[i].id == id;
            let oi = if i < k { i } else { i + 1 };
            assert(s[i] == rows[oi]);
        }
        if has_id(rows, id) && id != rows[k].id {
            let i = choose|i: int| 0 <= i < rows.len() && rows[i].id == id;
            let si = if i < k { i } else { i - 1 };
            assert(s[si] == rows[i]);
        }
    }
}

proof fn lemma_index_of(rows: Seq<ClusterView>, i: int)
    requires
        ids_unique(rows),
        0 <= i < rows.len(),
    ensures
        has_id(rows, rows[i].id),
        index_of(rows, rows[i].id) == i,
{
    assert(has_id(rows, rows[i].id));
}

/// The view of an optional optional string.
pub open spec fn opt_opt_view(o: Option<Option<String>>) -> Option<Option<Seq<char>>> {
    match o {
        Some(inner) => Some(opt_view(inner)),
        None => None,
    }
}

/// A record with a patch merged in: each field that the patch holds
/// replaces the record's; a field it does not hold is kept. For `icon` and
/// `description`, `Some(None)` clears the field.
pub open spec fn patched(
    c: ClusterView,
    name: Option<Seq<char>>,
    icon: Option<Option<Seq<char>>>,
    description: Option<Option<Seq<char>>>,
    tags: Option<Seq<char>>,
) -> ClusterView {
    ClusterView {
        id: c.id,
        name: match name {
            Some(n) => n,
            None => c.name,
        },
        context_name: c.context_name,
        config_path: c.config_path,
        icon: match icon {
            Some(i) => i,
            None => c.icon,
        },
        description: match description {
            Some(d) => d,
            None => c.description,
        },
        tags: match tags {
            Some(t) => t,
            None => c.tags,
        },
        created_at: c.created_at,
        last_accessed: c.last_accessed,
    }
}

/// The rows after a patch of the row with the given id; unchanged if there is none.
pub open spec fn update_rows(
    rows: Seq<ClusterView>,
    id: Seq<char>,
    name: Option<Seq<char>>,
    icon: Option<Option<Seq<char>>>,
    description: Option<Option<Seq<char>>>,
    tags: Option<Seq<char>>,
) -> Seq<ClusterView> {
    if has_id(rows, id) {
        let k = index_of(rows, id);
        rows.update(k, patched(rows[k], name, icon, description, tags))
    } else {
        rows
    }
}

/// The rows after the row with the given id was used at `now`.
pub open spec fn touch_rows(rows: Seq<ClusterView>, id: Seq<char>, now: i64) -> Seq<ClusterView> {
    if has_id(rows, id) {
        let k = index_of(rows, id);
        insert_by_recency(rows.remove(k), ClusterView { last_accessed: now, ..rows[k] })
    } else {
        rows
    }
}

/// The rows without the row with the given id.
pub open spec fn delete_rows(rows: Seq<ClusterView>, id: Seq<char>) -> Seq<ClusterView> {
    if has_id(rows, id) {
        rows.remove(index_of(rows, id))
    } else {
        rows
    }
}

/// The record that registering a cluster creates.
pub open spec fn new_record(
    id: Seq<char>,
    name: Seq<char>,
    context_name: Seq<char>,
    config_path: Seq<char>,
    icon: Option<Seq<char>>,
    description: Option<Seq<char>>,
    tags: Seq<char>,
    now: i64,
) -> ClusterView {
    ClusterView {
        id,
        name,
        context_name,
        config_path,
        icon,
        description,
        tags,
        created_at: now,
        last_accessed: now,
    }
}

proof fn lemma_insert_point_exists(rows: Seq<ClusterView>, la: i64)
    requires
        sorted_by_recency(rows),
    ensures
        exists|p: int| is_insert_point(rows, la, p),
    decreases rows.len(),
{
    if rows.len() == 0 {
        assert(is_insert_point(rows, la, 0));
    } else {
        let init = rows.drop_last();
        lemma_insert_point_exists(init, la);
        let p = choose|p: int| is_insert_point(init, la, p);
        let n = rows.len() - 1;
        if rows[n].last_accessed >= la {
            assert forall|i: int| 0 <= i < rows.len() implies rows[i].last_accessed >= la by {
                if i < n {
                    assert(rows[i].last_accessed >= rows[n].last_accessed);
                }
            }
            assert(is_insert_point(rows, la, rows.len() as int));
        } else {
            assert forall|i: int| 0 <= i < p implies rows[i].last_accessed >= la by {
                assert(rows[i] == init[i]);
            }
            assert forall|i: int| p <= i < rows.len() implies rows[i].last_accessed < la by {
                if i < n {
                    assert(rows[i] == init[i]);
                }
            }
            assert(is_insert_point(rows, la, p));
        }
    }
}

/// Placing a row by recency keeps the order and the other rows.
proof fn lemma_insert_by_recency(rows: Seq<ClusterView>, c: ClusterView)
    requires
        sorted_by_recency(rows),
    ensures
        sorted_by_recency(insert_by_recency(rows, c)),
        insert_by_recency(rows, c).len() == rows.len() + 1,
        forall|id: Seq<char>|
            has_id(insert_by_recency(rows, c), id) <==> (has_id(rows, id) || c.id == id),
        forall|n: Seq<char>|
            has_context(insert_by_recency(rows, c), n) <==> (has_context(rows, n)
                || c.context_name == n),
{
    lemma_insert_point_exists(rows, c.last_accessed);
    let p = choose|p: int| is_insert_point(rows, c.last_accessed, p);
    lemma_insert_keeps_order(rows, c, p);
    let s = rows.insert(p, c);
    assert(s[p] == c);
    assert forall|id: Seq<char>| has_id(s, id) <==> (has_id(rows, id) || c.id == id) by {
        if has_id(s, id) {
            let i = choose|i: int| 0 <= i < s.len() && s[i].id == id;
            if i < p {
                assert(s[i] == rows[i]);
            } else if i > p {
                assert(s[i] == rows[i - 1]);
            }
        }
        if has_id(rows, id) {
            let i = choose|i: int| 0 <= i < rows.len() && rows[i].id == id;
            let si = if i < p { i } else { i + 1 };
            assert(s[si] == rows[i]);
        }
    }
    assert forall|n: Seq<char>| has_context(s, n) <==> (has_context(rows, n) || c.context_name == n) by {
        if has_context(s, n) {
            let i = choose|i: int| 0 <= i < s.len() && s[i].context_name == n;
            if i < p {
                assert(s[i] == rows[i]);
            } else if i > p {
                assert(s[i] == rows[i - 1]);
            }
        }
        if has_context(rows, n) {
            let i = choose|i: int| 0 <= i < rows.len() && rows[i].context_name == n;
            let si = if i < p { i } else { i + 1 };
            assert(s[si] == rows[i]);
        }
    }
}

#[verifier::external_type_specification]
#[verifier::external_body]
pub struct ExJsonError(serde_json::Error);

/// The JSON text of a list of strings.
pub uninterp spec fn tags_json(tags: Seq<Seq<char>>) -> Seq<char>;

/// The views of a list of strings.
pub open spec fn strings_view(v: Seq<String>) -> Seq<Seq<char>> {
    v.map_values(|s: String| s@)
}

/// Relies on serde_json::to_string: the JSON array text of the tag list,
/// which depends on the strings alone. It fails only where a `Serialize`
/// impl fails or a map has non-string keys; a list of strings has neither.
#[verifier::external_body]
fn encode_tags(tags: &Vec<String>) -> (r: Result<String, serde_json::Error>)
    ensures
        r is Ok,
        r matches Ok(s) ==> s@ == tags_json(strings_view(tags@)),
{
    serde_json::to_string(tags)
}

/// Relies on uuid::Uuid::new_v4 and its hyphenated text form: a random id.
#[verifier::external_body]
fn new_cluster_id() -> (r: String) {
    uuid::Uuid::new_v4().to_string()
}

/// Relies on std::time::SystemTime::now: whole seconds since the Unix
/// epoch, `None` for a clock set before it.
#[verifier::external_body]
fn clock_seconds() -> (r: Option<u64>) {
    std::time::SystemTime::now().duration_since(std::time::UNIX_EPOCH).ok().map(|d| d.as_secs())
}

/// A clock reading in seconds as the registry stores it: refused when the
/// clock was before the epoch or past what a stored time can hold.
pub fn secs_to_stored(s: Option<u64>) -> (r: Result<i64, String>)
    ensures
        r is Ok <==> (s matches Some(x) && x <= i64::MAX as u64),
        r matches Ok(n) ==> n as int == s->Some_0 as int,
{
    match s {
        Some(secs) => {
            if secs <= i64::MAX as u64 {
                Ok(secs as i64)
            } else {
                Err(owned("System clock is out of range"))
            }
        },
        None => Err(owned("System clock is before the Unix epoch")),
    }
}

/// The current time in seconds, as the registry stores it.
fn now_seconds() -> (r: Result<i64, String>) {
    secs_to_stored(clock_seconds())
}

/// A credential path the registry may hold: canonical and strictly inside
/// the vault root.
pub open spec fn admissible(root: Seq<char>, path: Seq<char>) -> bool {
    is_canonical(path) && strictly_inside(root, path)
}

/// Every row's credential path is admissible.
pub open spec fn paths_admissible(rows: Seq<ClusterView>, root: Seq<char>) -> bool {
    forall|i: int| 0 <= i < rows.len() ==> admissible(root, #[trigger] rows[i].config_path)
}

/// Whether a credential path is admissible under the vault root.
pub fn check_admissible(root: &str, path: &str) -> (r: bool)
    ensures
        r == admissible(root@, path@),
{
    check_canonical(path) && is_strictly_inside(root, path)
}

/// Where one discovered context was isolated: the id it was written under
/// and its credential file.
#[derive(Debug)]
pub struct IsolatedCredential {
    pub id: String,
    pub config_path: String,
}

pub open spec fn isolated_view(o: Option<IsolatedCredential>) -> Option<(Seq<char>, Seq<char>)> {
    match o {
        Some(c) => Some((c.id@, c.config_path@)),
        None => None,
    }
}

pub open spec fn outcomes_view(v: Seq<Option<IsolatedCredential>>) -> Seq<
    Option<(Seq<char>, Seq<char>)>,
> {
    v.map_values(|o: Option<IsolatedCredential>| isolated_view(o))
}

/// The encoded empty tag list.
pub open spec fn empty_tags() -> Seq<char> {
    seq!['[', ']']
}

/// The record that migrating a context creates: named after the context,
/// with no icon, description or tags.
pub open spec fn migrated_record(
    name: Seq<char>,
    id: Seq<char>,
    path: Seq<char>,
    now: i64,
) -> ClusterView {
    new_record(id, name, name, path, None, None, empty_tags(), now)
}

/// One context of a migration: skipped when its name is registered or it
/// could not be isolated under a free id and an admissible path, added
/// otherwise.
pub open spec fn migrate_step(
    rows: Seq<ClusterView>,
    root: Seq<char>,
    name: Seq<char>,
    outcome: Option<(Seq<char>, Seq<char>)>,
    now: i64,
) -> (Seq<ClusterView>, bool) {
    if has_context(rows, name) {
        (rows, false)
    } else {
        match outcome {
            Some((id, path)) => if has_id(rows, id) || !admissible(root, path) {
                (rows, false)
            } else {
                (insert_by_recency(rows, migrated_record(name, id, path, now)), true)
            },
            None => (rows, false),
        }
    }
}

/// The first `n` contexts of a migration, in order: the rows after them and
/// the names migrated.
pub open spec fn migrate_upto(
    rows: Seq<ClusterView>,
    root: Seq<char>,
    names: Seq<Seq<char>>,
    outcomes: Seq<Option<(Seq<char>, Seq<char>)>>,
    now: i64,
    n: nat,
) -> (Seq<ClusterView>, Seq<Seq<char>>)
    decreases n,
{
    if n == 0 {
        (rows, Seq::empty())
    } else {
        let prev = migrate_upto(rows, root, names, outcomes, now, (n - 1) as nat);
        let step = migrate_step(prev.0, root, names[n - 1], outcomes[n - 1], now);
        (step.0, if step.1 {
            prev.1.push(names[n - 1])
        } else {
            prev.1
        })
    }
}

/// A whole migration.
pub open spec fn migrate_rows(
    rows: Seq<ClusterView>,
    root: Seq<char>,
    names: Seq<Seq<char>>,
    outcomes: Seq<Option<(Seq<char>, Seq<char>)>>,
    now: i64,
) -> (Seq<ClusterView>, Seq<Seq<char>>) {
    migrate_upto(rows, root, names, outcomes, now, names.len())
}

proof fn lemma_first_run(
    rows: Seq<ClusterView>,
    root: Seq<char>,
    names: Seq<Seq<char>>,
    outs: Seq<Option<(Seq<char>, Seq<char>)>>,
    now: i64,
    n: nat,
)
    requires
        sorted_by_recency(rows),
        n <= names.len(),
        names.len() == outs.len(),
        forall|i: int| 0 <= i < outs.len() ==> outs[i] is Some,
        forall|i: int| 0 <= i < outs.len() ==> !has_id(rows, (#[trigger] outs[i]).unwrap().0),
        forall|i: int| 0 <= i < outs.len() ==> admissible(root, (#[trigger] outs[i]).unwrap().1),
        forall|i: int, j: int|
            0 <= i < j < outs.len() ==> (#[trigger] outs[i]).unwrap().0 != (#[trigger] outs[j]).unwrap().0,
    ensures
        sorted_by_recency(migrate_upto(rows, root, names, outs, now, n).0),
        forall|i: int| 0 <= i < n ==> has_context(migrate_upto(rows, root, names, outs, now, n).0, #[trigger] names[i]),
        forall|id: Seq<char>|
            #[trigger] has_id(migrate_upto(rows, root, names, outs, now, n).0, id) ==> has_id(rows, id)
                || exists|j: int| 0 <= j < n && (#[trigger] outs[j]).unwrap().0 == id,
    decreases n,
{
    if n > 0 {
        let m = (n - 1) as nat;
        lemma_first_run(rows, root, names, outs, now, m);
        let prev = migrate_upto(rows, root, names, outs, now, m).0;
        let name = names[m as int];
        let (id, path) = outs[m as int].unwrap();
        let cur = migrate_upto(rows, root, names, outs, now, n).0;
        if !has_context(prev, name) {
            assert(outs[m as int] is Some);
            if has_id(prev, id) {
                if !has_id(rows, id) {
                    let j = choose|j: int| 0 <= j < m && (#[trigger] outs[j]).unwrap().0 == id;
                    assert(outs[j].unwrap().0 != outs[m as int].unwrap().0);
                }
                assert(false);
            }
            assert(admissible(root, outs[m as int].unwrap().1));
            let rec = migrated_record(name, id, path, now);
            lemma_insert_by_recency(prev, rec);
            assert(cur == insert_by_recency(prev, rec));
            assert forall|id2: Seq<char>| #[trigger] has_id(cur, id2) implies has_id(rows, id2)
                || exists|j: int| 0 <= j < n && (#[trigger] outs[j]).unwrap().0 == id2 by {
                if id2 == id {
                    assert(outs[m as int].unwrap().0 == id2);
                } else {
                    assert(has_id(prev, id2));
                }
                if id2 != id && !has_id(rows, id2) {
                    let j = choose|j: int| 0 <= j < m && (#[trigger] outs[j]).unwrap().0 == id2;
                    assert(0 <= j < n);
                }
            }
        } else {
            assert(cur == prev);
            assert forall|id2: Seq<char>| #[trigger] has_id(cur, id2) implies has_id(rows, id2)
                || exists|j: int| 0 <= j < n && (#[trigger] outs[j]).unwrap().0 == id2 by {
                assert(has_id(prev, id2));
                if !has_id(rows, id2) {
                    let j = choose|j: int| 0 <= j < m && (#[trigger] outs[j]).unwrap().0 == id2;
                    assert(0 <= j < n);
                }
            }
        }
    }
}

proof fn lemma_all_registered(
    rows: Seq<ClusterView>,
    root: Seq<char>,
    names: Seq<Seq<char>>,
    outs: Seq<Option<(Seq<char>, Seq<char>)>>,
    now: i64,
    n: nat,
)
    requires
        n <= names.len(),
        forall|i: int| 0 <= i < names.len() ==> has_context(rows, #[trigger] names[i]),
    ensures
        migrate_upto(rows, root, names, outs, now, n) == (rows, Seq::<Seq<char>>::empty()),
    decreases n,
{
    if n > 0 {
        lemma_all_registered(rows, root, names, outs, now, (n - 1) as nat);
        assert(has_context(rows, names[n - 1]));
    }
}

/// Migrating the same discovered contexts a second time migrates nothing,
/// once the first run isolated every context, each under a fresh id of its
/// own and inside the vault.
pub proof fn lemma_migrate_twice(
    rows: Seq<ClusterView>,
    root: Seq<char>,
    names: Seq<Seq<char>>,
    first: Seq<Option<(Seq<char>, Seq<char>)>>,
    second: Seq<Option<(Seq<char>, Seq<char>)>>,
    now1: i64,
    now2: i64,
)
    requires
        sorted_by_recency(rows),
        names.len() == first.len(),
        names.len() == second.len(),
        forall|i: int| 0 <= i < first.len() ==> first[i] is Some,
        forall|i: int| 0 <= i < first.len() ==> !has_id(rows, (#[trigger] first[i]).unwrap().0),
        forall|i: int| 0 <= i < first.len() ==> admissible(root, (#[trigger] first[i]).unwrap().1),
        forall|i: int, j: int|
            0 <= i < j < first.len() ==> (#[trigger] first[i]).unwrap().0 != (#[trigger] first[j]).unwrap().0,
    ensures
        migrate_rows(migrate_rows(rows, root, names, first, now1).0, root, names, second, now2).1 == Seq::<
            Seq<char>,
        >::empty(),
{
    lemma_first_run(rows, root, names, first, now1, names.len());
    let after = migrate_rows(rows, root, names, first, now1).0;
    lemma_all_registered(after, root, names, second, now2, names.len());
}

/// Deleting a cluster leaves no row with its id and keeps every other row in
/// order; deleting an unknown id changes nothing.
pub proof fn lemma_delete_removes(rows: Seq<ClusterView>, id: Seq<char>)
    requires
        sorted_by_recency(rows),
        ids_unique(rows),
    ensures
        !has_id(delete_rows(rows, id), id),
        forall|other: Seq<char>|
            other != id ==> (has_id(delete_rows(rows, id), other) <==> has_id(rows, other)),
        sorted_by_recency(delete_rows(rows, id)),
        !has_id(rows, id) ==> delete_rows(rows, id) == rows,
{
    if has_id(rows, id) {
        let k = index_of(rows, id);
        lemma_remove_keeps_invariant(rows, k);
    }
}

/// What became of a cluster's credential file when it was to be removed.
pub enum FileRemoval {
    /// The file was removed.
    Removed,
    /// There was no file to remove.
    Missing,
    /// Removing it failed, for the given reason.
    Failed(String),
}

proof fn lemma_find_after_insert(rows: Seq<ClusterView>, c: ClusterView, p: int)
    requires
        ids_unique(rows),
        !has_id(rows, c.id),
        0 <= p <= rows.len(),
    ensures
        ids_unique(rows.insert(p, c)),
        find_by_id(rows.insert(p, c), c.id) == Some(c),
        forall|id: Seq<char>|
            id != c.id ==> find_by_id(rows.insert(p, c), id) == find_by_id(rows, id),
{
    let s = rows.insert(p, c);
    assert forall|i: int, j: int|
        0 <= i < s.len() && 0 <= j < s.len() && i != j implies s[i].id != s[j].id by {
        if i != p && j != p {
            let oi = if i < p { i } else { i - 1 };
            let oj = if j < p { j } else { j - 1 };
            assert(s[i] == rows[oi]);
            assert(s[j] == rows[oj]);
        } else if i == p {
            let oj = if j < p { j } else { j - 1 };
            assert(s[j] == rows[oj]);
        } else {
            let oi = if i < p { i } else { i - 1 };
            assert(s[i] == rows[oi]);
        }
    }
    assert(s[p] == c);
    lemma_index_of(s, p);
    assert forall|id: Seq<char>| id != c.id implies find_by_id(s, id) == find_by_id(rows, id) by {
        if has_id(rows, id) {
            let i = index_of(rows, id);
            let si = if i < p { i } else { i + 1 };
            assert(s[si] == rows[i]);
            lemma_index_of(rows, i);
            lemma_index_of(s, si);
        }
        if has_id(s, id) {
            let i = index_of(s, id);
            let oi = if i < p { i } else { i - 1 };
            assert(s[i] == rows[oi]);
            lemma_index_of(rows, oi);
        }
    }
}

proof fn lemma_find_after_remove(rows: Seq<ClusterView>, k: int)
    requires
        ids_unique(rows),
        0 <= k < rows.len(),
    ensures
        find_by_id(rows.remove(k), rows[k].id) is None,
        forall|id: Seq<char>|
            id != rows[k].id ==> find_by_id(rows.remove(k), id) == find_by_id(rows, id),
{
    let s = rows.remove(k);
    if has_id(s, rows[k].id) {
        let i = choose|i: int| 0 <= i < s.len() && s[i].id == rows[k].id;
        let oi = if i < k { i } else { i + 1 };
        assert(s[i] == rows[oi]);
    }
    assert forall|i: int, j: int|
        0 <= i < s.len() && 0 <= j < s.len() && i != j implies s[i].id != s[j].id by {
        let oi = if i < k { i } else { i + 1 };
        let oj = if j < k { j } else { j + 1 };
        assert(s[i] == rows[oi]);
        assert(s[j] == rows[oj]);
    }
    assert forall|id: Seq<char>| id != rows[k].id implies find_by_id(s, id) == find_by_id(
        rows,
        id,
    ) by {
        if has_id(rows, id) {
            let i = index_of(rows, id);
            let si = if i < k { i } else { i - 1 };
            assert(s[si] == rows[i]);
            lemma_index_of(rows, i);
            lemma_index_of(s, si);
        }
        if has_id(s, id) {
            let i = index_of(s, id);
            let oi = if i < k { i } else { i + 1 };
            assert(s[i] == rows[oi]);
            lemma_index_of(rows, oi);
        }
    }
}

proof fn lemma_find_after_update(rows: Seq<ClusterView>, k: int, v: ClusterView)
    requires
        ids_unique(rows),
        0 <= k < rows.len(),
        v.id == rows[k].id,
    ensures
        find_by_id(rows.update(k, v), v.id) == Some(v),
        forall|id: Seq<char>|
            id != v.id ==> find_by_id(rows.update(k, v), id) == find_by_id(rows, id),
{
    let s = rows.update(k, v);
    assert forall|i: int, j: int|
        0 <= i < s.len() && 0 <= j < s.len() && i != j implies s[i].id != s[j].id by {
        assert(s[i].id == rows[i].id);
        assert(s[j].id == rows[j].id);
    }
    lemma_index_of(s, k);
    assert forall|id: Seq<char>| id != v.id implies find_by_id(s, id) == find_by_id(rows, id) by {
        if has_id(rows, id) {
            let i = index_of(rows, id);
            assert(s[i] == rows[i]);
            lemma_index_of(rows, i);
            lemma_index_of(s, i);
        }
        if has_id(s, id) {
            let i = index_of(s, id);
            assert(s[i] == rows[i]);
            lemma_index_of(rows, i);
        }
    }
}

proof fn lemma_paths_after_remove(rows: Seq<ClusterView>, k: int, root: Seq<char>)
    requires
        paths_admissible(rows, root),
        0 <= k < rows.len(),
    ensures
        paths_admissible(rows.remove(k), root),
        admissible(root, rows[k].config_path),
{
    let s = rows.remove(k);
    assert forall|i: int| 0 <= i < s.len() implies admissible(root, #[trigger] s[i].config_path) by {
        let oi = if i < k { i } else { i + 1 };
        assert(s[i] == rows[oi]);
    }
}

/// After a migration a discovered context is registered, unless it was not
/// isolated, was isolated outside the vault, or under an id that is taken.
pub open spec fn migration_settled(
    rows: Seq<ClusterView>,
    root: Seq<char>,
    name: Seq<char>,
    outcome: Option<(Seq<char>, Seq<char>)>,
) -> bool {
    ||| has_context(rows, name)
    ||| outcome is None
    ||| !admissible(root, outcome.unwrap().1)
    ||| has_id(rows, outcome.unwrap().0)
}

proof fn lemma_migrate_covers(
    rows: Seq<ClusterView>,
    root: Seq<char>,
    names: Seq<Seq<char>>,
    outs: Seq<Option<(Seq<char>, Seq<char>)>>,
    now: i64,
    n: nat,
)
    requires
        sorted_by_recency(rows),
        n <= names.len(),
        names.len() == outs.len(),
    ensures
        sorted_by_recency(migrate_upto(rows, root, names, outs, now, n).0),
        forall|i: int|
            0 <= i < n ==> migration_settled(
                migrate_upto(rows, root, names, outs, now, n).0,
                root,
                #[trigger] names[i],
                outs[i],
            ),
    decreases n,
{
    if n > 0 {
        let m = (n - 1) as nat;
        lemma_migrate_covers(rows, root, names, outs, now, m);
        let prev = migrate_upto(rows, root, names, outs, now, m).0;
        let cur = migrate_upto(rows, root, names, outs, now, n).0;
        let name = names[m as int];
        let out = outs[m as int];
        let grows = !has_context(prev, name) && out is Some && !has_id(prev, out.unwrap().0)
            && admissible(root, out.unwrap().1);
        if grows {
            let rec = migrated_record(name, out.unwrap().0, out.unwrap().1, now);
            lemma_insert_by_recency(prev, rec);
            assert(cur == insert_by_recency(prev, rec));
            assert(has_context(cur, name));
        } else {
            assert(cur == prev);
        }
        assert forall|i: int| 0 <= i < n implies migration_settled(
            cur,
            root,
            #[trigger] names[i],
            outs[i],
        ) by {
            if i < m {
                assert(migration_settled(prev, root, names[i], outs[i]));
            }
        }
    }
}

/// Where a row last used at `la` goes in the ordered rows.
fn insert_point(rows: &Vec<Cluster>, la: i64) -> (p: usize)
    requires
        sorted_by_recency(rows@.map_values(|c: Cluster| c@)),
    ensures
        is_insert_point(rows@.map_values(|c: Cluster| c@), la, p as int),
{
    let ghost v = rows@.map_values(|c: Cluster| c@);
    let mut p: usize = 0;
    while p < rows.len() && rows[p].last_accessed >= la
        invariant
            0 <= p <= rows.len(),
            v == rows@.map_values(|c: Cluster| c@),
            forall|i: int| 0 <= i < p ==> v[i].last_accessed >= la,
        decreases rows.len() - p,
    {
        p += 1;
    }
    assert forall|i: int| p <= i < v.len() implies v[i].last_accessed < la by {
        assert(v[p as int].last_accessed < la);
    }
    p
}

/// The durable catalog of known clusters, most recently used first, whose
/// credential files all lie inside one vault root.
#[derive(Debug)]
pub struct ClusterManager {
    rows: Vec<Cluster>,
    root: String,
}

impl View for ClusterManager {
    type V = Seq<ClusterView>;

    closed spec fn view(&self) -> Seq<ClusterView> {
        self.rows@.map_values(|c: Cluster| c@)
    }
}

impl ClusterManager {
    /// The vault root that every credential path lies inside.
    pub closed spec fn root(&self) -> Seq<char> {
        self.root@
    }

    /// The rows are ordered by recency and keyed by id, and every credential
    /// path is admissible.
    pub open spec fn wf(&self) -> bool {
        sorted_by_recency(self@) && ids_unique(self@) && paths_admissible(self@, self.root())
    }

    /// An empty registry over the canonical vault root `vault_root`.
    pub fn new(vault_root: String) -> (r: ClusterManager)
        ensures
            r.wf(),
            r@ == Seq::<ClusterView>::empty(),
            r.root() == vault_root@,
    {
        let r = ClusterManager { rows: Vec::new(), root: vault_root };
        assert(r@ =~= Seq::<ClusterView>::empty());
        r
    }

    /// Number of registered clusters.
    pub fn len(&self) -> (n: usize)
        ensures
            n == self@.len(),
    {
        self.rows.len()
    }

    /// Places `c` by recency.
    fn insert_row(&mut self, c: Cluster)
        requires
            old(self).wf(),
            !has_id(old(self)@, c.id@),
            admissible(old(self).root(), c.config_path@),
        ensures
            final(self).wf(),
            final(self).root() == old(self).root(),
            final(self)@ == insert_by_recency(old(self)@, c@),
            find_by_id(final(self)@, c@.id) == Some(c@),
            forall|id: Seq<char>|
                id != c@.id ==> find_by_id(final(self)@, id) == find_by_id(old(self)@, id),
    {
        let ghost old_v = self@;
        let p = insert_point(&self.rows, c.last_accessed);
        let ghost cv = c@;
        self.rows.insert(p, c);
        proof {
            lemma_insert_keeps_order(old_v, cv, p as int);
            assert(self@ =~= old_v.insert(p as int, cv));
            lemma_find_after_insert(old_v, cv, p as int);
            let s = self@;
            assert forall|i: int| 0 <= i < s.len() implies admissible(
                self.root(),
                #[trigger] s[i].config_path,
            ) by {
                if i < p {
                    assert(s[i] == old_v[i]);
                } else if i > p {
                    assert(s[i] == old_v[i - 1]);
                }
            }
        }
    }

    /// The position of the row with the given id.
    fn position(&self, id: &str) -> (r: Option<usize>)
        requires
            self.wf(),
        ensures
            match r {
                Some(k) => has_id(self@, id@) && k == index_of(self@, id@) && k < self@.len(),
                None => !has_id(self@, id@),
            },
    {
        let mut k: usize = 0;
        while k < self.rows.len()
            invariant
                self.wf(),
                0 <= k <= self.rows.len(),
                forall|i: int| 0 <= i < k ==> self@[i].id != id@,
            decreases self.rows.len() - k,
        {
            if str_eq(self.rows[k].id.as_str(), id) {
                proof {
                    lemma_index_of(self@, k as int);
                }
                return Some(k);
            }
            k += 1;
        }
        None
    }

    /// Merges a patch into the row with the given id.
    fn patch_row(
        &mut self,
        id: &str,
        name: Option<String>,
        icon: Option<Option<String>>,
        description: Option<Option<String>>,
        tags: Option<String>,
    )
        requires
            old(self).wf(),
        ensures
            final(self).wf(),
            final(self).root() == old(self).root(),
            final(self)@ == update_rows(
                old(self)@,
                id@,
                opt_view(name),
                opt_opt_view(icon),
                opt_opt_view(description),
                opt_view(tags),
            ),
            find_by_id(final(self)@, id@) == match find_by_id(old(self)@, id@) {
                Some(c) => Some(
                    patched(
                        c,
                        opt_view(name),
                        opt_opt_view(icon),
                        opt_opt_view(description),
                        opt_view(tags),
                    ),
                ),
                None => None,
            },
            forall|other: Seq<char>|
                other != id@ ==> find_by_id(final(self)@, other) == find_by_id(old(self)@, other),
    {
        let ghost old_v = self@;
        match self.position(id) {
            None => {},
            Some(k) => {
                let ghost target = patched(
                    old_v[k as int],
                    opt_view(name),
                    opt_opt_view(icon),
                    opt_opt_view(description),
                    opt_view(tags),
                );
                let mut c = self.rows.remove(k);
                assert(c@ == old_v[k as int]);
                match name {
                    Some(n) => {
                        c.name = n;
                    },
                    None => {},
                }
                match icon {
                    Some(i) => {
                        c.icon = i;
                    },
                    None => {},
                }
                match description {
                    Some(d) => {
                        c.description = d;
                    },
                    None => {},
                }
                match tags {
                    Some(t) => {
                        c.tags = t;
                    },
                    None => {},
                }
                assert(c@ == target);
                self.rows.insert(k, c);
                proof {
                    let s = self@;
                    assert(s =~= old_v.update(k as int, target));
                    assert forall|i: int| 0 <= i < s.len() implies s[i].id == old_v[i].id
                        && s[i].last_accessed == old_v[i].last_accessed && s[i].config_path
                        == old_v[i].config_path by {}
                    assert forall|i: int| 0 <= i < s.len() implies admissible(
                        self.root(),
                        #[trigger] s[i].config_path,
                    ) by {
                        assert(s[i].config_path == old_v[i].config_path);
                    }
                    lemma_find_after_update(old_v, k as int, target);
                }
            },
        }
    }

    /// Updates the given fields of a cluster. `None` leaves a field as it is;
    /// for `icon` and `description`, `Some(None)` clears it. Updating an
    /// unknown id, or giving no field, changes nothing and succeeds.
    pub fn update_cluster(
        &mut self,
        id: &str,
        name: Option<String>,
        icon: Option<Option<String>>,
        description: Option<Option<String>>,
        tags: Option<Vec<String>>,
    ) -> (r: Result<(), String>)
        requires
            old(self).wf(),
        ensures
            final(self).wf(),
            final(self).root() == old(self).root(),
            r is Ok,
            r is Ok ==> final(self)@ == update_rows(
                old(self)@,
                id@,
                opt_view(name),
                opt_opt_view(icon),
                opt_opt_view(description),
                match tags {
                    Some(t) => Some(tags_json(strings_view(t@))),
                    None => None,
                },
            ),
            (name is None && icon is None && description is None && tags is None) ==> r is Ok
                && final(self)@ == old(self)@,
            r is Ok ==> find_by_id(final(self)@, id@) == match find_by_id(old(self)@, id@) {
                Some(c) => Some(
                    patched(
                        c,
                        opt_view(name),
                        opt_opt_view(icon),
                        opt_opt_view(description),
                        match tags {
                            Some(t) => Some(tags_json(strings_view(t@))),
                            None => None,
                        },
                    ),
                ),
                None => None,
            },
            forall|other: Seq<char>|
                other != id@ ==> find_by_id(final(self)@, other) == find_by_id(old(self)@, other),
    {
        let tags_text = match tags {
            Some(t) => match encode_tags(&t) {
                Ok(text) => Some(text),
                Err(_) => {
                    return Err(owned("Failed to serialize tags"));
                },
            },
            None => None,
        };
        let ghost old_v = self@;
        let ghost no_fields = name is None && icon is None && description is None
            && tags_text is None;
        self.patch_row(id, name, icon, description, tags_text);
        proof {
            if no_fields && has_id(old_v, id@) {
                let k = index_of(old_v, id@);
                assert(old_v.update(k, old_v[k]) =~= old_v);
            }
        }
        Ok(())
    }

    /// Marks a cluster as used at `now`, which moves it to its place by recency.
    pub fn update_last_accessed_at(&mut self, id: &str, now: i64)
        requires
            old(self).wf(),
        ensures
            final(self).wf(),
            final(self).root() == old(self).root(),
            final(self)@ == touch_rows(old(self)@, id@, now),
            find_by_id(final(self)@, id@) == match find_by_id(old(self)@, id@) {
                Some(c) => Some(ClusterView { last_accessed: now, ..c }),
                None => None,
            },
            forall|other: Seq<char>|
                other != id@ ==> find_by_id(final(self)@, other) == find_by_id(old(self)@, other),
    {
        let ghost old_v = self@;
        match self.position(id) {
            None => {},
            Some(k) => {
                let mut c = self.rows.remove(k);
                proof {
                    lemma_remove_keeps_invariant(old_v, k as int);
                    lemma_paths_after_remove(old_v, k as int, self.root());
                    assert(self@ =~= old_v.remove(k as int));
                    lemma_find_after_remove(old_v, k as int);
                }
                c.last_accessed = now;
                assert(c@ == ClusterView { last_accessed: now, ..old_v[k as int] });
                self.insert_row(c);
            },
        }
    }

    /// Marks a cluster as used now.
    pub fn update_last_accessed(&mut self, id: &str) -> (r: Result<(), String>)
        requires
            old(self).wf(),
        ensures
            final(self).wf(),
            final(self).root() == old(self).root(),
            r is Ok ==> exists|now: i64| final(self)@ == touch_rows(old(self)@, id@, now),
            r is Err ==> final(self)@ == old(self)@,
            forall|other: Seq<char>|
                other != id@ ==> find_by_id(final(self)@, other) == find_by_id(old(self)@, other),
    {
        let now = match now_seconds() {
            Ok(n) => n,
            Err(e) => {
                return Err(e);
            },
        };
        self.update_last_accessed_at(id, now);
        Ok(())
    }

    /// Removes the cluster with the given id; an unknown id changes nothing.
    pub fn delete_cluster(&mut self, id: &str) -> (r: Result<(), String>)
        requires
            old(self).wf(),
        ensures
            final(self).wf(),
            final(self).root() == old(self).root(),
            r is Ok,
            final(self)@ == delete_rows(old(self)@, id@),
            find_by_id(final(self)@, id@) is None,
            forall|other: Seq<char>|
                other != id@ ==> find_by_id(final(self)@, other) == find_by_id(old(self)@, other),
    {
        let ghost old_v = self@;
        match self.position(id) {
            None => {},
            Some(k) => {
                let _ = self.rows.remove(k);
                proof {
                    lemma_find_after_remove(old_v, k as int);
                    lemma_remove_keeps_invariant(old_v, k as int);
                    lemma_paths_after_remove(old_v, k as int, self.root());
                    assert(self@ =~= old_v.remove(k as int));
                }
            },
        }
        Ok(())
    }

    /// Takes back a stored row as it is. Fails when its id is taken.
    pub fn restore_cluster(&mut self, c: Cluster) -> (r: Result<(), String>)
        requires
            old(self).wf(),
        ensures
            final(self).wf(),
            final(self).root() == old(self).root(),
            r is Err <==> (has_id(old(self)@, c@.id) || !admissible(old(self).root(), c@.config_path)),
            r is Err ==> final(self)@ == old(self)@,
            r is Ok ==> final(self)@ == insert_by_recency(old(self)@, c@),
            r is Ok ==> find_by_id(final(self)@, c@.id) == Some(c@),
            forall|other: Seq<char>|
                other != c@.id ==> find_by_id(final(self)@, other) == find_by_id(old(self)@, other),
    {
        if !check_admissible(self.root.as_str(), c.config_path.as_str()) {
            return Err(owned("Credential path is not inside the vault"));
        }
        match self.position(c.id.as_str()) {
            Some(_) => Err(owned("Failed to insert cluster: id already registered")),
            None => {
                self.insert_row(c);
                Ok(())
            },
        }
    }

    /// Registers a cluster under the given id, created and last used at `now`.
    /// Fails when the id is taken or the credential path is not canonical
    /// and strictly inside the vault root.
    pub fn add_cluster_at(
        &mut self,
        id: String,
        name: String,
        context_name: String,
        config_path: String,
        icon: Option<String>,
        description: Option<String>,
        tags: String,
        now: i64,
    ) -> (r: Result<Cluster, String>)
        requires
            old(self).wf(),
        ensures
            final(self).wf(),
            final(self).root() == old(self).root(),
            r is Err <==> (has_id(old(self)@, id@) || !admissible(old(self).root(), config_path@)),
            r is Err ==> final(self)@ == old(self)@,
            r matches Ok(c) ==> c@ == new_record(
                id@,
                name@,
                context_name@,
                config_path@,
                opt_view(icon),
                opt_view(description),
                tags@,
                now,
            ) && final(self)@ == insert_by_recency(old(self)@, c@),
            r matches Ok(c) ==> find_by_id(final(self)@, id@) == Some(c@),
            forall|other: Seq<char>|
                other != id@ ==> find_by_id(final(self)@, other) == find_by_id(old(self)@, other),
    {
        if !check_admissible(self.root.as_str(), config_path.as_str()) {
            return Err(owned("Credential path is not inside the vault"));
        }
        match self.position(id.as_str()) {
            Some(_) => Err(owned("Failed to insert cluster: id already registered")),
            None => {
                let c = Cluster {
                    id,
                    name,
                    context_name,
                    config_path,
                    icon,
                    description,
                    tags,
                    created_at: now,
                    last_accessed: now,
                };
                let out = c.duplicate();
                self.insert_row(c);
                Ok(out)
            },
        }
    }

    /// Registers a cluster under the given id, created and last used now,
    /// with its tags encoded. Fails when the id is taken, the credential path
    /// is not admissible, or the clock cannot be read as a stored time.
    pub fn add_cluster_with_id(
        &mut self,
        id: String,
        name: String,
        context_name: String,
        config_path: String,
        icon: Option<String>,
        description: Option<String>,
        tags: Vec<String>,
    ) -> (r: Result<Cluster, String>)
        requires
            old(self).wf(),
        ensures
            final(self).wf(),
            final(self).root() == old(self).root(),
            r is Err ==> final(self)@ == old(self)@,
            (has_id(old(self)@, id@) || !admissible(old(self).root(), config_path@)) ==> r is Err,
            r matches Ok(c) ==> {
                &&& !has_id(old(self)@, id@)
                &&& c@ == new_record(
                    id@,
                    name@,
                    context_name@,
                    config_path@,
                    opt_view(icon),
                    opt_view(description),
                    tags_json(strings_view(tags@)),
                    c@.created_at,
                )
                &&& final(self)@ == insert_by_recency(old(self)@, c@)
                &&& find_by_id(final(self)@, id@) == Some(c@)
            },
            forall|other: Seq<char>|
                other != id@ ==> find_by_id(final(self)@, other) == find_by_id(old(self)@, other),
    {
        let tags_text = match encode_tags(&tags) {
            Ok(text) => text,
            Err(_) => {
                return Err(owned("Failed to serialize tags"));
            },
        };
        let now = match now_seconds() {
            Ok(n) => n,
            Err(e) => {
                return Err(e);
            },
        };
        self.add_cluster_at(id, name, context_name, config_path, icon, description, tags_text, now)
    }

    /// Registers a cluster under a fresh random id, created and last used now.
    pub fn add_cluster(
        &mut self,
        name: String,
        context_name: String,
        config_path: String,
        icon: Option<String>,
        description: Option<String>,
        tags: Vec<String>,
    ) -> (r: Result<Cluster, String>)
        requires
            old(self).wf(),
        ensures
            final(self).wf(),
            final(self).root() == old(self).root(),
            r is Err ==> final(self)@ == old(self)@,
            !admissible(old(self).root(), config_path@) ==> r is Err,
            r matches Ok(c) ==> {
                &&& !has_id(old(self)@, c@.id)
                &&& c@ == new_record(
                    c@.id,
                    name@,
                    context_name@,
                    config_path@,
                    opt_view(icon),
                    opt_view(description),
                    tags_json(strings_view(tags@)),
                    c@.created_at,
                )
                &&& final(self)@ == insert_by_recency(old(self)@, c@)
                &&& find_by_id(final(self)@, c@.id) == Some(c@)
                &&& forall|other: Seq<char>|
                    other != c@.id ==> find_by_id(final(self)@, other) == find_by_id(
                        old(self)@,
                        other,
                    )
            },
    {
        let id = new_cluster_id();
        self.add_cluster_with_id(id, name, context_name, config_path, icon, description, tags)
    }

    /// Registers, in order, each discovered context whose name is not yet
    /// registered and which was isolated under a free id; one that was not
    /// isolated is skipped and does not stop the rest. Returns the names
    /// migrated.
    pub fn migrate_legacy(
        &mut self,
        discovered: &Vec<DiscoveredContext>,
        isolated: &Vec<Option<IsolatedCredential>>,
        now: i64,
    ) -> (r: Vec<String>)
        requires
            old(self).wf(),
            discovered.len() == isolated.len(),
        ensures
            final(self).wf(),
            final(self).root() == old(self).root(),
            final(self).root() == old(self).root(),
            forall|i: int|
                0 <= i < discovered.len() ==> migration_settled(
                    final(self)@,
                    old(self).root(),
                    #[trigger] context_names(discovered@)[i],
                    outcomes_view(isolated@)[i],
                ),
            (final(self)@, strings_view(r@)) == migrate_rows(
                old(self)@,
                old(self).root(),
                context_names(discovered@),
                outcomes_view(isolated@),
                now,
            ),
    {
        let ghost names = context_names(discovered@);
        let ghost outs = outcomes_view(isolated@);
        let ghost start = self@;
        let ghost root = self.root();
        let mut migrated: Vec<String> = Vec::new();
        let mut k: usize = 0;
        while k < discovered.len()
            invariant
                self.wf(),
                0 <= k <= discovered.len(),
                discovered.len() == isolated.len(),
                names == context_names(discovered@),
                outs == outcomes_view(isolated@),
                self.root() == root,
                (self@, strings_view(migrated@)) == migrate_upto(
                    start,
                    root,
                    names,
                    outs,
                    now,
                    k as nat,
                ),
            decreases discovered.len() - k,
        {
            let name = &discovered[k].context_name;
            assert(names[k as int] == name@);
            assert(outs[k as int] == isolated_view(isolated@[k as int]));
            let ghost prev_m = strings_view(migrated@);
            if !self.has_context(name.as_str()) {
                match &isolated[k] {
                    Some(cred) => {
                        let free = match self.position(cred.id.as_str()) {
                            Some(_) => false,
                            None => check_admissible(self.root.as_str(), cred.config_path.as_str()),
                        };
                        if free {
                            {
                                let c = Cluster {
                                    id: cred.id.clone(),
                                    name: name.clone(),
                                    context_name: name.clone(),
                                    config_path: cred.config_path.clone(),
                                    icon: None,
                                    description: None,
                                    tags: owned("[]"),
                                    created_at: now,
                                    last_accessed: now,
                                };
                                proof {
                                    reveal_strlit("[]");
                                    assert(c.tags@ =~= empty_tags());
                                }
                                assert(c@ == migrated_record(name@, cred.id@, cred.config_path@, now));
                                self.insert_row(c);
                                migrated.push(name.clone());
                                assert(strings_view(migrated@) =~= prev_m.push(name@));
                            }
                        }
                    },
                    None => {},
                }
            }
            k += 1;
        }
        proof {
            lemma_migrate_covers(start, root, names, outs, now, discovered.len() as nat);
        }
        migrated
    }

    /// The credential file of the cluster with the given id, looked up
    /// before the cluster is deleted.
    pub fn credential_path(&self, id: &str) -> (r: Option<String>)
        requires
            self.wf(),
        ensures
            match r {
                Some(p) => find_by_id(self@, id@) matches Some(c) && c.config_path == p@,
                None => find_by_id(self@, id@) is None,
            },
    {
        match self.position(id) {
            Some(k) => Some(self.rows[k].config_path.clone()),
            None => None,
        }
    }

    /// Finishes deleting a cluster once its credential file was dealt with:
    /// a file that was removed or never existed lets the row go; a failed
    /// removal keeps the row and is reported.
    pub fn delete_after_removal(&mut self, id: &str, removal: FileRemoval) -> (r: Result<
        (),
        String,
    >)
        requires
            old(self).wf(),
        ensures
            final(self).wf(),
            final(self).root() == old(self).root(),
            r is Ok <==> !(removal is Failed),
            r is Ok ==> final(self)@ == delete_rows(old(self)@, id@),
            r is Ok ==> find_by_id(final(self)@, id@) is None,
            r is Err ==> final(self)@ == old(self)@,
            forall|other: Seq<char>|
                other != id@ ==> find_by_id(final(self)@, other) == find_by_id(old(self)@, other),
    {
        match removal {
            FileRemoval::Failed(reason) => {
                let mut msg = owned("Failed to delete config file: ");
                msg.append(reason.as_str());
                Err(msg)
            },
            _ => self.delete_cluster(id),
        }
    }

    /// Whether a cluster for the given context is registered.
    pub fn has_context(&self, context_name: &str) -> (r: bool)
        ensures
            r == has_context(self@, context_name@),
    {
        let mut k: usize = 0;
        while k < self.rows.len()
            invariant
                0 <= k <= self.rows.len(),
                forall|i: int| 0 <= i < k ==> self@[i].context_name != context_name@,
            decreases self.rows.len() - k,
        {
            if str_eq(self.rows[k].context_name.as_str(), context_name) {
                assert(self@[k as int] == self.rows@[k as int]@);
                return true;
            }
            k += 1;
        }
        false
    }

    /// The cluster with the given id.
    pub fn get_cluster(&self, id: &str) -> (r: Option<Cluster>)
        requires
            self.wf(),
        ensures
            match r {
                Some(c) => find_by_id(self@, id@) == Some(c@),
                None => find_by_id(self@, id@) is None,
            },
    {
        match self.position(id) {
            Some(k) => Some(self.rows[k].duplicate()),
            None => None,
        }
    }

    /// All clusters, most recently used first.
    pub fn list_clusters(&self) -> (r: Vec<Cluster>)
        requires
            self.wf(),
        ensures
            r@.map_values(|c: Cluster| c@) == self@,
            sorted_by_recency(r@.map_values(|c: Cluster| c@)),
    {
        let mut out: Vec<Cluster> = Vec::new();
        let mut k: usize = 0;
        while k < self.rows.len()
            invariant
                0 <= k <= self.rows.len(),
                out.len() == k,
                out@.map_values(|c: Cluster| c@) == self@.subrange(0, k as int),
            decreases self.rows.len() - k,
        {
            assert(self@[k as int] == self.rows@[k as int]@);
            let ghost prev = out@;
            out.push(self.rows[k].duplicate());
            proof {
                let a = out@.map_values(|c: Cluster| c@);
                let b = self@.subrange(0, k + 1);
                assert forall|i: int| 0 <= i < k + 1 implies a[i] == b[i] by {
                    if i < k {
                        assert(out@[i] == prev[i]);
                        assert(prev.map_values(|c: Cluster| c@)[i] == self@.subrange(0, k as int)[i]);
                    }
                }
                assert(a =~= b);
            }
            k += 1;
        }
        assert(self@.subrange(0, k as int) =~= self@);
        out
    }
}

} // verus!
