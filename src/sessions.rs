use vstd::prelude::*;

use crate::text::{owned, str_eq};

verus! {

/// A running subscription: its key and the token of the handle that owns it.
#[derive(Debug)]
pub struct SessionEntry {
    pub key: String,
    pub token: u64,
}

pub type EntryView = (Seq<char>, u64);

/// Which logical subscriptions are running: at most one handle per key.
#[derive(Debug)]
pub struct SessionTable {
    entries: Vec<SessionEntry>,
    next_token: u64,
}

/// The mathematical value of a [`SessionTable`]: its entries and the next
/// token it will issue.
pub ghost struct SessionTableView {
    pub entries: Seq<EntryView>,
    pub next: u64,
}

impl View for SessionTable {
    type V = SessionTableView;

    closed spec fn view(&self) -> SessionTableView {
        SessionTableView {
            entries: self.entries@.map_values(|e: SessionEntry| (e.key@, e.token)),
            next: self.next_token,
        }
    }
}

pub open spec fn keys_unique(e: Seq<EntryView>) -> bool {
    forall|i: int, j: int| 0 <= i < e.len() && 0 <= j < e.len() && i != j ==> e[i].0 != e[j].0
}

pub open spec fn has_key(e: Seq<EntryView>, k: Seq<char>) -> bool {
    exists|i: int| 0 <= i < e.len() && e[i].0 == k
}

pub open spec fn key_index(e: Seq<EntryView>, k: Seq<char>) -> int {
    choose|i: int| 0 <= i < e.len() && e[i].0 == k
}

/// The token of the handle that holds `k`, if any.
pub open spec fn token_of(e: Seq<EntryView>, k: Seq<char>) -> Option<u64> {
    if has_key(e, k) {
        Some(e[key_index(e, k)].1)
    } else {
        None
    }
}

/// The entries without the one for `k`.
pub open spec fn without_key(e: Seq<EntryView>, k: Seq<char>) -> Seq<EntryView> {
    if has_key(e, k) {
        e.remove(key_index(e, k))
    } else {
        e
    }
}

/// Keys unique, and every token issued before.
pub open spec fn table_wf(v: SessionTableView) -> bool {
    &&& keys_unique(v.entries)
    &&& forall|i: int| 0 <= i < v.entries.len() ==> v.entries[i].1 < v.next
}

/// The first half of a replace: the old handle for `key` leaves the table,
/// to be cancelled, and a fresh token is issued for the new one.
pub open spec fn begin_spec(v: SessionTableView, key: Seq<char>) -> (
    SessionTableView,
    Option<u64>,
    u64,
) {
    (
        SessionTableView { entries: without_key(v.entries, key), next: (v.next + 1) as u64 },
        token_of(v.entries, key),
        v.next,
    )
}

/// The second half of a replace: the new handle holds `key`; a handle that
/// took the key meanwhile is handed back, to be cancelled.
pub open spec fn install_spec(v: SessionTableView, key: Seq<char>, token: u64) -> (
    SessionTableView,
    Option<u64>,
) {
    (
        SessionTableView { entries: without_key(v.entries, key).push((key, token)), next: v.next },
        token_of(v.entries, key),
    )
}

/// Self-deregistration: the entry goes only if `token` still holds `key`.
pub open spec fn release_spec(v: SessionTableView, key: Seq<char>, token: u64) -> (
    SessionTableView,
    bool,
) {
    if token_of(v.entries, key) == Some(token) {
        (SessionTableView { entries: without_key(v.entries, key), next: v.next }, true)
    } else {
        (v, false)
    }
}

proof fn lemma_key_index(e: Seq<EntryView>, i: int)
    requires
        keys_unique(e),
        0 <= i < e.len(),
    ensures
        has_key(e, e[i].0),
        key_index(e, e[i].0) == i,
{
    assert(has_key(e, e[i].0));
}

proof fn lemma_without_key(e: Seq<EntryView>, k: Seq<char>, next: u64)
    requires
        table_wf(SessionTableView { entries: e, next }),
    ensures
        table_wf(SessionTableView { entries: without_key(e, k), next }),
        !has_key(without_key(e, k), k),
        forall|k2: Seq<char>| k2 != k ==> token_of(without_key(e, k), k2) == token_of(e, k2),
{
    if has_key(e, k) {
        let x = key_index(e, k);
        let s = e.remove(x);
        assert forall|i: int, j: int|
            0 <= i < s.len() && 0 <= j < s.len() && i != j implies s[i].0 != s[j].0 by {
            let oi = if i < x { i } else { i + 1 };
            let oj = if j < x { j } else { j + 1 };
            assert(s[i] == e[oi]);
            assert(s[j] == e[oj]);
        }
        assert forall|i: int| 0 <= i < s.len() implies s[i].1 < next by {
            let oi = if i < x { i } else { i + 1 };
            assert(s[i] == e[oi]);
        }
        if has_key(s, k) {
            let i = choose|i: int| 0 <= i < s.len() && s[i].0 == k;
            let oi = if i < x { i } else { i + 1 };
            assert(s[i] == e[oi]);
        }
        assert forall|k2: Seq<char>| k2 != k implies token_of(s, k2) == token_of(e, k2) by {
            if has_key(s, k2) {
                let i = key_index(s, k2);
                let oi = if i < x { i } else { i + 1 };
                assert(s[i] == e[oi]);
                lemma_key_index(s, i);
                lemma_key_index(e, oi);
            }
            if has_key(e, k2) {
                let i = key_index(e, k2);
                let si = if i < x { i } else { i - 1 };
                assert(s[si] == e[i]);
                lemma_key_index(s, si);
            }
        }
    }
}

proof fn lemma_push_key(e: Seq<EntryView>, k: Seq<char>, t: u64, next: u64)
    requires
        table_wf(SessionTableView { entries: e, next }),
        !has_key(e, k),
        t < next,
    ensures
        table_wf(SessionTableView { entries: e.push((k, t)), next }),
        token_of(e.push((k, t)), k) == Some(t),
        forall|k2: Seq<char>| k2 != k ==> token_of(e.push((k, t)), k2) == token_of(e, k2),
{
    let s = e.push((k, t));
    assert forall|i: int, j: int|
        0 <= i < s.len() && 0 <= j < s.len() && i != j implies s[i].0 != s[j].0 by {
        if i < e.len() && j < e.len() {
            assert(s[i] == e[i]);
            assert(s[j] == e[j]);
        } else if i < e.len() {
            assert(s[i] == e[i]);
        } else if j < e.len() {
            assert(s[j] == e[j]);
        }
    }
    lemma_key_index(s, e.len() as int);
    assert forall|k2: Seq<char>| k2 != k implies token_of(s, k2) == token_of(e, k2) by {
        if has_key(s, k2) {
            let i = key_index(s, k2);
            assert(i < e.len());
            assert(s[i] == e[i]);
            lemma_key_index(e, i);
        }
        if has_key(e, k2) {
            let i = key_index(e, k2);
            assert(s[i] == e[i]);
            lemma_key_index(s, i);
        }
    }
}

/// Starting a session twice under one key: the second start hands back the
/// first session's handle, to be cancelled before the second is installed;
/// afterwards the key is held once, by the second session, whose token
/// differs from the first's.
pub proof fn lemma_replace_twice(v: SessionTableView, key: Seq<char>)
    requires
        table_wf(v),
        v.next + 2 <= u64::MAX,
    ensures
        ({
            let (v1, _c1, t1) = begin_spec(v, key);
            let (v2, d1) = install_spec(v1, key, t1);
            let (v3, c2, t2) = begin_spec(v2, key);
            let (v4, d2) = install_spec(v3, key, t2);
            &&& d1 is None
            &&& c2 == Some(t1)
            &&& d2 is None
            &&& t1 != t2
            &&& token_of(v4.entries, key) == Some(t2)
            &&& table_wf(v4)
            &&& forall|k2: Seq<char>| k2 != key ==> token_of(v4.entries, k2) == token_of(
                v.entries,
                k2,
            )
        }),
{
    let (v1, _c1, t1) = begin_spec(v, key);
    lemma_without_key(v.entries, key, v.next);
    lemma_without_key(v.entries, key, v1.next);
    let (v2, d1) = install_spec(v1, key, t1);
    lemma_without_key(v1.entries, key, v1.next);
    assert(without_key(v1.entries, key) == v1.entries);
    lemma_push_key(v1.entries, key, t1, v1.next);
    let (v3, c2, t2) = begin_spec(v2, key);
    lemma_without_key(v2.entries, key, v2.next);
    lemma_without_key(v2.entries, key, v3.next);
    let (v4, d2) = install_spec(v3, key, t2);
    lemma_without_key(v3.entries, key, v3.next);
    assert(without_key(v3.entries, key) == v3.entries);
    lemma_push_key(v3.entries, key, t2, v3.next);
}

impl SessionTable {
    pub open spec fn wf(&self) -> bool {
        table_wf(self@)
    }

    /// An empty table.
    pub fn new() -> (r: SessionTable)
        ensures
            r.wf(),
            r@.entries == Seq::<EntryView>::empty(),
            r@.next == 0,
    {
        let r = SessionTable { entries: Vec::new(), next_token: 0 };
        assert(r@.entries =~= Seq::<EntryView>::empty());
        r
    }

    /// Number of running subscriptions.
    pub fn len(&self) -> (n: usize)
        ensures
            n == self@.entries.len(),
    {
        self.entries.len()
    }

    /// Whether no more tokens can be issued.
    pub fn exhausted(&self) -> (r: bool)
        ensures
            r == (self@.next == u64::MAX),
    {
        self.next_token == u64::MAX
    }

    fn find(&self, key: &str) -> (r: Option<usize>)
        requires
            self.wf(),
        ensures
            match r {
                Some(i) => has_key(self@.entries, key@) && i == key_index(self@.entries, key@)
                    && i < self@.entries.len(),
                None => !has_key(self@.entries, key@),
            },
    {
        let ghost e = self@.entries;
        let mut i: usize = 0;
        while i < self.entries.len()
            invariant
                self.wf(),
                e == self@.entries,
                0 <= i <= self.entries.len(),
                forall|j: int| 0 <= j < i ==> e[j].0 != key@,
            decreases self.entries.len() - i,
        {
            assert(e[i as int] == (self.entries@[i as int].key@, self.entries@[i as int].token));
            if str_eq(self.entries[i].key.as_str(), key) {
                proof {
                    lemma_key_index(e, i as int);
                }
                return Some(i);
            }
            i += 1;
        }
        None
    }

    /// The token of the handle that holds `key`.
    pub fn token_for(&self, key: &str) -> (r: Option<u64>)
        requires
            self.wf(),
        ensures
            r == token_of(self@.entries, key@),
    {
        match self.find(key) {
            Some(i) => {
                assert(self@.entries[i as int].1 == self.entries@[i as int].token);
                Some(self.entries[i].token)
            },
            None => None,
        }
    }

    /// Removes and returns the handle that holds `key`, if any: an explicit stop.
    pub fn remove(&mut self, key: &str) -> (r: Option<u64>)
        requires
            old(self).wf(),
        ensures
            final(self).wf(),
            r == token_of(old(self)@.entries, key@),
            final(self)@ == (SessionTableView {
                entries: without_key(old(self)@.entries, key@),
                next: old(self)@.next,
            }),
            token_of(final(self)@.entries, key@) is None,
            forall|k: Seq<char>|
                k != key@ ==> token_of(final(self)@.entries, k) == token_of(old(self)@.entries, k),
    {
        let ghost e = self@.entries;
        match self.find(key) {
            Some(i) => {
                let gone = self.entries.remove(i);
                proof {
                    lemma_without_key(e, key@, self.next_token);
                    assert(self@.entries =~= e.remove(i as int));
                }
                Some(gone.token)
            },
            None => None,
        }
    }

    /// Begins a replace: takes out the handle that holds `key`, which the
    /// caller cancels, and issues the token of the new handle.
    pub fn replace_begin(&mut self, key: &str) -> (r: (Option<u64>, u64))
        requires
            old(self).wf(),
            old(self)@.next < u64::MAX,
        ensures
            final(self).wf(),
            (final(self)@, r.0, r.1) == begin_spec(old(self)@, key@),
            token_of(final(self)@.entries, key@) is None,
            forall|k: Seq<char>|
                k != key@ ==> token_of(final(self)@.entries, k) == token_of(old(self)@.entries, k),
    {
        let ghost v = self@;
        let cancelled = self.remove(key);
        let token = self.next_token;
        self.next_token = self.next_token + 1;
        proof {
            lemma_without_key(v.entries, key@, self.next_token);
        }
        (cancelled, token)
    }

    /// Completes a replace: the new handle holds `key`. A handle that took
    /// the key meanwhile is returned, for the caller to cancel.
    pub fn install(&mut self, key: String, token: u64) -> (r: Option<u64>)
        requires
            old(self).wf(),
            token < old(self)@.next,
        ensures
            final(self).wf(),
            (final(self)@, r) == install_spec(old(self)@, key@, token),
            token_of(final(self)@.entries, key@) == Some(token),
            forall|k: Seq<char>|
                k != key@ ==> token_of(final(self)@.entries, k) == token_of(old(self)@.entries, k),
    {
        let ghost v = self@;
        let ghost k = key@;
        let displaced = self.remove(key.as_str());
        let ghost mid = self@.entries;
        self.entries.push(SessionEntry { key, token });
        proof {
            lemma_without_key(v.entries, k, v.next);
            lemma_push_key(mid, k, token, v.next);
            assert(self@.entries =~= mid.push((k, token)));
        }
        displaced
    }

    /// Self-deregistration of a finished session: its entry goes only if
    /// its own handle still holds the key. Returns whether it went.
    pub fn release(&mut self, key: &str, token: u64) -> (r: bool)
        requires
            old(self).wf(),
        ensures
            final(self).wf(),
            (final(self)@, r) == release_spec(old(self)@, key@, token),
            r ==> token_of(final(self)@.entries, key@) is None,
            forall|k: Seq<char>|
                k != key@ ==> token_of(final(self)@.entries, k) == token_of(old(self)@.entries, k),
    {
        match self.token_for(key) {
            Some(t) => {
                if t == token {
                    let _ = self.remove(key);
                    true
                } else {
                    false
                }
            },
            None => false,
        }
    }
}

/// Where a session stands.
#[derive(Debug, Clone, Copy, PartialEq, Eq, Structural)]
pub enum SessionPhase {
    /// Resolving its client.
    Starting,
    /// Pulling items from its subscription.
    Streaming,
    /// The subscription closed.
    Ended,
    /// Its cancellation signal fired.
    Cancelled,
    /// Connecting or reading failed.
    Errored,
}

/// What happened to a session.
#[derive(Debug)]
pub enum SessionEvent {
    /// Its client was resolved.
    Connected,
    /// Its client could not be resolved, for the given reason.
    ConnectFailed(String),
    /// The subscription produced an item.
    Item,
    /// The subscription closed.
    Closed,
    /// Reading the subscription failed, for the given reason.
    ReadFailed(String),
    /// The GUI channel no longer takes events.
    EmitFailed,
    /// Its cancellation signal fired.
    CancelRequested,
}

/// What the runner of a session does next.
#[derive(Debug)]
pub enum SessionAction {
    Nothing,
    /// Emit the item just pulled.
    Deliver,
    /// Leave the session table.
    Deregister,
    /// Emit a terminal error event with the given reason, then leave the
    /// session table.
    Fail(String),
}

pub open spec fn is_terminal(p: SessionPhase) -> bool {
    p is Ended || p is Cancelled || p is Errored
}

pub open spec fn deregisters(a: SessionAction) -> bool {
    a is Deregister || a is Fail
}

/// One transition of a session.
pub open spec fn step_spec(p: SessionPhase, e: SessionEvent) -> (SessionPhase, SessionAction) {
    if is_terminal(p) {
        (p, SessionAction::Nothing)
    } else {
        match e {
            SessionEvent::CancelRequested => (SessionPhase::Cancelled, SessionAction::Deregister),
            SessionEvent::ConnectFailed(m) => if p is Starting {
                (SessionPhase::Errored, SessionAction::Fail(m))
            } else {
                (p, SessionAction::Nothing)
            },
            SessionEvent::Connected => if p is Starting {
                (SessionPhase::Streaming, SessionAction::Nothing)
            } else {
                (p, SessionAction::Nothing)
            },
            SessionEvent::Item => if p is Streaming {
                (p, SessionAction::Deliver)
            } else {
                (p, SessionAction::Nothing)
            },
            SessionEvent::Closed => if p is Streaming {
                (SessionPhase::Ended, SessionAction::Deregister)
            } else {
                (p, SessionAction::Nothing)
            },
            SessionEvent::ReadFailed(m) => if p is Streaming {
                (SessionPhase::Errored, SessionAction::Fail(m))
            } else {
                (p, SessionAction::Nothing)
            },
            SessionEvent::EmitFailed => if p is Streaming {
                (SessionPhase::Ended, SessionAction::Deregister)
            } else {
                (p, SessionAction::Nothing)
            },
        }
    }
}

/// The first `n` events of a session, from `p`: the phase reached and the
/// actions taken, one per event.
pub open spec fn run_upto(p: SessionPhase, events: Seq<SessionEvent>, n: nat) -> (
    SessionPhase,
    Seq<SessionAction>,
)
    decreases n,
{
    if n == 0 {
        (p, Seq::empty())
    } else {
        let prev = run_upto(p, events, (n - 1) as nat);
        let s = step_spec(prev.0, events[n - 1]);
        (s.0, prev.1.push(s.1))
    }
}

/// How many of the actions leave the session table.
pub open spec fn count_deregisters(a: Seq<SessionAction>) -> nat
    decreases a.len(),
{
    if a.len() == 0 {
        0
    } else {
        count_deregisters(a.drop_last()) + if deregisters(a.last()) {
            1nat
        } else {
            0nat
        }
    }
}

/// A session leaves the session table exactly once if it has ended, in
/// whichever way, and never before.
pub proof fn lemma_deregisters_once(events: Seq<SessionEvent>, n: nat)
    requires
        n <= events.len(),
    ensures
        run_upto(SessionPhase::Starting, events, n).1.len() == n,
        count_deregisters(run_upto(SessionPhase::Starting, events, n).1) == if is_terminal(
            run_upto(SessionPhase::Starting, events, n).0,
        ) {
            1nat
        } else {
            0nat
        },
    decreases n,
{
    if n > 0 {
        lemma_deregisters_once(events, (n - 1) as nat);
        let prev = run_upto(SessionPhase::Starting, events, (n - 1) as nat);
        let acts = run_upto(SessionPhase::Starting, events, n).1;
        assert(acts.drop_last() =~= prev.1);
    }
}

proof fn lemma_run_prefix(p: SessionPhase, events: Seq<SessionEvent>, m: nat, n: nat)
    requires
        m <= n <= events.len(),
    ensures
        run_upto(p, events, n).1.len() == n,
        run_upto(p, events, n).1.subrange(0, m as int) == run_upto(p, events, m).1,
        is_terminal(run_upto(p, events, m).0) ==> run_upto(p, events, n).0 == run_upto(
            p,
            events,
            m,
        ).0,
    decreases n,
{
    if n > m {
        lemma_run_prefix(p, events, m, (n - 1) as nat);
        let prev = run_upto(p, events, (n - 1) as nat).1;
        let cur = run_upto(p, events, n).1;
        assert(cur.subrange(0, m as int) =~= prev.subrange(0, m as int));
    } else {
        lemma_run_len(p, events, n);
        assert(run_upto(p, events, n).1.subrange(0, m as int) =~= run_upto(p, events, m).1);
    }
}

proof fn lemma_run_len(p: SessionPhase, events: Seq<SessionEvent>, n: nat)
    requires
        n <= events.len(),
    ensures
        run_upto(p, events, n).1.len() == n,
    decreases n,
{
    if n > 0 {
        lemma_run_len(p, events, (n - 1) as nat);
    }
}

/// Once its cancellation signal has been taken, a session delivers no
/// further item.
pub proof fn lemma_no_delivery_after_cancel(events: Seq<SessionEvent>, i: int, j: int)
    requires
        0 <= i <= j < events.len(),
        events[i] is CancelRequested,
    ensures
        !(run_upto(SessionPhase::Starting, events, events.len()).1[j] is Deliver),
{
    let p = SessionPhase::Starting;
    let n = events.len() as nat;
    lemma_run_prefix(p, events, (j + 1) as nat, n);
    let before = run_upto(p, events, j as nat);
    lemma_run_len(p, events, j as nat);
    assert(run_upto(p, events, n).1[j] == run_upto(p, events, (j + 1) as nat).1[j]);
    assert(run_upto(p, events, (j + 1) as nat).1[j] == step_spec(before.0, events[j]).1);
    if j > i {
        lemma_run_prefix(p, events, (i + 1) as nat, j as nat);
        assert(is_terminal(run_upto(p, events, (i + 1) as nat).0));
        assert(is_terminal(before.0));
    }
}

/// Two sessions under one key stepping through one schedule: each event is
/// tagged `false` for the replaced session and `true` for its replacement.
/// Returns both phases after the first `n` events and each event's action,
/// tagged the same way.
pub open spec fn run_pair(events: Seq<(bool, SessionEvent)>, n: nat) -> (
    SessionPhase,
    SessionPhase,
    Seq<(bool, SessionAction)>,
)
    decreases n,
{
    if n == 0 {
        (SessionPhase::Starting, SessionPhase::Starting, Seq::empty())
    } else {
        let prev = run_pair(events, (n - 1) as nat);
        let e = events[n - 1];
        if e.0 {
            let s = step_spec(prev.1, e.1);
            (prev.0, s.0, prev.2.push((true, s.1)))
        } else {
            let s = step_spec(prev.0, e.1);
            (s.0, prev.1, prev.2.push((false, s.1)))
        }
    }
}

proof fn lemma_pair_len(events: Seq<(bool, SessionEvent)>, n: nat)
    requires
        n <= events.len(),
    ensures
        run_pair(events, n).2.len() == n,
    decreases n,
{
    if n > 0 {
        lemma_pair_len(events, (n - 1) as nat);
    }
}

proof fn lemma_pair_action(events: Seq<(bool, SessionEvent)>, n: nat, i: int)
    requires
        n <= events.len(),
        0 <= i < n,
    ensures
        run_pair(events, n).2[i] == run_pair(events, (i + 1) as nat).2[i],
    decreases n,
{
    lemma_pair_len(events, n);
    if n > i + 1 {
        lemma_pair_action(events, (n - 1) as nat, i);
        lemma_pair_len(events, (n - 1) as nat);
    }
}

proof fn lemma_pair_first_stays_terminal(events: Seq<(bool, SessionEvent)>, m: nat, n: nat)
    requires
        m <= n <= events.len(),
        is_terminal(run_pair(events, m).0),
    ensures
        is_terminal(run_pair(events, n).0),
    decreases n,
{
    if n > m {
        lemma_pair_first_stays_terminal(events, m, (n - 1) as nat);
    }
}

/// No interleaving across a replace: when the replaced session takes its
/// cancellation signal before its replacement sees any event, every item
/// the replaced session delivers comes before every item the replacement
/// delivers, however the two are scheduled.
pub proof fn lemma_replaced_session_delivers_first(
    events: Seq<(bool, SessionEvent)>,
    c: int,
    i: int,
    j: int,
)
    requires
        0 <= c < events.len(),
        !events[c].0 && events[c].1 is CancelRequested,
        forall|k: int| 0 <= k < events.len() && (#[trigger] events[k]).0 ==> k > c,
        0 <= i < events.len(),
        0 <= j < events.len(),
        !run_pair(events, events.len() as nat).2[i].0,
        run_pair(events, events.len() as nat).2[i].1 is Deliver,
        run_pair(events, events.len() as nat).2[j].0,
        run_pair(events, events.len() as nat).2[j].1 is Deliver,
    ensures
        i < c < j,
{
    let n = events.len() as nat;
    lemma_pair_action(events, n, i);
    lemma_pair_action(events, n, j);
    lemma_pair_len(events, i as nat);
    lemma_pair_len(events, j as nat);
    assert(run_pair(events, (j + 1) as nat).2[j].0 == events[j].0);
    assert(events[j].0);
    assert(run_pair(events, (i + 1) as nat).2[i].0 == events[i].0);
    lemma_pair_len(events, c as nat);
    let at_c = run_pair(events, (c + 1) as nat);
    assert(is_terminal(at_c.0));
    if i > c {
        lemma_pair_first_stays_terminal(events, (c + 1) as nat, i as nat);
        assert(is_terminal(run_pair(events, i as nat).0));
        assert(run_pair(events, (i + 1) as nat).2[i].1 == step_spec(
            run_pair(events, i as nat).0,
            events[i].1,
        ).1);
    }
}

/// One subscription's lifecycle.
#[derive(Debug)]
pub struct Session {
    key: String,
    token: u64,
    phase: SessionPhase,
}

impl Session {
    /// A session that is resolving its client.
    pub fn new(key: String, token: u64) -> (r: Session)
        ensures
            r.phase() == SessionPhase::Starting,
            r.key_view() == key@,
            r.token_view() == token,
    {
        Session { key, token, phase: SessionPhase::Starting }
    }

    pub closed spec fn phase(&self) -> SessionPhase {
        self.phase
    }

    pub closed spec fn key_view(&self) -> Seq<char> {
        self.key@
    }

    pub closed spec fn token_view(&self) -> u64 {
        self.token
    }

    /// The key of the subscription.
    pub fn key(&self) -> (r: &str)
        ensures
            r@ == self.key_view(),
    {
        self.key.as_str()
    }

    /// The token of the session's handle.
    pub fn token(&self) -> (r: u64)
        ensures
            r == self.token_view(),
    {
        self.token
    }

    /// Where the session stands.
    pub fn current_phase(&self) -> (r: SessionPhase)
        ensures
            r == self.phase(),
    {
        self.phase
    }

    /// Takes one event: moves the session on and says what to do.
    pub fn step(&mut self, event: SessionEvent) -> (r: SessionAction)
        ensures
            (final(self).phase(), r) == step_spec(old(self).phase(), event),
            final(self).key_view() == old(self).key_view(),
            final(self).token_view() == old(self).token_view(),
    {
        let p = self.phase;
        if p == SessionPhase::Ended || p == SessionPhase::Cancelled || p == SessionPhase::Errored {
            return SessionAction::Nothing;
        }
        let streaming = p == SessionPhase::Streaming;
        let starting = p == SessionPhase::Starting;
        match event {
            SessionEvent::CancelRequested => {
                self.phase = SessionPhase::Cancelled;
                SessionAction::Deregister
            },
            SessionEvent::ConnectFailed(m) => {
                if starting {
                    self.phase = SessionPhase::Errored;
                    SessionAction::Fail(m)
                } else {
                    SessionAction::Nothing
                }
            },
            SessionEvent::Connected => {
                if starting {
                    self.phase = SessionPhase::Streaming;
                }
                SessionAction::Nothing
            },
            SessionEvent::Item => {
                if streaming {
                    SessionAction::Deliver
                } else {
                    SessionAction::Nothing
                }
            },
            SessionEvent::Closed | SessionEvent::EmitFailed => {
                if streaming {
                    self.phase = SessionPhase::Ended;
                    SessionAction::Deregister
                } else {
                    SessionAction::Nothing
                }
            },
            SessionEvent::ReadFailed(m) => {
                if streaming {
                    self.phase = SessionPhase::Errored;
                    SessionAction::Fail(m)
                } else {
                    SessionAction::Nothing
                }
            },
        }
    }
}

/// The key of the pod watch of a cluster and namespace.
pub fn watch_key(cluster_id: &str, namespace: &str) -> (r: String)
    ensures
        r@ == "pod_watch:"@ + cluster_id@ + ":"@ + namespace@,
{
    let mut r = owned("pod_watch:");
    r.append(cluster_id);
    r.append(":");
    r.append(namespace);
    r
}

/// The key of a log tail.
pub fn log_key(stream_id: &str) -> (r: String)
    ensures
        r@ == "logs:"@ + stream_id@,
{
    let mut r = owned("logs:");
    r.append(stream_id);
    r
}

/// The GUI event name that carries the lines of a log tail.
pub fn log_event_name(stream_id: &str) -> (r: String)
    ensures
        r@ == "container_logs_"@ + stream_id@,
{
    let mut r = owned("container_logs_");
    r.append(stream_id);
    r
}

/// The namespace a watch is scoped to; `None` for `"all"`, every namespace.
pub fn watch_scope(namespace: &str) -> (r: Option<String>)
    ensures
        r is None <==> namespace@ == "all"@,
        r matches Some(n) ==> n@ == namespace@,
{
    if str_eq(namespace, "all") {
        None
    } else {
        Some(owned(namespace))
    }
}

/// The kinds of change notification that a resource watch reports.
#[derive(Debug, Clone, Copy, PartialEq, Eq, Structural)]
pub enum WatchNotification {
    /// An object was added or modified.
    Apply,
    /// An object listed while the watch (re)starts.
    InitApply,
    /// An object was deleted.
    Delete,
    /// The watch (re)starts listing.
    Init,
    /// The (re)start listing is complete.
    InitDone,
}

/// The GUI-facing event kinds of a resource watch.
#[derive(Debug, Clone, Copy, PartialEq, Eq, Structural)]
pub enum WatchEventKind {
    Added,
    Modified,
    Deleted,
}

/// The GUI event a notification maps to; unmodeled notifications are dropped.
pub fn map_notification(n: WatchNotification) -> (r: Option<WatchEventKind>)
    ensures
        r == match n {
            WatchNotification::Apply | WatchNotification::InitApply => Some(WatchEventKind::Added),
            WatchNotification::Delete => Some(WatchEventKind::Deleted),
            _ => None::<WatchEventKind>,
        },
{
    match n {
        WatchNotification::Apply | WatchNotification::InitApply => Some(WatchEventKind::Added),
        WatchNotification::Delete => Some(WatchEventKind::Deleted),
        _ => None,
    }
}

} // verus!
