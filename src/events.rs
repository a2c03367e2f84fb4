use vstd::prelude::*;

use crate::dto::K8sEventInfo;
use crate::text::{copy_opt, opt_view, owned, str_eq};

verus! {

/// A moment that the cluster reports: its instant and its text.
#[derive(Debug)]
pub struct EventTime {
    pub seconds: i64,
    pub nanos: u32,
    pub text: String,
}

/// A cluster event: the object it concerns and what the GUI shows of it.
#[derive(Debug)]
pub struct EventRecord {
    pub involved_name: Option<String>,
    pub involved_kind: Option<String>,
    pub involved_uid: Option<String>,
    pub event_type: Option<String>,
    pub reason: Option<String>,
    pub message: Option<String>,
    pub count: Option<i32>,
    pub first_timestamp: Option<EventTime>,
    pub last_timestamp: Option<EventTime>,
    pub source_component: Option<String>,
}

/// The mathematical value of a [`K8sEventInfo`].
pub ghost struct EventInfoView {
    pub event_type: Seq<char>,
    pub reason: Seq<char>,
    pub message: Seq<char>,
    pub count: i32,
    pub first_timestamp: Option<Seq<char>>,
    pub last_timestamp: Option<Seq<char>>,
    pub source: Seq<char>,
}

pub open spec fn info_view(i: K8sEventInfo) -> EventInfoView {
    EventInfoView {
        event_type: i.event_type@,
        reason: i.reason@,
        message: i.message@,
        count: i.count,
        first_timestamp: opt_view(i.first_timestamp),
        last_timestamp: opt_view(i.last_timestamp),
        source: i.source@,
    }
}

pub open spec fn time_text(t: Option<EventTime>) -> Option<Seq<char>> {
    match t {
        Some(x) => Some(x.text@),
        None => None,
    }
}

/// Where an event stands in time: an event without a time comes before
/// every event with one.
pub open spec fn time_key(t: Option<EventTime>) -> int {
    match t {
        Some(x) => x.seconds * 1_000_000_000 + x.nanos,
        None => i64::MIN * 1_000_000_000 - 1,
    }
}

pub open spec fn or_default(o: Option<String>, d: Seq<char>) -> Seq<char> {
    match o {
        Some(s) => s@,
        None => d,
    }
}

/// What the GUI shows of an event; missing fields read as a `Normal` type,
/// empty reason and message, a count of 1 and an `unknown` source.
pub open spec fn info_of(e: EventRecord) -> EventInfoView {
    EventInfoView {
        event_type: or_default(e.event_type, "Normal"@),
        reason: or_default(e.reason, Seq::empty()),
        message: or_default(e.message, Seq::empty()),
        count: match e.count {
            Some(c) => c,
            None => 1,
        },
        first_timestamp: time_text(e.first_timestamp),
        last_timestamp: time_text(e.last_timestamp),
        source: or_default(e.source_component, "unknown"@),
    }
}

/// The event concerns the object of the given kind and name and, when a
/// uid is given, that uid; `absent_uid_matches` says whether an event that
/// names no uid is taken.
pub open spec fn concerns(
    e: EventRecord,
    kind: Seq<char>,
    name: Seq<char>,
    uid: Option<Seq<char>>,
    absent_uid_matches: bool,
) -> bool {
    &&& opt_view(e.involved_name) == Some(name)
    &&& opt_view(e.involved_kind) == Some(kind)
    &&& match uid {
        Some(u) => match e.involved_uid {
            Some(x) => x@ == u,
            None => absent_uid_matches,
        },
        None => true,
    }
}

/// `x` placed after every entry whose key is at least its own: a stable
/// insertion, newest first.
pub open spec fn insert_newest_first(s: Seq<(int, EventInfoView)>, x: (int, EventInfoView)) -> Seq<
    (int, EventInfoView),
>
    decreases s.len(),
{
    if s.len() == 0 {
        seq![x]
    } else if s[0].0 < x.0 {
        seq![x] + s
    } else {
        seq![s[0]] + insert_newest_first(s.drop_first(), x)
    }
}

/// The first `n` events that concern the object, newest first, events of
/// one instant in their given order; each with its time key.
pub open spec fn select_upto(
    events: Seq<EventRecord>,
    kind: Seq<char>,
    name: Seq<char>,
    uid: Option<Seq<char>>,
    absent_uid_matches: bool,
    n: nat,
) -> Seq<(int, EventInfoView)>
    decreases n,
{
    if n == 0 {
        Seq::empty()
    } else {
        let prev = select_upto(events, kind, name, uid, absent_uid_matches, (n - 1) as nat);
        let e = events[n - 1];
        if concerns(e, kind, name, uid, absent_uid_matches) {
            insert_newest_first(prev, (time_key(e.last_timestamp), info_of(e)))
        } else {
            prev
        }
    }
}

/// The events that concern the object, newest first.
pub open spec fn select_events(
    events: Seq<EventRecord>,
    kind: Seq<char>,
    name: Seq<char>,
    uid: Option<Seq<char>>,
    absent_uid_matches: bool,
) -> Seq<EventInfoView> {
    select_upto(events, kind, name, uid, absent_uid_matches, events.len()).map_values(
        |p: (int, EventInfoView)| p.1,
    )
}

proof fn lemma_insert_at(s: Seq<(int, EventInfoView)>, x: (int, EventInfoView), p: int)
    requires
        0 <= p <= s.len(),
        forall|i: int| 0 <= i < p ==> s[i].0 >= x.0,
        p < s.len() ==> s[p].0 < x.0,
    ensures
        insert_newest_first(s, x) == s.insert(p, x),
    decreases p,
{
    if p == 0 {
        if s.len() == 0 {
            assert(s.insert(0, x) =~= seq![x]);
        } else {
            assert(s.insert(0, x) =~= seq![x] + s);
        }
    } else {
        let t = s.drop_first();
        assert forall|i: int| 0 <= i < p - 1 implies t[i].0 >= x.0 by {
            assert(t[i] == s[i + 1]);
        }
        if p < s.len() {
            assert(t[p - 1] == s[p]);
        }
        lemma_insert_at(t, x, p - 1);
        assert(s.insert(p, x) =~= seq![s[0]] + t.insert(p - 1, x));
    }
}

fn opt_text(o: &Option<String>, default: &str) -> (r: String)
    ensures
        r@ == or_default(*o, default@),
{
    match o {
        Some(s) => s.clone(),
        None => owned(default),
    }
}

fn opt_eq(o: &Option<String>, v: &str) -> (r: bool)
    ensures
        r == (opt_view(*o) == Some(v@)),
{
    match o {
        Some(s) => str_eq(s.as_str(), v),
        None => false,
    }
}

fn time_text_of(t: &Option<EventTime>) -> (r: Option<String>)
    ensures
        opt_view(r) == time_text(*t),
{
    match t {
        Some(x) => Some(x.text.clone()),
        None => None,
    }
}

fn time_key_of(t: &Option<EventTime>) -> (r: i128)
    ensures
        r == time_key(*t),
{
    match t {
        Some(x) => x.seconds as i128 * 1_000_000_000 + x.nanos as i128,
        None => i64::MIN as i128 * 1_000_000_000 - 1,
    }
}

fn concerns_exec(
    e: &EventRecord,
    kind: &str,
    name: &str,
    uid: Option<&str>,
    absent_uid_matches: bool,
) -> (r: bool)
    ensures
        r == concerns(
            *e,
            kind@,
            name@,
            match uid {
                Some(u) => Some(u@),
                None => None,
            },
            absent_uid_matches,
        ),
{
    if !opt_eq(&e.involved_name, name) || !opt_eq(&e.involved_kind, kind) {
        return false;
    }
    match uid {
        Some(u) => match &e.involved_uid {
            Some(x) => str_eq(x.as_str(), u),
            None => absent_uid_matches,
        },
        None => true,
    }
}

fn info_exec(e: &EventRecord) -> (r: K8sEventInfo)
    ensures
        info_view(r) == info_of(*e),
{
    proof {
        reveal_strlit("Normal");
        reveal_strlit("");
        reveal_strlit("unknown");
    }
    let r = K8sEventInfo {
        event_type: opt_text(&e.event_type, "Normal"),
        reason: opt_text(&e.reason, ""),
        message: opt_text(&e.message, ""),
        count: match e.count {
            Some(c) => c,
            None => 1,
        },
        first_timestamp: time_text_of(&e.first_timestamp),
        last_timestamp: time_text_of(&e.last_timestamp),
        source: opt_text(&e.source_component, "unknown"),
    };
    assert(""@ =~= Seq::<char>::empty());
    r
}

/// The events that concern the object of the given kind, name and uid,
/// newest first.
fn select(
    events: &Vec<EventRecord>,
    kind: &str,
    name: &str,
    uid: Option<&str>,
    absent_uid_matches: bool,
) -> (r: Vec<K8sEventInfo>)
    ensures
        r@.map_values(|i: K8sEventInfo| info_view(i)) == select_events(
            events@,
            kind@,
            name@,
            match uid {
                Some(u) => Some(u@),
                None => None,
            },
            absent_uid_matches,
        ),
{
    let ghost uv = match uid {
        Some(u) => Some(u@),
        None => None,
    };
    let mut keys: Vec<i128> = Vec::new();
    let mut out: Vec<K8sEventInfo> = Vec::new();
    let mut k: usize = 0;
    while k < events.len()
        invariant
            0 <= k <= events.len(),
            keys.len() == out.len(),
            uv == match uid {
                Some(u) => Some(u@),
                None => None::<Seq<char>>,
            },
            forall|i: int|
                0 <= i < out.len() ==> (keys@[i] as int, info_view(#[trigger] out@[i]))
                    == select_upto(events@, kind@, name@, uv, absent_uid_matches, k as nat)[i],
            out.len() == select_upto(events@, kind@, name@, uv, absent_uid_matches, k as nat).len(),
        decreases events.len() - k,
    {
        let e = &events[k];
        let ghost prev = select_upto(events@, kind@, name@, uv, absent_uid_matches, k as nat);
        if concerns_exec(e, kind, name, uid, absent_uid_matches) {
            let key = time_key_of(&e.last_timestamp);
            let info = info_exec(e);
            let ghost x = (key as int, info_view(info));
            let mut p: usize = 0;
            while p < keys.len() && keys[p] >= key
                invariant
                    0 <= p <= keys.len(),
                    keys.len() == out.len(),
                    forall|i: int| 0 <= i < p ==> keys@[i] >= key,
                decreases keys.len() - p,
            {
                p += 1;
            }
            proof {
                assert forall|i: int| 0 <= i < p implies prev[i].0 >= x.0 by {
                    assert((keys@[i] as int, info_view(out@[i])) == prev[i]);
                }
                if p < prev.len() {
                    assert((keys@[p as int] as int, info_view(out@[p as int])) == prev[p as int]);
                }
                lemma_insert_at(prev, x, p as int);
            }
            let ghost old_keys = keys@;
            let ghost old_out = out@;
            keys.insert(p, key);
            out.insert(p, info);
            proof {
                let cur = select_upto(events@, kind@, name@, uv, absent_uid_matches, (k + 1) as nat);
                assert(cur == prev.insert(p as int, x));
                assert forall|i: int| 0 <= i < out.len() implies (keys@[i] as int, info_view(
                    #[trigger] out@[i],
                )) == cur[i] by {
                    if i < p {
                        assert(keys@[i] == old_keys[i] && out@[i] == old_out[i]);
                        assert((old_keys[i] as int, info_view(old_out[i])) == prev[i]);
                    } else if i > p {
                        assert(keys@[i] == old_keys[i - 1] && out@[i] == old_out[i - 1]);
                        assert((old_keys[i - 1] as int, info_view(old_out[i - 1])) == prev[i - 1]);
                    }
                }
            }
        }
        k += 1;
    }
    proof {
        let all = select_upto(events@, kind@, name@, uv, absent_uid_matches, events.len() as nat);
        assert(out@.map_values(|i: K8sEventInfo| info_view(i)) =~= all.map_values(
            |p: (int, EventInfoView)| p.1,
        ));
    }
    out
}

/// The events of a deployment, newest first: those that concern the
/// deployment of that name and, when a uid is given, of that uid.
pub fn filter_deployment_events(
    events: Vec<EventRecord>,
    deployment_name: &str,
    deployment_uid: Option<&str>,
) -> (r: Vec<K8sEventInfo>)
    ensures
        r@.map_values(|i: K8sEventInfo| info_view(i)) == select_events(
            events@,
            "Deployment"@,
            deployment_name@,
            match deployment_uid {
                Some(u) => Some(u@),
                None => None,
            },
            false,
        ),
{
    select(&events, "Deployment", deployment_name, deployment_uid, false)
}

/// The events of a stateful set, newest first: those that concern the
/// stateful set of that name and, when a uid is given, of that uid or of
/// no uid.
pub fn filter_statefulset_events(
    events: Vec<EventRecord>,
    statefulset_name: &str,
    statefulset_uid: Option<&str>,
) -> (r: Vec<K8sEventInfo>)
    ensures
        r@.map_values(|i: K8sEventInfo| info_view(i)) == select_events(
            events@,
            "StatefulSet"@,
            statefulset_name@,
            match statefulset_uid {
                Some(u) => Some(u@),
                None => None,
            },
            true,
        ),
{
    select(&events, "StatefulSet", statefulset_name, statefulset_uid, true)
}

} // verus!
