use vstd::prelude::*;

use crate::discovery::{DiscoveredContext, DiscoveredView};
use crate::paths::{
    check_plain_name, credential_file_path, credential_file_spec, is_canonical, is_plain_name,
    lemma_join_plain, strictly_inside,
};
use crate::text::{copy_opt, opt_view, owned, str_eq};

verus! {

#[verifier::external_type_specification]
#[verifier::external_body]
pub struct ExNamedCluster(kube::config::NamedCluster);

#[verifier::external_type_specification]
#[verifier::external_body]
pub struct ExNamedAuthInfo(kube::config::NamedAuthInfo);

#[verifier::external_type_specification]
#[verifier::external_body]
pub struct ExNamedContext(kube::config::NamedContext);

#[verifier::external_type_specification]
#[verifier::external_body]
pub struct ExKubeconfigError(kube::config::KubeconfigError);

#[verifier::external_type_specification]
#[verifier::external_body]
pub struct ExYamlError(serde_yaml::Error);

/// What a context links: its cluster, its user and its default namespace.
#[derive(Debug)]
pub struct ContextLink {
    pub cluster: String,
    pub user: Option<String>,
    pub namespace: Option<String>,
}

pub type LinkView = (Seq<char>, Option<Seq<char>>, Option<Seq<char>>);

pub open spec fn link_view(l: Option<ContextLink>) -> Option<LinkView> {
    match l {
        Some(x) => Some((x.cluster@, opt_view(x.user), opt_view(x.namespace))),
        None => None,
    }
}

/// A multi-context credential bundle: its named clusters, users and
/// contexts, each entry beside its name, and the contexts' links.
#[derive(Debug)]
pub struct Bundle {
    clusters: Vec<kube::config::NamedCluster>,
    cluster_names: Vec<String>,
    users: Vec<kube::config::NamedAuthInfo>,
    user_names: Vec<String>,
    contexts: Vec<kube::config::NamedContext>,
    context_names: Vec<String>,
    links: Vec<Option<ContextLink>>,
    current_context: Option<String>,
}

/// The mathematical value of a [`Bundle`].
pub ghost struct BundleView {
    pub clusters: Seq<kube::config::NamedCluster>,
    pub cluster_names: Seq<Seq<char>>,
    pub users: Seq<kube::config::NamedAuthInfo>,
    pub user_names: Seq<Seq<char>>,
    pub contexts: Seq<kube::config::NamedContext>,
    pub context_names: Seq<Seq<char>>,
    pub links: Seq<Option<LinkView>>,
    pub current_context: Option<Seq<char>>,
}

impl View for Bundle {
    type V = BundleView;

    closed spec fn view(&self) -> BundleView {
        BundleView {
            clusters: self.clusters@,
            cluster_names: self.cluster_names@.map_values(|s: String| s@),
            users: self.users@,
            user_names: self.user_names@.map_values(|s: String| s@),
            contexts: self.contexts@,
            context_names: self.context_names@.map_values(|s: String| s@),
            links: self.links@.map_values(|l: Option<ContextLink>| link_view(l)),
            current_context: opt_view(self.current_context),
        }
    }
}

/// Each entry stands beside its name.
pub open spec fn bundle_wf(b: BundleView) -> bool {
    &&& b.clusters.len() == b.cluster_names.len()
    &&& b.users.len() == b.user_names.len()
    &&& b.contexts.len() == b.context_names.len()
    &&& b.links.len() == b.context_names.len()
}

/// What the text of a bundle fixes: its cluster, user and context names,
/// the contexts' links and the current context.
pub ghost struct NamesView {
    pub cluster_names: Seq<Seq<char>>,
    pub user_names: Seq<Seq<char>>,
    pub context_names: Seq<Seq<char>>,
    pub links: Seq<Option<LinkView>>,
    pub current_context: Option<Seq<char>>,
}

pub open spec fn names_view(b: BundleView) -> NamesView {
    NamesView {
        cluster_names: b.cluster_names,
        user_names: b.user_names,
        context_names: b.context_names,
        links: b.links,
        current_context: b.current_context,
    }
}

/// The names and links of the bundle that a kubeconfig text parses to, if
/// it parses.
pub uninterp spec fn parsed_names(text: Seq<char>) -> Option<NamesView>;

/// Relies on kube::config::Kubeconfig::from_yaml, which parses a kubeconfig
/// text (merging its documents). Whether it parses, and the names and links
/// it holds, depend on the text alone; the entries themselves hold maps and
/// are not a function of the text. Each entry is handed out beside its
/// name, each context beside its links.
#[verifier::external_body]
fn parse_bundle(text: &str) -> (r: Result<Bundle, kube::config::KubeconfigError>)
    ensures
        match r {
            Ok(b) => parsed_names(text@) == Some(names_view(b@)) && bundle_wf(b@),
            Err(_) => parsed_names(text@) is None,
        },
{
    let kc = kube::config::Kubeconfig::from_yaml(text)?;
    Ok(Bundle {
        cluster_names: kc.clusters.iter().map(|c| c.name.clone()).collect(),
        user_names: kc.auth_infos.iter().map(|u| u.name.clone()).collect(),
        context_names: kc.contexts.iter().map(|c| c.name.clone()).collect(),
        links: kc.contexts.iter().map(|c| c.context.as_ref().map(|x| ContextLink {
            cluster: x.cluster.clone(), user: x.user.clone(), namespace: x.namespace.clone(),
        })).collect(),
        clusters: kc.clusters, users: kc.auth_infos, contexts: kc.contexts,
        current_context: kc.current_context,
    })
}

/// Relies on serde_yaml::to_string over a kube::config::Kubeconfig that holds
/// the bundle's entries and current context. It fails only on bytes, nested
/// enums or invalid UTF-8, none of which a kubeconfig's entries hold. The
/// text is not a function of the entries: maps in a user entry are written
/// in the order they are walked.
#[verifier::external_body]
fn render_bundle(b: &Bundle) -> (r: Result<String, serde_yaml::Error>)
    ensures
        r is Ok,
{
    let kc = kube::config::Kubeconfig {
        clusters: b.clusters.clone(), auth_infos: b.users.clone(), contexts: b.contexts.clone(),
        current_context: b.current_context.clone(), ..Default::default()
    };
    serde_yaml::to_string(&kc)
}

/// `i` is the first position that holds `n`.
pub open spec fn is_first(names: Seq<Seq<char>>, n: Seq<char>, i: int) -> bool {
    &&& 0 <= i < names.len()
    &&& names[i] == n
    &&& forall|j: int| 0 <= j < i ==> names[j] != n
}

pub open spec fn contains_name(names: Seq<Seq<char>>, n: Seq<char>) -> bool {
    exists|i: int| 0 <= i < names.len() && names[i] == n
}

/// The first position that holds `n` (meaningful when `contains_name`).
pub open spec fn first_of(names: Seq<Seq<char>>, n: Seq<char>) -> int {
    choose|i: int| is_first(names, n, i)
}

proof fn lemma_first_unique(names: Seq<Seq<char>>, n: Seq<char>, i: int)
    requires
        is_first(names, n, i),
    ensures
        first_of(names, n) == i,
{
    let k = first_of(names, n);
    assert(is_first(names, n, k));
    if k < i {
        assert(names[k] != n);
    } else if i < k {
        assert(names[i] != n);
    }
}

/// The position of the first name equal to `n`.
fn find_name(names: &Vec<String>, n: &str) -> (r: Option<usize>)
    ensures
        match r {
            Some(i) => is_first(names@.map_values(|s: String| s@), n@, i as int) && first_of(
                names@.map_values(|s: String| s@),
                n@,
            ) == i,
            None => !contains_name(names@.map_values(|s: String| s@), n@),
        },
{
    let ghost v = names@.map_values(|s: String| s@);
    let mut i: usize = 0;
    while i < names.len()
        invariant
            0 <= i <= names.len(),
            v == names@.map_values(|s: String| s@),
            forall|j: int| 0 <= j < i ==> v[j] != n@,
        decreases names.len() - i,
    {
        assert(v[i as int] == names@[i as int]@);
        if str_eq(names[i].as_str(), n) {
            proof {
                lemma_first_unique(v, n@, i as int);
            }
            return Some(i);
        }
        i += 1;
    }
    None
}

/// Why a context could not be isolated.
#[derive(Debug, Clone, Copy, PartialEq, Eq, Structural)]
pub enum ImportFailure {
    /// The bundle does not parse.
    Parse,
    /// No context has the requested name.
    ContextNotFound,
    /// The context links nothing.
    ContextWithoutLinks,
    /// No cluster has the name that the context links.
    ClusterNotFound,
    /// The context links no user.
    ContextWithoutUser,
    /// No user has the name that the context links.
    UserNotFound,
    /// The cluster id is not a plain file name.
    InvalidClusterId,
    /// The isolated document did not serialize.
    Serialize,
    /// The document names no current context.
    NoCurrentContext,
}

/// The phrase that a message about a failure starts with.
pub open spec fn failure_phrase(k: ImportFailure) -> Seq<char> {
    match k {
        ImportFailure::Parse => "Failed to read kubeconfig: "@,
        ImportFailure::ContextNotFound => "Context not found: "@,
        ImportFailure::ContextWithoutLinks => "Context has no context field: "@,
        ImportFailure::ClusterNotFound => "Cluster not found: "@,
        ImportFailure::ContextWithoutUser => "Context has no user: "@,
        ImportFailure::UserNotFound => "User not found: "@,
        ImportFailure::InvalidClusterId => "Invalid cluster id: "@,
        ImportFailure::Serialize => "Failed to serialize kubeconfig: "@,
        ImportFailure::NoCurrentContext => "No current context in kubeconfig: "@,
    }
}

/// An import failure and the name or reason it concerns.
#[derive(Debug)]
pub struct ImportError {
    pub kind: ImportFailure,
    pub detail: String,
}

impl ImportError {
    fn new(kind: ImportFailure, detail: &str) -> (r: ImportError)
        ensures
            r.kind == kind,
    {
        ImportError { kind, detail: owned(detail) }
    }

    /// A message for the user: a phrase for the kind of failure, then the
    /// detail.
    pub fn message(&self) -> (r: String)
        ensures
            r@ == failure_phrase(self.kind) + self.detail@,
    {
        let prefix = match self.kind {
            ImportFailure::Parse => "Failed to read kubeconfig: ",
            ImportFailure::ContextNotFound => "Context not found: ",
            ImportFailure::ContextWithoutLinks => "Context has no context field: ",
            ImportFailure::ClusterNotFound => "Cluster not found: ",
            ImportFailure::ContextWithoutUser => "Context has no user: ",
            ImportFailure::UserNotFound => "User not found: ",
            ImportFailure::InvalidClusterId => "Invalid cluster id: ",
            ImportFailure::Serialize => "Failed to serialize kubeconfig: ",
            ImportFailure::NoCurrentContext => "No current context in kubeconfig: ",
        };
        let mut m = owned(prefix);
        m.append(self.detail.as_str());
        m
    }
}

/// The names of the single-context bundle for the named context: that
/// context, the first cluster and the first user it links, and it as
/// current context.
pub open spec fn isolate_names(n: NamesView, name: Seq<char>) -> Result<NamesView, ImportFailure> {
    if !contains_name(n.context_names, name) {
        Err(ImportFailure::ContextNotFound)
    } else {
        let xi = first_of(n.context_names, name);
        match n.links[xi] {
            None => Err(ImportFailure::ContextWithoutLinks),
            Some((cluster, user, namespace)) => if !contains_name(n.cluster_names, cluster) {
                Err(ImportFailure::ClusterNotFound)
            } else {
                match user {
                    None => Err(ImportFailure::ContextWithoutUser),
                    Some(u) => if !contains_name(n.user_names, u) {
                        Err(ImportFailure::UserNotFound)
                    } else {
                        Ok(
                            NamesView {
                                cluster_names: seq![cluster],
                                user_names: seq![u],
                                context_names: seq![name],
                                links: seq![n.links[xi]],
                                current_context: Some(name),
                            },
                        )
                    },
                }
            },
        }
    }
}

/// The single-context bundle for the named context: its names as
/// `isolate_names` gives them, each beside the first entry of that name.
pub open spec fn isolate_spec(b: BundleView, name: Seq<char>) -> Result<BundleView, ImportFailure> {
    match isolate_names(names_view(b), name) {
        Err(e) => Err(e),
        Ok(d) => {
            let xi = first_of(b.context_names, name);
            let ci = first_of(b.cluster_names, d.cluster_names[0]);
            let ui = first_of(b.user_names, d.user_names[0]);
            Ok(
                BundleView {
                    clusters: seq![b.clusters[ci]],
                    cluster_names: d.cluster_names,
                    users: seq![b.users[ui]],
                    user_names: d.user_names,
                    contexts: seq![b.contexts[xi]],
                    context_names: d.context_names,
                    links: d.links,
                    current_context: d.current_context,
                },
            )
        },
    }
}

/// An isolated bundle holds exactly one context, one cluster and one user,
/// and its current context is the requested one.
pub proof fn lemma_isolated_single_context(b: BundleView, name: Seq<char>)
    requires
        bundle_wf(b),
    ensures
        isolate_spec(b, name) matches Ok(d) ==> {
            &&& bundle_wf(d)
            &&& d.contexts.len() == 1
            &&& d.clusters.len() == 1
            &&& d.users.len() == 1
            &&& d.context_names == seq![name]
            &&& d.current_context == Some(name)
        },
{
}

fn copy_link(l: &Option<ContextLink>) -> (r: Option<ContextLink>)
    ensures
        link_view(r) == link_view(*l),
{
    match l {
        Some(x) => Some(
            ContextLink {
                cluster: x.cluster.clone(),
                user: copy_opt(&x.user),
                namespace: copy_opt(&x.namespace),
            },
        ),
        None => None,
    }
}

/// Keeps only the named context of a bundle, with the cluster and user it
/// links, and makes it the current context.
pub fn isolate_context(b: Bundle, context_name: &str) -> (r: Result<Bundle, ImportError>)
    requires
        bundle_wf(b@),
    ensures
        match r {
            Ok(d) => isolate_spec(b@, context_name@) == Ok::<BundleView, ImportFailure>(d@),
            Err(e) => isolate_spec(b@, context_name@) == Err::<BundleView, ImportFailure>(e.kind),
        },
{
    let ghost bv = b@;
    let mut b = b;
    let xi = match find_name(&b.context_names, context_name) {
        Some(i) => i,
        None => {
            return Err(ImportError::new(ImportFailure::ContextNotFound, context_name));
        },
    };
    assert(bv.links[xi as int] == link_view(b.links@[xi as int]));
    let link = match copy_link(&b.links[xi]) {
        Some(l) => l,
        None => {
            return Err(ImportError::new(ImportFailure::ContextWithoutLinks, context_name));
        },
    };
    let ci = match find_name(&b.cluster_names, link.cluster.as_str()) {
        Some(i) => i,
        None => {
            return Err(ImportError::new(ImportFailure::ClusterNotFound, link.cluster.as_str()));
        },
    };
    let user = match &link.user {
        Some(u) => u.clone(),
        None => {
            return Err(ImportError::new(ImportFailure::ContextWithoutUser, context_name));
        },
    };
    let ui = match find_name(&b.user_names, user.as_str()) {
        Some(i) => i,
        None => {
            return Err(ImportError::new(ImportFailure::UserNotFound, user.as_str()));
        },
    };
    let cluster_name = link.cluster.clone();
    let cluster = b.clusters.remove(ci);
    let auth = b.users.remove(ui);
    let context = b.contexts.remove(xi);
    let out = Bundle {
        clusters: vec![cluster],
        cluster_names: vec![cluster_name],
        users: vec![auth],
        user_names: vec![user],
        contexts: vec![context],
        context_names: vec![owned(context_name)],
        links: vec![Some(link)],
        current_context: Some(owned(context_name)),
    };
    proof {
        let expected = isolate_spec(bv, context_name@);
        let d = out@;
        assert(d.cluster_names =~= expected->Ok_0.cluster_names);
        assert(d.user_names =~= expected->Ok_0.user_names);
        assert(d.context_names =~= expected->Ok_0.context_names);
        assert(d.clusters =~= expected->Ok_0.clusters);
        assert(d.users =~= expected->Ok_0.users);
        assert(d.contexts =~= expected->Ok_0.contexts);
        assert(d.links =~= expected->Ok_0.links);
    }
    Ok(out)
}

/// The contexts of a bundle that link something, in order, each with the
/// given source file: `n` is how many of the bundle's contexts are read.
pub open spec fn discovered_upto(b: NamesView, source: Seq<char>, n: nat) -> Seq<DiscoveredView>
    decreases n,
{
    if n == 0 {
        Seq::empty()
    } else {
        let prev = discovered_upto(b, source, (n - 1) as nat);
        match b.links[n - 1] {
            Some((cluster, user, namespace)) => prev.push(
                DiscoveredView {
                    context_name: b.context_names[n - 1],
                    cluster_name: cluster,
                    user_name: match user {
                        Some(u) => u,
                        None => Seq::empty(),
                    },
                    namespace,
                    source_file: source,
                },
            ),
            None => prev,
        }
    }
}

/// The contexts of a bundle that link something.
pub open spec fn discovered_in(b: NamesView, source: Seq<char>) -> Seq<DiscoveredView> {
    discovered_upto(b, source, b.context_names.len())
}

/// The contexts of a parsed bundle, each with the given source file.
pub fn contexts_of_bundle(b: &Bundle, source_file: &str) -> (r: Vec<DiscoveredContext>)
    requires
        bundle_wf(b@),
    ensures
        r@.map_values(|d: DiscoveredContext| d@) == discovered_in(names_view(b@), source_file@),
{
    let ghost bv = b@;
    let mut out: Vec<DiscoveredContext> = Vec::new();
    let mut k: usize = 0;
    while k < b.context_names.len()
        invariant
            bv == b@,
            bundle_wf(bv),
            0 <= k <= b.context_names.len(),
            out@.map_values(|d: DiscoveredContext| d@) == discovered_upto(names_view(bv), source_file@, k as nat),
        decreases b.context_names.len() - k,
    {
        assert(bv.links[k as int] == link_view(b.links@[k as int]));
        assert(bv.context_names[k as int] == b.context_names@[k as int]@);
        let ghost prev = out@;
        match &b.links[k] {
            Some(link) => {
                let d = DiscoveredContext {
                    context_name: b.context_names[k].clone(),
                    cluster_name: link.cluster.clone(),
                    user_name: match &link.user {
                        Some(u) => u.clone(),
                        None => String::new(),
                    },
                    namespace: copy_opt(&link.namespace),
                    source_file: owned(source_file),
                };
                out.push(d);
                proof {
                    let a = out@.map_values(|d: DiscoveredContext| d@);
                    let e = discovered_upto(names_view(bv), source_file@, (k + 1) as nat);
                    assert forall|i: int| 0 <= i < a.len() implies a[i] == e[i] by {
                        if i < prev.len() {
                            assert(out@[i] == prev[i]);
                        }
                    }
                    assert(a =~= e);
                }
            },
            None => {},
        }
        k += 1;
    }
    out
}

/// Discovers the contexts of one credential bundle, read from
/// `source_file`: each context that links something, in order. A text that
/// does not parse is an error.
pub fn discover_contexts_in_file(source_file: &str, text: &str) -> (r: Result<
    Vec<DiscoveredContext>,
    ImportError,
>)
    ensures
        r is Err <==> parsed_names(text@) is None,
        r matches Err(e) ==> e.kind == ImportFailure::Parse,
        r matches Ok(v) ==> parsed_names(text@) matches Some(b) && v@.map_values(
            |d: DiscoveredContext| d@,
        ) == discovered_in(b, source_file@),
{
    match parse_bundle(text) {
        Ok(b) => Ok(contexts_of_bundle(&b, source_file)),
        Err(_) => Err(ImportError::new(ImportFailure::Parse, source_file)),
    }
}

/// An isolated credential document, its YAML text and where it belongs in
/// the vault.
#[derive(Debug)]
pub struct ExtractedContext {
    pub config_path: String,
    pub document: Bundle,
    pub yaml: String,
}

/// Isolates the named context of a credential bundle for the cluster
/// `cluster_id`: the single-context document, its YAML text, and its file
/// `<kubeconfigs_dir>/<cluster_id>.yaml`. Succeeds exactly when the id is a
/// plain file name, the text parses and the context can be isolated.
pub fn extract_context(
    source_text: &str,
    context_name: &str,
    cluster_id: &str,
    kubeconfigs_dir: &str,
) -> (r: Result<ExtractedContext, ImportError>)
    ensures
        r is Ok <==> (is_plain_name(cluster_id@) && (parsed_names(source_text@) matches Some(n)
            && isolate_names(n, context_name@) is Ok)),
        r matches Ok(x) ==> {
            &&& parsed_names(source_text@) matches Some(n)
            &&& isolate_names(n, context_name@) == Ok::<NamesView, ImportFailure>(
                names_view(x.document@),
            )
            &&& bundle_wf(x.document@)
            &&& x.document@.contexts.len() == 1
            &&& x.document@.clusters.len() == 1
            &&& x.document@.users.len() == 1
            &&& x.document@.current_context == Some(context_name@)
            &&& x.config_path@ == credential_file_spec(kubeconfigs_dir@, cluster_id@)
            &&& is_canonical(kubeconfigs_dir@) ==> is_canonical(x.config_path@) && strictly_inside(
                kubeconfigs_dir@,
                x.config_path@,
            )
        },
        r matches Err(e) ==> {
            ||| !is_plain_name(cluster_id@) && e.kind == ImportFailure::InvalidClusterId
            ||| is_plain_name(cluster_id@) && parsed_names(source_text@) is None && e.kind
                == ImportFailure::Parse
            ||| is_plain_name(cluster_id@) && (parsed_names(source_text@) matches Some(n)
                && isolate_names(n, context_name@) == Err::<NamesView, ImportFailure>(e.kind))
        },
{
    if !check_plain_name(cluster_id) {
        return Err(ImportError::new(ImportFailure::InvalidClusterId, cluster_id));
    }
    let b = match parse_bundle(source_text) {
        Ok(b) => b,
        Err(_) => {
            return Err(ImportError::new(ImportFailure::Parse, context_name));
        },
    };
    let ghost bv = b@;
    let document = match isolate_context(b, context_name) {
        Ok(d) => d,
        Err(e) => {
            return Err(e);
        },
    };
    proof {
        lemma_isolated_single_context(bv, context_name@);
        let file = cluster_id@ + seq!['.', 'y', 'a', 'm', 'l'];
        assert forall|i: int| 0 <= i < file.len() implies file[i] != '/' by {
            if i < cluster_id@.len() {
                assert(file[i] == cluster_id@[i]);
            }
        }
        assert(file.len() >= 5);
        assert(file.len() != seq!['.'].len());
        assert(file.len() != seq!['.', '.'].len());
        if is_canonical(kubeconfigs_dir@) {
            lemma_join_plain(kubeconfigs_dir@, file);
        }
    }
    let yaml = match render_bundle(&document) {
        Ok(y) => y,
        Err(_) => {
            return Err(ImportError::new(ImportFailure::Serialize, context_name));
        },
    };
    Ok(
        ExtractedContext {
            config_path: credential_file_path(kubeconfigs_dir, cluster_id),
            document,
            yaml,
        },
    )
}

/// The context a session connects with: the current context of a
/// cluster's isolated credential file, read from `source_file`.
pub fn current_context_of(source_file: &str, text: &str) -> (r: Result<String, ImportError>)
    ensures
        match parsed_names(text@) {
            None => r matches Err(e) && e.kind == ImportFailure::Parse,
            Some(b) => match b.current_context {
                Some(c) => r matches Ok(n) && n@ == c,
                None => r matches Err(e) && e.kind == ImportFailure::NoCurrentContext,
            },
        },
{
    match parse_bundle(text) {
        Ok(b) => match &b.current_context {
            Some(c) => Ok(c.clone()),
            None => Err(ImportError::new(ImportFailure::NoCurrentContext, source_file)),
        },
        Err(_) => Err(ImportError::new(ImportFailure::Parse, source_file)),
    }
}

} // verus!
