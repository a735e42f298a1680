use vstd::prelude::*;
use crate::script::chars_of;
use crate::test_spec::ApplySpec;

verus! {

broadcast use vstd::std_specs::vec::group_vec_axioms;

/// `(group, version)` of an `apiVersion`: split at the first `/`; no `/` means the core group.
pub open spec fn split_api_version_spec(api_version: Seq<char>) -> (Seq<char>, Seq<char>) {
    let slash = crate::script::find_from(api_version, '/', 0);
    if slash < api_version.len() {
        (api_version.subrange(0, slash), api_version.subrange(slash + 1, api_version.len() as int))
    } else {
        (Seq::empty(), api_version)
    }
}

/// `(group, version)` of an `apiVersion` such as `apps/v1` or `v1`.
pub fn split_api_version(api_version: &str) -> (r: (String, String))
    ensures
        (r.0@, r.1@) == split_api_version_spec(api_version@),
{
    let cs = chars_of(api_version);
    let mut i: usize = 0;
    while i < cs.len() && cs[i] != '/'
        invariant
            cs@ == api_version@,
            i <= cs@.len(),
            crate::script::find_from(api_version@, '/', 0) == crate::script::find_from(
                api_version@,
                '/',
                i as int,
            ),
        decreases cs@.len() - i,
    {
        i = i + 1;
    }
    if i < cs.len() {
        let group = api_version.substring_char(0, i);
        let version = api_version.substring_char(i + 1, cs.len());
        (String::from_str(group), String::from_str(version))
    } else {
        (String::new(), String::from_str(api_version))
    }
}

/// The namespace that the documents of a manifest are moved to, where they are moved at all.
pub fn namespace_override(spec: &ApplySpec) -> (r: Option<String>)
    ensures
        spec.override_namespace ==> (r matches Some(ns) && ns@ == spec.namespace@),
        !spec.override_namespace ==> r is None,
{
    if spec.override_namespace {
        Some(spec.namespace.clone())
    } else {
        None
    }
}

/// Whether a document of kind `kind` is left out: `Namespace` documents are, where the
/// namespace is overridden.
pub fn skip_document(kind: &String, namespace_override: &Option<String>) -> (r: bool)
    ensures
        r == (namespace_override is Some && kind@ == "Namespace"@),
{
    let ns = String::from_str("Namespace");
    namespace_override.is_some() && *kind == ns
}

/// Whether a resource lives in a namespace or in the whole cluster.
#[derive(Clone, Copy, Debug, PartialEq, Eq, Structural)]
pub enum Scope {
    Namespaced,
    Cluster,
}

/// Where a document goes: the namespace to write into it, if any, and the namespace of the
/// API to apply it through (`None` for a cluster-wide resource).
#[derive(Debug)]
pub struct Placement {
    pub set_namespace: Option<String>,
    pub api_namespace: Option<String>,
}

/// Where a document with namespace `doc_namespace` goes. A namespaced one is moved to the
/// override namespace, if any, and applied in its namespace (`default` where it has none).
pub fn placement(scope: Scope, doc_namespace: &Option<String>, namespace_override: &Option<String>) -> (r:
    Placement)
    ensures
        scope == Scope::Cluster ==> r.set_namespace is None && r.api_namespace is None,
        scope == Scope::Namespaced ==> match namespace_override {
            Some(ns) => (r.set_namespace matches Some(s) && s@ == ns@) && (r.api_namespace matches Some(
                a,
            ) && a@ == ns@),
            None => r.set_namespace is None && match doc_namespace {
                Some(d) => (r.api_namespace matches Some(a) && a@ == d@),
                None => (r.api_namespace matches Some(a) && a@ == "default"@),
            },
        },
{
    match scope {
        Scope::Cluster => Placement { set_namespace: None, api_namespace: None },
        Scope::Namespaced => match namespace_override {
            Some(ns) => Placement { set_namespace: Some(ns.clone()), api_namespace: Some(ns.clone()) },
            None => match doc_namespace {
                Some(d) => Placement { set_namespace: None, api_namespace: Some(d.clone()) },
                None => Placement {
                    set_namespace: None,
                    api_namespace: Some(String::from_str("default")),
                },
            },
        },
    }
}

/// The manifest files of a directory as one multi-document text: each file's text with a
/// newline after it, files separated by `---` lines.
pub open spec fn joined_manifests(contents: Seq<Seq<char>>) -> Seq<char>
    decreases contents.len(),
{
    if contents.len() == 0 {
        Seq::empty()
    } else if contents.len() == 1 {
        contents[0] + "\n"@
    } else {
        joined_manifests(contents.drop_last()) + "---\n"@ + contents.last() + "\n"@
    }
}

pub open spec fn strings_model(v: Seq<String>) -> Seq<Seq<char>> {
    Seq::new(v.len(), |i: int| v[i]@)
}

/// Joins the texts of a directory's manifest files, in the order given.
pub fn join_manifests(contents: &Vec<String>) -> (r: String)
    ensures
        r@ == joined_manifests(strings_model(contents@)),
{
    let mut r = String::new();
    let mut i: usize = 0;
    proof {
        assert(strings_model(contents@).subrange(0, 0) =~= Seq::<Seq<char>>::empty());
    }
    while i < contents.len()
        invariant
            i <= contents@.len(),
            r@ == joined_manifests(strings_model(contents@).subrange(0, i as int)),
        decreases contents@.len() - i,
    {
        if i > 0 {
            r.append("---\n");
        }
        r.append(contents[i].as_str());
        r.append("\n");
        proof {
            let p = strings_model(contents@).subrange(0, i + 1);
            assert(p.drop_last() =~= strings_model(contents@).subrange(0, i as int));
            if i == 0 {
                assert(p[0] == contents@[0]@);
            }
        }
        i = i + 1;
    }
    proof {
        assert(strings_model(contents@).subrange(0, i as int) =~= strings_model(contents@));
    }
    r
}

/// Whether a file extension is `yaml`, in any case.
pub fn is_yaml_extension(ext: &str) -> (r: bool)
    ensures
        r == (ext@.len() == 4 && (ext@[0] == 'y' || ext@[0] == 'Y') && (ext@[1] == 'a' || ext@[1]
            == 'A') && (ext@[2] == 'm' || ext@[2] == 'M') && (ext@[3] == 'l' || ext@[3] == 'L')),
{
    let cs = chars_of(ext);
    if cs.len() != 4 {
        return false;
    }
    (cs[0] == 'y' || cs[0] == 'Y') && (cs[1] == 'a' || cs[1] == 'A') && (cs[2] == 'm' || cs[2] == 'M')
        && (cs[3] == 'l' || cs[3] == 'L')
}

/// The name of a test: its own, or where it has none the last two parts of its directory
/// joined by `-`.
pub fn test_name(name: String, parent: &str, last: &str) -> (r: String)
    ensures
        name@.len() > 0 ==> r@ == name@,
        name@.len() == 0 ==> r@ == parent@ + "-"@ + last@,
{
    if name.unicode_len() > 0 {
        name
    } else {
        let mut r = String::from_str(parent);
        r.append("-");
        r.append(last);
        r
    }
}

} // verus!
