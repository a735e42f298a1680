use vstd::prelude::*;
use crate::env::{subst_or_keep, subst_or_not, Env, Vars};
use crate::text::{decimal, decimal_text};
use crate::json::{
    compact_json, compact_text,
    entries_model, items_model, lemma_entries_model, lemma_items_model, Json, JsonModel,
};

verus! {

broadcast use vstd::std_specs::vec::group_vec_axioms;

/// Tests of type `Cluster` run first, one at a time, and never beside tests of type `User`.
#[derive(Clone, Copy, Debug, PartialEq, Eq, Hash, Structural)]
pub enum TestType {
    Cluster,
    User,
}

impl Default for TestType {
    fn default() -> (r: TestType)
        ensures
            r == TestType::User,
    {
        TestType::User
    }
}

/// An operation observed on the cluster that a bucket may reflect.
#[derive(Clone, Copy, Debug, PartialEq, Eq, Hash, Structural)]
pub enum BucketOperation {
    Create,
    Patch,
    Delete,
}

/// A condition over the list of values held by a bucket.
#[derive(Debug)]
pub enum Expr {
    AndExpr { and: Vec<Expr> },
    OrExpr { or: Vec<Expr> },
    NotExpr { not: Box<Expr> },
    SizeExpr { size: usize },
    OneExpr { one: Json },
    AllExpr { all: Json },
}

/// Mathematical model of a condition.
pub enum ExprModel {
    And(Seq<ExprModel>),
    Or(Seq<ExprModel>),
    Not(Box<ExprModel>),
    Size(usize),
    One(JsonModel),
    All(JsonModel),
}

pub open spec fn expr_model(e: Expr) -> ExprModel
    decreases e, 0nat,
{
    match e {
        Expr::AndExpr { and } => ExprModel::And(exprs_model(and@)),
        Expr::OrExpr { or } => ExprModel::Or(exprs_model(or@)),
        Expr::NotExpr { not } => ExprModel::Not(Box::new(expr_model(*not))),
        Expr::SizeExpr { size } => ExprModel::Size(size),
        Expr::OneExpr { one } => ExprModel::One(one@),
        Expr::AllExpr { all } => ExprModel::All(all@),
    }
}

pub open spec fn exprs_model(s: Seq<Expr>) -> Seq<ExprModel>
    decreases s, s.len(),
{
    if s.len() == 0 {
        Seq::empty()
    } else {
        exprs_model(s.drop_last()).push(expr_model(s.last()))
    }
}

impl View for Expr {
    type V = ExprModel;

    open spec fn view(&self) -> ExprModel {
        expr_model(*self)
    }
}

pub proof fn lemma_exprs_model(s: Seq<Expr>)
    ensures
        exprs_model(s).len() == s.len(),
        forall|i: int| 0 <= i < s.len() ==> #[trigger] exprs_model(s)[i] == expr_model(s[i]),
    decreases s.len(),
{
    if s.len() > 0 {
        lemma_exprs_model(s.drop_last());
    }
}

/// A copy of each condition of `es`, equal to it in the model.
fn copy_exprs(es: &Vec<Expr>) -> (r: Vec<Expr>)
    ensures
        exprs_model(r@) == exprs_model(es@),
    decreases es, 0nat,
{
    let mut v: Vec<Expr> = Vec::new();
    let mut i: usize = 0;
    proof {
        assert(decreases_to!(*es => es@));
    }
    while i < es.len()
        invariant
            decreases_to!(*es => es@),
            i <= es@.len(),
            v@.len() == i,
            forall|j: int| 0 <= j < i ==> #[trigger] v@[j]@ == es@[j]@,
        decreases es@.len() - i,
    {
        proof {
            assert(decreases_to!(es@ => es@[i as int]));
        }
        let c = es[i].deep_copy();
        v.push(c);
        i = i + 1;
    }
    proof {
        lemma_exprs_model(es@);
        lemma_exprs_model(v@);
        assert forall|j: int| 0 <= j < v@.len() implies exprs_model(v@)[j] == exprs_model(es@)[j] by {
            assert(v@[j]@ == es@[j]@);
        }
        assert(exprs_model(v@) =~= exprs_model(es@));
    }
    v
}

impl Expr {
    /// A copy of the condition, equal to it in the model.
    pub fn deep_copy(&self) -> (r: Expr)
        ensures
            r@ == self@,
        decreases self, 1nat,
    {
        match self {
            Expr::AndExpr { and } => {
                proof {
                    assert(decreases_to!(*self => self->and));
                }
                Expr::AndExpr { and: copy_exprs(and) }
            },
            Expr::OrExpr { or } => {
                proof {
                    assert(decreases_to!(*self => self->or));
                }
                Expr::OrExpr { or: copy_exprs(or) }
            },
            Expr::NotExpr { not } => {
                proof {
                    assert(decreases_to!(*self => self->not));
                }
                let inner = not.deep_copy();
                Expr::NotExpr { not: Box::new(inner) }
            },
            Expr::SizeExpr { size } => Expr::SizeExpr { size: *size },
            Expr::OneExpr { one } => Expr::OneExpr { one: one.deep_copy() },
            Expr::AllExpr { all } => Expr::AllExpr { all: all.deep_copy() },
        }
    }
}


/// A test as its author wrote it, with the directory it was found in.
#[derive(Debug)]
pub struct TestSpec {
    pub name: String,
    pub test_type: TestType,
    /// Tests of one type run in the lexicographic order of this field; a test without it first.
    pub ordering: Option<String>,
    pub steps: Vec<StepSpec>,
    pub dir: String,
    /// On failure, the test may be retried for this total number of attempts.
    pub attempts: Option<u16>,
}

/// One step of a test; its parts run in the order of the fields.
#[derive(Debug)]
pub struct StepSpec {
    pub name: String,
    pub watch: Vec<WatchSpec>,
    pub bucket: Vec<BucketSpec>,
    pub apply: Vec<ApplySpec>,
    pub delete: Vec<ApplySpec>,
    /// Paths of shell scripts that are sourced by `sh`.
    pub script: Vec<String>,
    /// Seconds to sleep, scaled by the timeout scaling.
    pub sleep: u16,
    pub wait: Vec<WaitSpec>,
}

/// Narrows the operations that a bucket reflects.
#[derive(Clone, Debug)]
pub struct BucketSpec {
    pub name: String,
    pub operations: Vec<BucketOperation>,
}

/// Resources to watch; what is observed goes to the bucket named `name`.
#[derive(Clone, Debug)]
pub struct WatchSpec {
    pub name: String,
    pub kind: String,
    pub group: String,
    pub version: String,
    pub namespace: String,
    /// Label selector, as `(key, value)` pairs, joined in the order given.
    pub labels: Option<Vec<(String, String)>>,
    /// Field selector, as `(key, value)` pairs, joined in the order given.
    pub fields: Option<Vec<(String, String)>>,
}

/// Manifests to apply or delete: a file or a directory of `*.yaml` files.
#[derive(Clone, Debug)]
pub struct ApplySpec {
    pub path: String,
    pub override_namespace: bool,
    pub namespace: String,
}

/// A condition that must come to hold of a bucket within `timeout` seconds.
#[derive(Debug)]
pub struct WaitSpec {
    pub target: String,
    pub condition: Expr,
    pub timeout: u16,
}

/// Whether manifests are moved to the test's namespace unless told otherwise.
pub fn default_override_namespace() -> (r: bool)
    ensures
        r,
{
    true
}

/// The namespace that watches and manifests use unless told otherwise.
pub fn default_namespace() -> (r: String)
    ensures
        r@ == "${BLACKJACK_NAMESPACE}"@,
{
    String::from_str("${BLACKJACK_NAMESPACE}")
}

/// A value with its `${NAME}` references substituted from an environment.
pub trait EnvSubst: Sized {
    /// `self` is `orig` with its `${NAME}` references substituted from `vars`.
    spec fn substituted_from(&self, orig: &Self, vars: Vars) -> bool;

    fn subst_env(self, env: &Env) -> (r: Self)
        ensures
            r.substituted_from(&self, env.vars()),
    ;
}

/// `j` with every string in it (not the keys of objects) substituted.
pub open spec fn subst_json(j: JsonModel, vars: Vars) -> JsonModel
    decreases j, 0nat,
{
    match j {
        JsonModel::Str(s) => JsonModel::Str(subst_or_keep(s, vars)),
        JsonModel::Array(xs) => JsonModel::Array(subst_items(xs, vars)),
        JsonModel::Object(es) => JsonModel::Object(subst_entries(es, vars)),
        _ => j,
    }
}

pub open spec fn subst_items(xs: Seq<JsonModel>, vars: Vars) -> Seq<JsonModel>
    decreases xs, 0nat,
{
    if xs.len() == 0 {
        Seq::empty()
    } else {
        subst_items(xs.drop_last(), vars).push(subst_json(xs.last(), vars))
    }
}

pub open spec fn subst_entries(
    es: Seq<(Seq<char>, JsonModel)>,
    vars: Vars,
) -> Seq<(Seq<char>, JsonModel)>
    decreases es, 0nat,
{
    if es.len() == 0 {
        Seq::empty()
    } else {
        subst_entries(es.drop_last(), vars).push((es.last().0, subst_json(es.last().1, vars)))
    }
}

pub proof fn lemma_subst_items(xs: Seq<JsonModel>, vars: Vars)
    ensures
        subst_items(xs, vars).len() == xs.len(),
        forall|i: int|
            0 <= i < xs.len() ==> #[trigger] subst_items(xs, vars)[i] == subst_json(xs[i], vars),
    decreases xs.len(),
{
    if xs.len() > 0 {
        lemma_subst_items(xs.drop_last(), vars);
    }
}

pub proof fn lemma_subst_entries(es: Seq<(Seq<char>, JsonModel)>, vars: Vars)
    ensures
        subst_entries(es, vars).len() == es.len(),
        forall|i: int|
            0 <= i < es.len() ==> #[trigger] subst_entries(es, vars)[i] == (es[i].0, subst_json(
                es[i].1,
                vars,
            )),
    decreases es.len(),
{
    if es.len() > 0 {
        lemma_subst_entries(es.drop_last(), vars);
    }
}

/// Substitutes `${NAME}` references in every string of `value`.
fn env_subst_json(value: &Json, env: &Env) -> (r: Json)
    ensures
        r@ == subst_json(value@, env.vars()),
    decreases value,
{
    match value {
        Json::String(s) => Json::String(subst_or_not(s.clone(), env)),
        Json::Array(arr) => {
            let mut v: Vec<Json> = Vec::new();
            let mut i: usize = 0;
            proof {
                assert(decreases_to!(*value => value->Array_0));
                assert(decreases_to!(*arr => arr@));
            }
            while i < arr.len()
                invariant
                    decreases_to!(*value => arr@),
                    i <= arr@.len(),
                    v@.len() == i,
                    forall|j: int| 0 <= j < i ==> #[trigger] v@[j]@ == subst_json(arr@[j]@, env.vars()),
                decreases arr@.len() - i,
            {
                proof {
                    assert(decreases_to!(arr@ => arr@[i as int]));
                }
                v.push(env_subst_json(&arr[i], env));
                i = i + 1;
            }
            proof {
                lemma_items_model(arr@);
                lemma_items_model(v@);
                lemma_subst_items(items_model(arr@), env.vars());
                assert forall|j: int| 0 <= j < v@.len() implies items_model(v@)[j] == subst_items(
                    items_model(arr@),
                    env.vars(),
                )[j] by {
                    assert(v@[j]@ == subst_json(arr@[j]@, env.vars()));
                }
                assert(items_model(v@) =~= subst_items(items_model(arr@), env.vars()));
            }
            Json::Array(v)
        },
        Json::Object(obj) => {
            let mut v: Vec<(String, Json)> = Vec::new();
            let mut i: usize = 0;
            proof {
                assert(decreases_to!(*value => value->Object_0));
                assert(decreases_to!(*obj => obj@));
            }
            while i < obj.len()
                invariant
                    decreases_to!(*value => obj@),
                    i <= obj@.len(),
                    v@.len() == i,
                    forall|j: int| 0 <= j < i ==> (#[trigger] v@[j]).0@ == obj@[j].0@,
                    forall|j: int|
                        0 <= j < i ==> (#[trigger] v@[j]).1@ == subst_json(obj@[j].1@, env.vars()),
                decreases obj@.len() - i,
            {
                proof {
                    assert(decreases_to!(obj@ => obj@[i as int]));
                    assert(decreases_to!(obj@[i as int] => obj@[i as int].1));
                }
                let c = env_subst_json(&obj[i].1, env);
                v.push((obj[i].0.clone(), c));
                i = i + 1;
            }
            proof {
                lemma_entries_model(obj@);
                lemma_entries_model(v@);
                lemma_subst_entries(entries_model(obj@), env.vars());
                assert forall|j: int| 0 <= j < v@.len() implies entries_model(v@)[j]
                    == subst_entries(entries_model(obj@), env.vars())[j] by {
                    assert(v@[j].0@ == obj@[j].0@);
                    assert(v@[j].1@ == subst_json(obj@[j].1@, env.vars()));
                }
                assert(entries_model(v@) =~= subst_entries(entries_model(obj@), env.vars()));
            }
            Json::Object(v)
        },
        _ => value.deep_copy(),
    }
}

/// `e` with every string of its patterns substituted.
pub open spec fn subst_expr(e: ExprModel, vars: Vars) -> ExprModel
    decreases e, 0nat,
{
    match e {
        ExprModel::And(es) => ExprModel::And(subst_exprs(es, vars)),
        ExprModel::Or(es) => ExprModel::Or(subst_exprs(es, vars)),
        ExprModel::Not(b) => ExprModel::Not(Box::new(subst_expr(*b, vars))),
        ExprModel::Size(n) => ExprModel::Size(n),
        ExprModel::One(p) => ExprModel::One(subst_json(p, vars)),
        ExprModel::All(p) => ExprModel::All(subst_json(p, vars)),
    }
}

pub open spec fn subst_exprs(es: Seq<ExprModel>, vars: Vars) -> Seq<ExprModel>
    decreases es, 0nat,
{
    if es.len() == 0 {
        Seq::empty()
    } else {
        subst_exprs(es.drop_last(), vars).push(subst_expr(es.last(), vars))
    }
}

pub proof fn lemma_subst_exprs(es: Seq<ExprModel>, vars: Vars)
    ensures
        subst_exprs(es, vars).len() == es.len(),
        forall|i: int|
            0 <= i < es.len() ==> #[trigger] subst_exprs(es, vars)[i] == subst_expr(es[i], vars),
    decreases es.len(),
{
    if es.len() > 0 {
        lemma_subst_exprs(es.drop_last(), vars);
    }
}

fn subst_expr_list(es: &Vec<Expr>, env: &Env) -> (r: Vec<Expr>)
    ensures
        exprs_model(r@) == subst_exprs(exprs_model(es@), env.vars()),
    decreases es, 0nat,
{
    let mut v: Vec<Expr> = Vec::new();
    let mut i: usize = 0;
    proof {
        assert(decreases_to!(*es => es@));
    }
    while i < es.len()
        invariant
            decreases_to!(*es => es@),
            i <= es@.len(),
            v@.len() == i,
            forall|j: int| 0 <= j < i ==> #[trigger] v@[j]@ == subst_expr(es@[j]@, env.vars()),
        decreases es@.len() - i,
    {
        proof {
            assert(decreases_to!(es@ => es@[i as int]));
        }
        v.push(subst_expr_ref(&es[i], env));
        i = i + 1;
    }
    proof {
        lemma_exprs_model(es@);
        lemma_exprs_model(v@);
        lemma_subst_exprs(exprs_model(es@), env.vars());
        assert forall|j: int| 0 <= j < v@.len() implies exprs_model(v@)[j] == subst_exprs(
            exprs_model(es@),
            env.vars(),
        )[j] by {
            assert(v@[j]@ == subst_expr(es@[j]@, env.vars()));
        }
        assert(exprs_model(v@) =~= subst_exprs(exprs_model(es@), env.vars()));
    }
    v
}

fn subst_expr_ref(e: &Expr, env: &Env) -> (r: Expr)
    ensures
        r@ == subst_expr(e@, env.vars()),
    decreases e, 1nat,
{
    match e {
        Expr::AndExpr { and } => {
            proof {
                assert(decreases_to!(*e => e->and));
            }
            Expr::AndExpr { and: subst_expr_list(and, env) }
        },
        Expr::OrExpr { or } => {
            proof {
                assert(decreases_to!(*e => e->or));
            }
            Expr::OrExpr { or: subst_expr_list(or, env) }
        },
        Expr::NotExpr { not } => {
            proof {
                assert(decreases_to!(*e => e->not));
            }
            let inner = subst_expr_ref(not, env);
            Expr::NotExpr { not: Box::new(inner) }
        },
        Expr::SizeExpr { size } => Expr::SizeExpr { size: *size },
        Expr::OneExpr { one } => Expr::OneExpr { one: env_subst_json(one, env) },
        Expr::AllExpr { all } => Expr::AllExpr { all: env_subst_json(all, env) },
    }
}

impl EnvSubst for Expr {
    open spec fn substituted_from(&self, orig: &Self, vars: Vars) -> bool {
        self@ == subst_expr(orig@, vars)
    }

    fn subst_env(self, env: &Env) -> (r: Self) {
        subst_expr_ref(&self, env)
    }
}

impl EnvSubst for WatchSpec {
    open spec fn substituted_from(&self, orig: &Self, vars: Vars) -> bool {
        &&& self.name == orig.name
        &&& self.kind@ == subst_or_keep(orig.kind@, vars)
        &&& self.group@ == subst_or_keep(orig.group@, vars)
        &&& self.version@ == subst_or_keep(orig.version@, vars)
        &&& self.namespace@ == subst_or_keep(orig.namespace@, vars)
        &&& self.labels == orig.labels
        &&& self.fields == orig.fields
    }

    fn subst_env(self, env: &Env) -> (r: Self) {
        WatchSpec {
            name: self.name,
            kind: subst_or_not(self.kind, env),
            group: subst_or_not(self.group, env),
            version: subst_or_not(self.version, env),
            namespace: subst_or_not(self.namespace, env),
            labels: self.labels,
            fields: self.fields,
        }
    }
}

impl EnvSubst for ApplySpec {
    open spec fn substituted_from(&self, orig: &Self, vars: Vars) -> bool {
        &&& self.path@ == subst_or_keep(orig.path@, vars)
        &&& self.namespace@ == subst_or_keep(orig.namespace@, vars)
        &&& self.override_namespace == orig.override_namespace
    }

    fn subst_env(self, env: &Env) -> (r: Self) {
        ApplySpec {
            path: subst_or_not(self.path, env),
            namespace: subst_or_not(self.namespace, env),
            override_namespace: self.override_namespace,
        }
    }
}

impl EnvSubst for WaitSpec {
    open spec fn substituted_from(&self, orig: &Self, vars: Vars) -> bool {
        &&& self.target == orig.target
        &&& self.condition@ == subst_expr(orig.condition@, vars)
        &&& self.timeout == orig.timeout
    }

    fn subst_env(self, env: &Env) -> (r: Self) {
        WaitSpec {
            target: self.target,
            condition: self.condition.subst_env(env),
            timeout: self.timeout,
        }
    }
}

/// How a condition is shown to a reader: `AND(a, b)`, `OR(..)`, `NOT(..)`, `size == n`,
/// `ANY(<json>)`, `ALL(<json>)`.
pub open spec fn render_spec(e: ExprModel) -> Seq<char>
    decreases e, 1nat,
{
    match e {
        ExprModel::And(es) => "AND("@ + render_list(es) + ")"@,
        ExprModel::Or(es) => "OR("@ + render_list(es) + ")"@,
        ExprModel::Not(b) => "NOT("@ + render_spec(*b) + ")"@,
        ExprModel::Size(n) => "size == "@ + decimal(n as nat),
        ExprModel::One(p) => "ANY("@ + compact_text(p) + ")"@,
        ExprModel::All(p) => "ALL("@ + compact_text(p) + ")"@,
    }
}

/// The conditions of `es` shown one after the other, separated by `, `.
pub open spec fn render_list(es: Seq<ExprModel>) -> Seq<char>
    decreases es, 0nat,
{
    if es.len() == 0 {
        Seq::empty()
    } else if es.len() == 1 {
        render_spec(es.last())
    } else {
        render_list(es.drop_last()) + ", "@ + render_spec(es.last())
    }
}

fn render_exprs(es: &Vec<Expr>) -> (r: String)
    ensures
        r@ == render_list(exprs_model(es@)),
    decreases es, 0nat,
{
    proof {
        lemma_exprs_model(es@);
        assert(decreases_to!(*es => es@));
    }
    let mut r = String::new();
    let mut i: usize = 0;
    proof {
        assert(exprs_model(es@).subrange(0, 0) =~= Seq::<ExprModel>::empty());
    }
    while i < es.len()
        invariant
            decreases_to!(*es => es@),
            i <= es@.len(),
            exprs_model(es@).len() == es@.len(),
            forall|j: int| 0 <= j < es@.len() ==> #[trigger] exprs_model(es@)[j] == es@[j]@,
            r@ == render_list(exprs_model(es@).subrange(0, i as int)),
        decreases es@.len() - i,
    {
        proof {
            assert(decreases_to!(es@ => es@[i as int]));
            let p = exprs_model(es@).subrange(0, i + 1);
            assert(p.drop_last() =~= exprs_model(es@).subrange(0, i as int));
            assert(p.last() == es@[i as int]@);
        }
        if i > 0 {
            r.append(", ");
        }
        let part = es[i].render();
        r.append(part.as_str());
        i = i + 1;
    }
    proof {
        assert(exprs_model(es@).subrange(0, i as int) =~= exprs_model(es@));
    }
    r
}

impl Expr {
    /// The condition as shown to a reader; see `render_spec`.
    pub fn render(&self) -> (r: String)
        ensures
            r@ == render_spec(self@),
        decreases self, 1nat,
    {
        match self {
            Expr::AndExpr { and } => {
                proof {
                    assert(decreases_to!(*self => self->and));
                }
                let mut r = String::from_str("AND(");
                let inner = render_exprs(and);
                r.append(inner.as_str());
                r.append(")");
                r
            },
            Expr::OrExpr { or } => {
                proof {
                    assert(decreases_to!(*self => self->or));
                }
                let mut r = String::from_str("OR(");
                let inner = render_exprs(or);
                r.append(inner.as_str());
                r.append(")");
                r
            },
            Expr::NotExpr { not } => {
                proof {
                    assert(decreases_to!(*self => self->not));
                }
                let mut r = String::from_str("NOT(");
                let inner = not.render();
                r.append(inner.as_str());
                r.append(")");
                r
            },
            Expr::SizeExpr { size } => {
                let mut r = String::from_str("size == ");
                let n = decimal_text(*size as u64);
                r.append(n.as_str());
                r
            },
            Expr::OneExpr { one } => {
                let mut r = String::from_str("ANY(");
                let j = compact_json(one);
                r.append(j.as_str());
                r.append(")");
                r
            },
            Expr::AllExpr { all } => {
                let mut r = String::from_str("ALL(");
                let j = compact_json(all);
                r.append(j.as_str());
                r.append(")");
                r
            },
        }
    }
}

} // verus!
