use std::collections::HashMap;
use vstd::prelude::*;

verus! {

/// Variables for `${NAME}` substitution. A later binding of a name shadows an earlier one.
pub struct Env {
    pub bindings: Vec<(String, String)>,
}

pub open spec fn bindings_map(s: Seq<(String, String)>) -> Map<Seq<char>, Seq<char>>
    decreases s.len(),
{
    if s.len() == 0 {
        Map::empty()
    } else {
        bindings_map(s.drop_last()).insert(s.last().0@, s.last().1@)
    }
}

impl View for Env {
    type V = Map<Seq<char>, Seq<char>>;

    open spec fn view(&self) -> Map<Seq<char>, Seq<char>> {
        bindings_map(self.bindings@)
    }
}

/// The map that binds no name.
pub open spec fn empty_map() -> Map<Seq<char>, Seq<char>> {
    Map::empty()
}

/// Bindings of names to values, in order; a later binding of a name shadows an earlier one.
pub type Vars = Seq<(Seq<char>, Seq<char>)>;

/// No bindings at all.
pub open spec fn no_vars() -> Vars {
    Seq::empty()
}

pub open spec fn bindings_seq(s: Seq<(String, String)>) -> Vars {
    Seq::new(s.len(), |i: int| (s[i].0@, s[i].1@))
}

pub open spec fn opt_view(o: Option<String>) -> Option<Seq<char>> {
    match o {
        Some(s) => Some(s@),
        None => None,
    }
}

/// What envsubst makes of `template` with the single variable `name` bound to `value`:
/// `None` where it reports an error.
pub uninterp spec fn substitute_one(
    template: Seq<char>,
    name: Seq<char>,
    value: Seq<char>,
) -> Option<Seq<char>>;

/// Relies on envsubst::substitute, called with a map of one variable: the result depends on
/// the template, the name and the value alone.
#[verifier::external_body]
fn substitute_one_exec(template: &String, name: &String, value: &String) -> (r: Option<String>)
    ensures
        opt_view(r) == substitute_one(template@, name@, value@),
{
    let vars: HashMap<String, String> = HashMap::from([(name.clone(), value.clone())]);
    envsubst::substitute(template.as_str(), &vars).ok()
}

/// The binding at `i` is shadowed by a later binding of the same name.
pub open spec fn shadowed(vars: Vars, i: int) -> bool {
    exists|j: int| i < j < vars.len() && vars[j].0 == vars[i].0
}

/// `t` with the bindings of `vars` from `i` on substituted one after the other, in order,
/// shadowed bindings left out; `None` where a substitution reports an error.
pub open spec fn subst_from(t: Seq<char>, vars: Vars, i: int) -> Option<Seq<char>>
    decreases vars.len() - i,
{
    if i >= vars.len() {
        Some(t)
    } else if shadowed(vars, i) {
        subst_from(t, vars, i + 1)
    } else {
        match substitute_one(t, vars[i].0, vars[i].1) {
            Some(u) => subst_from(u, vars, i + 1),
            None => None,
        }
    }
}

/// A string with its `${NAME}` references substituted, or the string itself where
/// substitution fails.
pub open spec fn subst_or_keep(s: Seq<char>, vars: Vars) -> Seq<char> {
    match subst_from(s, vars, 0) {
        Some(t) => t,
        None => s,
    }
}

fn is_shadowed(env: &Env, i: usize) -> (r: bool)
    requires
        i < env.bindings@.len(),
    ensures
        r == shadowed(env.vars(), i as int),
{
    let n = env.bindings.len();
    let mut j: usize = i + 1;
    while j < n
        invariant
            i < j <= env.bindings@.len(),
            n == env.bindings@.len(),
            forall|k: int| i < k < j ==> env.vars()[k].0 != env.vars()[i as int].0,
        decreases env.bindings@.len() - j,
    {
        if env.bindings[j].0 == env.bindings[i].0 {
            proof {
                assert(env.vars()[j as int].0 == env.vars()[i as int].0);
            }
            return true;
        }
        j = j + 1;
    }
    false
}

/// Substitutes the `${NAME}` references of `template` from `env`, binding by binding in the
/// environment's order; `None` where a substitution reports an error.
pub fn substitute(template: &String, env: &Env) -> (r: Option<String>)
    ensures
        opt_view(r) == subst_from(template@, env.vars(), 0),
{
    let mut cur = template.clone();
    let mut i: usize = 0;
    while i < env.bindings.len()
        invariant
            i <= env.bindings@.len(),
            subst_from(template@, env.vars(), 0) == subst_from(cur@, env.vars(), i as int),
        decreases env.bindings@.len() - i,
    {
        if !is_shadowed(env, i) {
            match substitute_one_exec(&cur, &env.bindings[i].0, &env.bindings[i].1) {
                Some(next) => {
                    cur = next;
                },
                None => {
                    return None;
                },
            }
        }
        i = i + 1;
    }
    Some(cur)
}

/// Substitutes `${NAME}` references in `s`, keeping `s` as it is where that fails.
pub fn subst_or_not(s: String, env: &Env) -> (r: String)
    ensures
        r@ == subst_or_keep(s@, env.vars()),
{
    match substitute(&s, env) {
        Some(t) => t,
        None => s,
    }
}

pub proof fn lemma_bindings_map_empty(s: Seq<(String, String)>)
    ensures
        (bindings_map(s) == empty_map()) <==> s.len() == 0,
    decreases s.len(),
{
    if s.len() > 0 {
        assert(bindings_map(s).contains_key(s.last().0@));
    }
}

impl Env {
    /// The bindings, in order.
    pub open spec fn vars(&self) -> Vars {
        bindings_seq(self.bindings@)
    }

    pub fn new() -> (r: Env)
        ensures
            r@ == empty_map(),
            r.vars() == no_vars(),
    {
        Env { bindings: Vec::new() }
    }

    /// Binds `name` to `value`, replacing any earlier binding of `name`.
    pub fn insert(&mut self, name: String, value: String)
        ensures
            final(self)@ == old(self)@.insert(name@, value@),
            final(self).vars() == old(self).vars().push((name@, value@)),
    {
        self.bindings.push((name, value));
        proof {
            assert(final(self).bindings@.drop_last() =~= old(self).bindings@);
            assert(final(self).vars() =~= old(self).vars().push((name@, value@)));
        }
    }

    pub fn is_empty(&self) -> (r: bool)
        ensures
            r == (self@ == empty_map()),
    {
        proof {
            lemma_bindings_map_empty(self.bindings@);
        }
        self.bindings.len() == 0
    }

    /// The value bound to `name`, if any.
    pub fn get(&self, name: &String) -> (r: Option<String>)
        ensures
            r matches Some(v) ==> self@.contains_key(name@) && self@[name@] == v@,
            r is None ==> !self@.contains_key(name@),
    {
        let mut i: usize = self.bindings.len();
        while i > 0
            invariant
                i <= self.bindings@.len(),
                forall|j: int|
                    i <= j < self.bindings@.len() ==> (#[trigger] self.bindings@[j]).0@ != name@,
            decreases i,
        {
            i = i - 1;
            if self.bindings[i].0 == *name {
                proof {
                    lemma_bindings_map_last(self.bindings@, i as int, name@);
                }
                return Some(self.bindings[i].1.clone());
            }
        }
        proof {
            lemma_bindings_map_last(self.bindings@, -1, name@);
        }
        None
    }
}

/// In `bindings_map(s)` a name maps to its last binding in `s`; `i` is that binding's index,
/// or -1 where `s` binds the name nowhere.
pub proof fn lemma_bindings_map_last(s: Seq<(String, String)>, i: int, name: Seq<char>)
    requires
        -1 <= i < s.len(),
        i >= 0 ==> s[i].0@ == name,
        forall|j: int| i < j < s.len() ==> (#[trigger] s[j]).0@ != name,
    ensures
        i >= 0 ==> bindings_map(s).contains_key(name) && bindings_map(s)[name] == s[i].1@,
        i < 0 ==> !bindings_map(s).contains_key(name),
    decreases s.len(),
{
    if s.len() > 0 {
        if i == s.len() - 1 {
        } else {
            assert forall|j: int| i < j < s.drop_last().len() implies (#[trigger] s.drop_last()[j]).0@
                != name by {
                assert(s.drop_last()[j] == s[j]);
            }
            lemma_bindings_map_last(s.drop_last(), i, name);
        }
    }
}

} // verus!
