use vstd::prelude::*;
use crate::env::{no_vars, subst_or_keep, substitute, Env, Vars};
use crate::json::{
    first_key_at, json_wf, keys_unique, lemma_entries_model, lemma_items_model, lemma_lookup_at,
    lemma_lookup_none, lookup, number_eq, Json, JsonModel, NumberModel,
};

verus! {

broadcast use vstd::std_specs::vec::group_vec_axioms;

/// Deep containment: `input` holds everything that `pattern` asks for.
/// Strings of the pattern have their `${NAME}` references substituted from `vars` first.
pub open spec fn contains_spec(
    input: JsonModel,
    pattern: JsonModel,
    vars: Vars,
) -> bool
    decreases pattern, 0nat,
{
    match pattern {
        JsonModel::Object(pes) => match input {
            JsonModel::Object(ies) => entries_found(ies, pes, vars),
            _ => false,
        },
        JsonModel::Array(pxs) => match input {
            JsonModel::Array(ixs) => all_found(ixs, pxs, vars),
            _ => false,
        },
        JsonModel::Str(p) => match input {
            JsonModel::Str(s) => s == subst_or_keep(p, vars),
            _ => false,
        },
        JsonModel::Null => input is Null,
        JsonModel::Bool(b) => input == JsonModel::Bool(b),
        JsonModel::Number(n) => match input {
            JsonModel::Number(m) => number_eq(m, n),
            _ => false,
        },
    }
}

/// Every entry of `pes` has its key in `ies`, with a value there that contains the entry's value.
pub open spec fn entries_found(
    ies: Seq<(Seq<char>, JsonModel)>,
    pes: Seq<(Seq<char>, JsonModel)>,
    vars: Vars,
) -> bool
    decreases pes, 0nat,
{
    if pes.len() == 0 {
        true
    } else {
        entries_found(ies, pes.drop_last(), vars) && match lookup(ies, pes.last().0) {
            Some(v) => contains_spec(v, pes.last().1, vars),
            None => false,
        }
    }
}

/// Every item of `pxs` is contained by some item of `ixs`.
pub open spec fn all_found(
    ixs: Seq<JsonModel>,
    pxs: Seq<JsonModel>,
    vars: Vars,
) -> bool
    decreases pxs, 0nat,
{
    if pxs.len() == 0 {
        true
    } else {
        all_found(ixs, pxs.drop_last(), vars) && found_in(ixs, pxs.last(), vars)
    }
}

/// Some item of `items` contains `pattern`.
pub open spec fn found_in(
    items: Seq<JsonModel>,
    pattern: JsonModel,
    vars: Vars,
) -> bool
    decreases pattern, items.len() + 1,
{
    if items.len() == 0 {
        false
    } else {
        found_in(items.drop_last(), pattern, vars) || contains_spec(items.last(), pattern, vars)
    }
}

/// `found_in` read as a quantifier.
pub proof fn lemma_found_in(items: Seq<JsonModel>, pattern: JsonModel, vars: Vars)
    ensures
        found_in(items, pattern, vars) <==> exists|k: int|
            0 <= k < items.len() && #[trigger] contains_spec(items[k], pattern, vars),
    decreases items.len(),
{
    if items.len() > 0 {
        lemma_found_in(items.drop_last(), pattern, vars);
        if contains_spec(items.last(), pattern, vars) {
            assert(contains_spec(items[items.len() - 1], pattern, vars));
        }
        if found_in(items.drop_last(), pattern, vars) {
            let k = choose|k: int|
                0 <= k < items.drop_last().len() && #[trigger] contains_spec(
                    items.drop_last()[k],
                    pattern,
                    vars,
                );
            assert(contains_spec(items[k], pattern, vars));
        }
        if exists|k: int| 0 <= k < items.len() && #[trigger] contains_spec(items[k], pattern, vars) {
            let k = choose|k: int| 0 <= k < items.len() && #[trigger] contains_spec(items[k], pattern, vars);
            if k < items.len() - 1 {
                assert(contains_spec(items.drop_last()[k], pattern, vars));
            }
        }
    }
}

/// Position of the first entry of `entries` whose key is `key`.
fn find_key(entries: &Vec<(String, Json)>, key: &String) -> (r: Option<usize>)
    ensures
        r matches Some(k) ==> first_key_at(
            crate::json::entries_model(entries@),
            key@,
            k as int,
        ),
        r is None ==> lookup(crate::json::entries_model(entries@), key@) is None,
{
    proof {
        lemma_entries_model(entries@);
    }
    let mut i: usize = 0;
    while i < entries.len()
        invariant
            i <= entries@.len(),
            crate::json::entries_model(entries@).len() == entries@.len(),
            forall|j: int|
                0 <= j < entries@.len() ==> #[trigger] crate::json::entries_model(entries@)[j] == (
                entries@[j].0@,
                entries@[j].1@,
            ),
            forall|j: int| 0 <= j < i ==> (#[trigger] entries@[j]).0@ != key@,
        decreases entries@.len() - i,
    {
        if entries[i].0 == *key {
            return Some(i);
        }
        i = i + 1;
    }
    proof {
        let m = crate::json::entries_model(entries@);
        assert forall|j: int| 0 <= j < m.len() implies m[j].0 != key@ by {
            assert(entries@[j].0@ != key@);
        }
        lemma_lookup_none(m, key@);
    }
    None
}

/// The entry `e` has its key in `ies`, with a value there that contains the entry's value.
pub open spec fn entry_found(
    ies: Seq<(Seq<char>, JsonModel)>,
    e: (Seq<char>, JsonModel),
    vars: Vars,
) -> bool {
    match lookup(ies, e.0) {
        Some(v) => contains_spec(v, e.1, vars),
        None => false,
    }
}

/// `entries_found` read as a quantifier.
pub proof fn lemma_entries_found(
    ies: Seq<(Seq<char>, JsonModel)>,
    pes: Seq<(Seq<char>, JsonModel)>,
    vars: Vars,
)
    ensures
        entries_found(ies, pes, vars) <==> forall|i: int|
            0 <= i < pes.len() ==> #[trigger] entry_found(ies, pes[i], vars),
    decreases pes.len(),
{
    if pes.len() > 0 {
        lemma_entries_found(ies, pes.drop_last(), vars);
        assert forall|i: int| 0 <= i < pes.len() - 1 implies pes.drop_last()[i] == pes[i] by {}
        if forall|i: int| 0 <= i < pes.len() ==> #[trigger] entry_found(ies, pes[i], vars) {
            assert(entry_found(ies, pes[pes.len() - 1], vars));
            assert forall|i: int| 0 <= i < pes.drop_last().len() implies #[trigger] entry_found(
                ies,
                pes.drop_last()[i],
                vars,
            ) by {
                assert(entry_found(ies, pes[i], vars));
            }
        }
        if entries_found(ies, pes, vars) {
            assert forall|i: int| 0 <= i < pes.len() implies #[trigger] entry_found(ies, pes[i], vars) by {
                if i < pes.len() - 1 {
                    assert(entry_found(ies, pes.drop_last()[i], vars));
                }
            }
        }
    }
}

/// `all_found` read as a quantifier.
pub proof fn lemma_all_found(ixs: Seq<JsonModel>, pxs: Seq<JsonModel>, vars: Vars)
    ensures
        all_found(ixs, pxs, vars) <==> forall|i: int|
            0 <= i < pxs.len() ==> #[trigger] found_in(ixs, pxs[i], vars),
    decreases pxs.len(),
{
    if pxs.len() > 0 {
        lemma_all_found(ixs, pxs.drop_last(), vars);
        if forall|i: int| 0 <= i < pxs.len() ==> #[trigger] found_in(ixs, pxs[i], vars) {
            assert(found_in(ixs, pxs[pxs.len() - 1], vars));
            assert forall|i: int| 0 <= i < pxs.drop_last().len() implies #[trigger] found_in(
                ixs,
                pxs.drop_last()[i],
                vars,
            ) by {
                assert(found_in(ixs, pxs[i], vars));
            }
        }
        if all_found(ixs, pxs, vars) {
            assert forall|i: int| 0 <= i < pxs.len() implies #[trigger] found_in(ixs, pxs[i], vars) by {
                if i < pxs.len() - 1 {
                    assert(found_in(ixs, pxs.drop_last()[i], vars));
                }
            }
        }
    }
}

/// Whether some item of `items` contains `pattern`.
fn any_contains(items: &Vec<Json>, pattern: &Json, env: &Env) -> (r: bool)
    ensures
        r == found_in(crate::json::items_model(items@), pattern@, env.vars()),
    decreases pattern, 1nat,
{
    proof {
        lemma_items_model(items@);
        lemma_found_in(crate::json::items_model(items@), pattern@, env.vars());
    }
    let ghost im = crate::json::items_model(items@);
    let mut k: usize = 0;
    while k < items.len()
        invariant
            k <= items@.len(),
            im == crate::json::items_model(items@),
            im.len() == items@.len(),
            forall|j: int| 0 <= j < items@.len() ==> #[trigger] im[j] == items@[j]@,
            forall|j: int| 0 <= j < k ==> !contains_spec(#[trigger] im[j], pattern@, env.vars()),
        decreases items@.len() - k,
    {
        if contains(&items[k], pattern, env) {
            proof {
                assert(contains_spec(im[k as int], pattern@, env.vars()));
                lemma_found_in(im, pattern@, env.vars());
            }
            return true;
        }
        k = k + 1;
    }
    proof {
        lemma_found_in(im, pattern@, env.vars());
    }
    false
}

/// Whether `input` contains `pattern`: objects by key, arrays element by element
/// (each pattern element somewhere in the input), strings after `${NAME}` substitution,
/// everything else by equality.
pub fn contains(input: &Json, pattern: &Json, env: &Env) -> (r: bool)
    ensures
        r == contains_spec(input@, pattern@, env.vars()),
    decreases pattern, 0nat,
{
    match (input, pattern) {
        (Json::Object(ies), Json::Object(pes)) => {
            proof {
                lemma_entries_model(ies@);
                lemma_entries_model(pes@);
                lemma_entries_found(
                    crate::json::entries_model(ies@),
                    crate::json::entries_model(pes@),
                    env.vars(),
                );
                assert(decreases_to!(*pattern => pattern->Object_0));
                assert(decreases_to!(*pes => pes@));
            }
            let ghost im = crate::json::entries_model(ies@);
            let ghost pm = crate::json::entries_model(pes@);
            let mut i: usize = 0;
            while i < pes.len()
                invariant
                    decreases_to!(*pattern => pes@),
                    i <= pes@.len(),
                    contains_spec(input@, pattern@, env.vars()) <==> forall|j: int|
                        0 <= j < pm.len() ==> #[trigger] entry_found(im, pm[j], env.vars()),
                    im == crate::json::entries_model(ies@),
                    pm == crate::json::entries_model(pes@),
                    pm.len() == pes@.len(),
                    im.len() == ies@.len(),
                    forall|j: int| 0 <= j < pes@.len() ==> #[trigger] pm[j] == (pes@[j].0@, pes@[j].1@),
                    forall|j: int| 0 <= j < ies@.len() ==> #[trigger] im[j] == (ies@[j].0@, ies@[j].1@),
                    forall|j: int| 0 <= j < i ==> #[trigger] entry_found(im, pm[j], env.vars()),
                decreases pes@.len() - i,
            {
                match find_key(ies, &pes[i].0) {
                    None => {
                        proof {
                            assert(!entry_found(im, pm[i as int], env.vars()));
                        }
                        return false;
                    },
                    Some(k) => {
                        proof {
                            lemma_lookup_at(im, pes@[i as int].0@, k as int);
                            assert(decreases_to!(pes@ => pes@[i as int]));
                            assert(decreases_to!(pes@[i as int] => pes@[i as int].1));
                        }
                        let c = contains(&ies[k].1, &pes[i].1, env);
                        proof {
                            assert(lookup(im, pm[i as int].0) == Some(ies@[k as int].1@));
                        }
                        if !c {
                            proof {
                                assert(!entry_found(im, pm[i as int], env.vars()));
                            }
                            return false;
                        }
                    },
                }
                i = i + 1;
            }
            true
        },
        (Json::Array(ixs), Json::Array(pxs)) => {
            proof {
                lemma_items_model(ixs@);
                lemma_items_model(pxs@);
                lemma_all_found(crate::json::items_model(ixs@), crate::json::items_model(pxs@), env.vars());
                assert(decreases_to!(*pattern => pattern->Array_0));
                assert(decreases_to!(*pxs => pxs@));
            }
            let ghost im = crate::json::items_model(ixs@);
            let ghost pm = crate::json::items_model(pxs@);
            let mut i: usize = 0;
            while i < pxs.len()
                invariant
                    decreases_to!(*pattern => pxs@),
                    i <= pxs@.len(),
                    contains_spec(input@, pattern@, env.vars()) <==> forall|j: int|
                        0 <= j < pm.len() ==> #[trigger] found_in(im, pm[j], env.vars()),
                    im == crate::json::items_model(ixs@),
                    pm == crate::json::items_model(pxs@),
                    pm.len() == pxs@.len(),
                    forall|j: int| 0 <= j < pxs@.len() ==> #[trigger] pm[j] == pxs@[j]@,
                    forall|j: int| 0 <= j < i ==> #[trigger] found_in(im, pm[j], env.vars()),
                decreases pxs@.len() - i,
            {
                proof {
                    assert(decreases_to!(pxs@ => pxs@[i as int]));
                }
                let found = any_contains(ixs, &pxs[i], env);
                if !found {
                    proof {
                        assert(!found_in(im, pm[i as int], env.vars()));
                    }
                    return false;
                }
                i = i + 1;
            }
            true
        },
        (Json::String(s), Json::String(p)) => match substitute(p, env) {
            Some(t) => *s == t,
            None => *s == *p,
        },
        (Json::Null, Json::Null) => true,
        (Json::Bool(a), Json::Bool(b)) => *a == *b,
        (Json::Number(a), Json::Number(b)) => a.equals(b),
        _ => false,
    }
}

/// Every well-formed value contains itself when no variables are bound.
pub proof fn lemma_contains_reflexive(x: JsonModel)
    requires
        json_wf(x),
    ensures
        contains_spec(x, x, no_vars()),
    decreases x,
{
    match x {
        JsonModel::Object(es) => {
            assert(keys_unique(es));
            assert forall|i: int| 0 <= i < es.len() implies #[trigger] entry_found(es, es[i], no_vars()) by {
                assert forall|j: int| 0 <= j < i implies es[j].0 != es[i].0 by {
                    assert(es[j].0 != es[i].0);
                }
                assert(first_key_at(es, es[i].0, i));
                assert(json_wf(es[i].1));
                lemma_lookup_at(es, es[i].0, i);
                lemma_contains_reflexive(es[i].1);
            }
            lemma_entries_found(es, es, no_vars());
        },
        JsonModel::Array(xs) => {
            assert forall|i: int| 0 <= i < xs.len() implies #[trigger] found_in(xs, xs[i], no_vars()) by {
                lemma_contains_reflexive(xs[i]);
                lemma_found_in(xs, xs[i], no_vars());
            }
            lemma_all_found(xs, xs, no_vars());
        },
        _ => {},
    }
}

} // verus!
