use vstd::prelude::*;
use crate::env::{no_vars, Env};
use crate::json::{items_model, lemma_items_model, Json, JsonModel, JsonNumber, NumberModel};
use crate::match_object::{contains, contains_spec, found_in};
use crate::json::{compact_json, compact_text};
use crate::test_spec::{exprs_model, lemma_exprs_model, render_spec, Expr, ExprModel};
use crate::text::{decimal, decimal_text};

verus! {

broadcast use vstd::std_specs::vec::group_vec_axioms;

/// Why a condition failed: the (sub)condition that failed and the input it saw.
#[derive(Debug)]
pub struct AssertDiagnostic {
    pub expr: Expr,
    pub input: Vec<Json>,
}

impl View for AssertDiagnostic {
    type V = (ExprModel, Seq<JsonModel>);

    open spec fn view(&self) -> (ExprModel, Seq<JsonModel>) {
        (self.expr@, items_model(self.input@))
    }
}

/// Every value contains `pattern`.
pub open spec fn all_contain(values: Seq<JsonModel>, pattern: JsonModel) -> bool
    decreases values.len(),
{
    if values.len() == 0 {
        true
    } else {
        all_contain(values.drop_last(), pattern) && contains_spec(
            values.last(),
            pattern,
            no_vars(),
        )
    }
}

/// Whether condition `e` holds of `values`.
pub open spec fn holds(values: Seq<JsonModel>, e: ExprModel) -> bool
    decreases e, 0nat,
{
    match e {
        ExprModel::And(es) => all_hold(values, es),
        ExprModel::Or(es) => any_holds(values, es),
        ExprModel::Not(b) => !holds(values, *b),
        ExprModel::Size(n) => values.len() == n,
        ExprModel::One(p) => found_in(values, p, no_vars()),
        ExprModel::All(p) => all_contain(values, p),
    }
}

/// Every condition of `es` holds of `values`.
pub open spec fn all_hold(values: Seq<JsonModel>, es: Seq<ExprModel>) -> bool
    decreases es, 0nat,
{
    if es.len() == 0 {
        true
    } else {
        all_hold(values, es.drop_last()) && holds(values, es.last())
    }
}

/// Some condition of `es` holds of `values`.
pub open spec fn any_holds(values: Seq<JsonModel>, es: Seq<ExprModel>) -> bool
    decreases es, 0nat,
{
    if es.len() == 0 {
        false
    } else {
        any_holds(values, es.drop_last()) || holds(values, es.last())
    }
}

/// The diagnostic of a failed condition: for a conjunction that of its first failing part;
/// for a size the observed size in place of the values; else the condition and the values.
pub open spec fn diagnostic(values: Seq<JsonModel>, e: ExprModel) -> (ExprModel, Seq<JsonModel>)
    decreases e, 0nat,
{
    match e {
        ExprModel::And(es) => first_failure(values, es),
        ExprModel::Size(n) => (e, seq![JsonModel::Number(NumberModel::PosInt(values.len() as u64))]),
        _ => (e, values),
    }
}

/// The diagnostic of the first condition of `es` that fails on `values`.
pub open spec fn first_failure(values: Seq<JsonModel>, es: Seq<ExprModel>) -> (
    ExprModel,
    Seq<JsonModel>,
)
    decreases es, 0nat,
{
    if es.len() == 0 {
        (ExprModel::And(es), values)
    } else if !all_hold(values, es.drop_last()) {
        first_failure(values, es.drop_last())
    } else {
        diagnostic(values, es.last())
    }
}

/// Copies of the values, equal to them in the model.
fn copy_values(input: &Vec<Json>) -> (r: Vec<Json>)
    ensures
        items_model(r@) == items_model(input@),
{
    let mut v: Vec<Json> = Vec::new();
    let mut i: usize = 0;
    while i < input.len()
        invariant
            i <= input@.len(),
            v@.len() == i,
            forall|j: int| 0 <= j < i ==> #[trigger] v@[j]@ == input@[j]@,
        decreases input@.len() - i,
    {
        v.push(input[i].deep_copy());
        i = i + 1;
    }
    proof {
        lemma_items_model(input@);
        lemma_items_model(v@);
        assert forall|j: int| 0 <= j < v@.len() implies items_model(v@)[j] == items_model(input@)[j] by {
            assert(v@[j]@ == input@[j]@);
        }
        assert(items_model(v@) =~= items_model(input@));
    }
    v
}

fn fail_with(input: &Vec<Json>, expr: &Expr) -> (r: AssertDiagnostic)
    ensures
        r@ == (expr@, items_model(input@)),
{
    AssertDiagnostic { expr: expr.deep_copy(), input: copy_values(input) }
}

proof fn lemma_all_contain_prefix(values: Seq<JsonModel>, pattern: JsonModel, k: int)
    requires
        0 <= k < values.len(),
    ensures
        all_contain(values.subrange(0, k + 1), pattern) == (all_contain(values.subrange(0, k), pattern)
            && contains_spec(values[k], pattern, no_vars())),
{
    assert(values.subrange(0, k + 1).drop_last() =~= values.subrange(0, k));
}

proof fn lemma_found_in_prefix(values: Seq<JsonModel>, pattern: JsonModel, k: int)
    requires
        0 <= k < values.len(),
    ensures
        found_in(values.subrange(0, k + 1), pattern, no_vars()) == (found_in(
            values.subrange(0, k),
            pattern,
            no_vars(),
        ) || contains_spec(values[k], pattern, no_vars())),
{
    assert(values.subrange(0, k + 1).drop_last() =~= values.subrange(0, k));
}

proof fn lemma_all_hold_prefix(values: Seq<JsonModel>, es: Seq<ExprModel>, k: int)
    requires
        0 <= k < es.len(),
    ensures
        all_hold(values, es.subrange(0, k + 1)) == (all_hold(values, es.subrange(0, k)) && holds(
            values,
            es[k],
        )),
        first_failure(values, es.subrange(0, k + 1)) == (if !all_hold(values, es.subrange(0, k)) {
            first_failure(values, es.subrange(0, k))
        } else {
            diagnostic(values, es[k])
        }),
        any_holds(values, es.subrange(0, k + 1)) == (any_holds(values, es.subrange(0, k)) || holds(
            values,
            es[k],
        )),
{
    assert(es.subrange(0, k + 1).drop_last() =~= es.subrange(0, k));
}

/// Checks condition `expr` against `input`; on failure says which part failed, on what.
pub fn assert_expr(input: &Vec<Json>, expr: &Expr) -> (r: Result<(), AssertDiagnostic>)
    ensures
        r is Ok <==> holds(items_model(input@), expr@),
        r matches Err(d) ==> d@ == diagnostic(items_model(input@), expr@),
    decreases expr,
{
    let ghost values = items_model(input@);
    proof {
        lemma_items_model(input@);
    }
    match expr {
        Expr::OneExpr { one } => {
            let no_env = Env::new();
            let mut i: usize = 0;
            let mut found = false;
            while i < input.len() && !found
                invariant
                    i <= input@.len(),
                    values == items_model(input@),
                    values.len() == input@.len(),
                    forall|j: int| 0 <= j < input@.len() ==> #[trigger] values[j] == input@[j]@,
                    no_env.vars() == no_vars(),
                    found == found_in(values.subrange(0, i as int), one@, no_vars()),
                decreases input@.len() - i,
            {
                proof {
                    lemma_found_in_prefix(values, one@, i as int);
                }
                found = contains(&input[i], one, &no_env);
                i = i + 1;
            }
            proof {
                if found {
                    lemma_found_in_monotone(values, one@, i as int);
                } else {
                    assert(values.subrange(0, i as int) =~= values);
                }
            }
            if found {
                Ok(())
            } else {
                Err(fail_with(input, expr))
            }
        },
        Expr::AllExpr { all } => {
            let no_env = Env::new();
            let mut i: usize = 0;
            let mut ok = true;
            while i < input.len() && ok
                invariant
                    i <= input@.len(),
                    values == items_model(input@),
                    values.len() == input@.len(),
                    forall|j: int| 0 <= j < input@.len() ==> #[trigger] values[j] == input@[j]@,
                    no_env.vars() == no_vars(),
                    ok == all_contain(values.subrange(0, i as int), all@),
                decreases input@.len() - i,
            {
                proof {
                    lemma_all_contain_prefix(values, all@, i as int);
                }
                ok = contains(&input[i], all, &no_env);
                i = i + 1;
            }
            proof {
                if ok {
                    assert(values.subrange(0, i as int) =~= values);
                } else {
                    lemma_all_contain_monotone(values, all@, i as int);
                }
            }
            if ok {
                Ok(())
            } else {
                Err(fail_with(input, expr))
            }
        },
        Expr::SizeExpr { size } => {
            if input.len() == *size {
                Ok(())
            } else {
                let observed = vec![Json::Number(JsonNumber::PosInt(input.len() as u64))];
                proof {
                    lemma_items_model(observed@);
                    assert(items_model(observed@) =~= seq![
                        JsonModel::Number(NumberModel::PosInt(values.len() as u64)),
                    ]);
                }
                Err(AssertDiagnostic { expr: Expr::SizeExpr { size: *size }, input: observed })
            }
        },
        Expr::AndExpr { and } => {
            proof {
                lemma_exprs_model(and@);
                assert(decreases_to!(*expr => expr->and));
                assert(decreases_to!(*and => and@));
            }
            let ghost es = exprs_model(and@);
            let mut i: usize = 0;
            while i < and.len()
                invariant
                    decreases_to!(*expr => and@),
                    i <= and@.len(),
                    values == items_model(input@),
                    es == exprs_model(and@),
                    expr@ == ExprModel::And(es),
                    es.len() == and@.len(),
                    forall|j: int| 0 <= j < and@.len() ==> #[trigger] es[j] == and@[j]@,
                    all_hold(values, es.subrange(0, i as int)),
                decreases and@.len() - i,
            {
                proof {
                    lemma_all_hold_prefix(values, es, i as int);
                    assert(decreases_to!(and@ => and@[i as int]));
                }
                let res = assert_expr(input, &and[i]);
                match res {
                    Ok(()) => {},
                    Err(d) => {
                        proof {
                            lemma_all_hold_monotone(values, es, i as int + 1);
                            lemma_first_failure_stable(values, es, i as int + 1);
                        }
                        return Err(d);
                    },
                }
                i = i + 1;
            }
            proof {
                assert(es.subrange(0, i as int) =~= es);
            }
            Ok(())
        },
        Expr::OrExpr { or } => {
            proof {
                lemma_exprs_model(or@);
                assert(decreases_to!(*expr => expr->or));
                assert(decreases_to!(*or => or@));
            }
            let ghost es = exprs_model(or@);
            let mut i: usize = 0;
            let mut any = false;
            while i < or.len() && !any
                invariant
                    decreases_to!(*expr => or@),
                    i <= or@.len(),
                    values == items_model(input@),
                    es == exprs_model(or@),
                    es.len() == or@.len(),
                    forall|j: int| 0 <= j < or@.len() ==> #[trigger] es[j] == or@[j]@,
                    any == any_holds(values, es.subrange(0, i as int)),
                decreases or@.len() - i,
            {
                proof {
                    lemma_all_hold_prefix(values, es, i as int);
                    assert(decreases_to!(or@ => or@[i as int]));
                }
                any = assert_expr(input, &or[i]).is_ok();
                i = i + 1;
            }
            proof {
                if any {
                    lemma_any_holds_monotone(values, es, i as int);
                } else {
                    assert(es.subrange(0, i as int) =~= es);
                }
            }
            if any {
                Ok(())
            } else {
                Err(fail_with(input, expr))
            }
        },
        Expr::NotExpr { not } => {
            proof {
                assert(decreases_to!(*expr => expr->not));
            }
            if assert_expr(input, not).is_err() {
                Ok(())
            } else {
                Err(fail_with(input, expr))
            }
        },
    }
}

proof fn lemma_found_in_monotone(values: Seq<JsonModel>, pattern: JsonModel, k: int)
    requires
        0 <= k <= values.len(),
        found_in(values.subrange(0, k), pattern, no_vars()),
    ensures
        found_in(values, pattern, no_vars()),
    decreases values.len() - k,
{
    if k < values.len() {
        lemma_found_in_prefix(values, pattern, k);
        lemma_found_in_monotone(values, pattern, k + 1);
    } else {
        assert(values.subrange(0, k) =~= values);
    }
}

proof fn lemma_all_contain_monotone(values: Seq<JsonModel>, pattern: JsonModel, k: int)
    requires
        0 <= k <= values.len(),
        !all_contain(values.subrange(0, k), pattern),
    ensures
        !all_contain(values, pattern),
    decreases values.len() - k,
{
    if k < values.len() {
        lemma_all_contain_prefix(values, pattern, k);
        lemma_all_contain_monotone(values, pattern, k + 1);
    } else {
        assert(values.subrange(0, k) =~= values);
    }
}

proof fn lemma_any_holds_monotone(values: Seq<JsonModel>, es: Seq<ExprModel>, k: int)
    requires
        0 <= k <= es.len(),
        any_holds(values, es.subrange(0, k)),
    ensures
        any_holds(values, es),
    decreases es.len() - k,
{
    if k < es.len() {
        lemma_all_hold_prefix(values, es, k);
        lemma_any_holds_monotone(values, es, k + 1);
    } else {
        assert(es.subrange(0, k) =~= es);
    }
}

proof fn lemma_all_hold_monotone(values: Seq<JsonModel>, es: Seq<ExprModel>, k: int)
    requires
        0 <= k <= es.len(),
        !all_hold(values, es.subrange(0, k)),
    ensures
        !all_hold(values, es),
    decreases es.len() - k,
{
    if k < es.len() {
        lemma_all_hold_prefix(values, es, k);
        lemma_all_hold_monotone(values, es, k + 1);
    } else {
        assert(es.subrange(0, k) =~= es);
    }
}

/// Once a prefix of `es` fails, the first failure of `es` is that of the prefix.
proof fn lemma_first_failure_stable(values: Seq<JsonModel>, es: Seq<ExprModel>, k: int)
    requires
        0 <= k <= es.len(),
        !all_hold(values, es.subrange(0, k)),
    ensures
        first_failure(values, es) == first_failure(values, es.subrange(0, k)),
    decreases es.len() - k,
{
    if k < es.len() {
        lemma_all_hold_prefix(values, es, k);
        lemma_first_failure_stable(values, es, k + 1);
    } else {
        assert(es.subrange(0, k) =~= es);
    }
}

/// The input lines of a diagnostic: `  <n>. <json>` for each value, numbered from 1.
pub open spec fn input_lines(values: Seq<JsonModel>) -> Seq<char>
    decreases values.len(),
{
    if values.len() == 0 {
        Seq::empty()
    } else {
        input_lines(values.drop_last()) + "  "@ + decimal(values.len()) + ". "@ + compact_text(
            values.last(),
        ) + "\n"@
    }
}

/// How a failed condition is shown to a reader: the expression, then the input values.
pub open spec fn diagnostic_text(expr: ExprModel, values: Seq<JsonModel>) -> Seq<char> {
    "Assertion Failed\n"@ + "Failed Expression: "@ + render_spec(expr) + "\n"@ + "Input Data:\n"@
        + input_lines(values)
}

impl AssertDiagnostic {
    /// The diagnostic as shown to a reader; see `diagnostic_text`.
    pub fn render(&self) -> (r: String)
        ensures
            r@ == diagnostic_text(self@.0, self@.1),
    {
        let mut r = String::from_str("Assertion Failed\n");
        r.append("Failed Expression: ");
        let e = self.expr.render();
        r.append(e.as_str());
        r.append("\n");
        r.append("Input Data:\n");
        let ghost head = r@;
        proof {
            lemma_items_model(self.input@);
            assert(items_model(self.input@).subrange(0, 0) =~= Seq::<JsonModel>::empty());
        }
        let mut i: usize = 0;
        while i < self.input.len()
            invariant
                i <= self.input@.len(),
                items_model(self.input@).len() == self.input@.len(),
                forall|j: int|
                    0 <= j < self.input@.len() ==> #[trigger] items_model(self.input@)[j]
                        == self.input@[j]@,
                r@ == head + input_lines(items_model(self.input@).subrange(0, i as int)),
            decreases self.input@.len() - i,
        {
            let ghost before = r@;
            r.append("  ");
            let n = decimal_text(i as u64 + 1);
            r.append(n.as_str());
            r.append(". ");
            let j = compact_json(&self.input[i]);
            r.append(j.as_str());
            r.append("\n");
            proof {
                let p = items_model(self.input@).subrange(0, i + 1);
                assert(p.drop_last() =~= items_model(self.input@).subrange(0, i as int));
                assert(p.last() == self.input@[i as int]@);
                assert(r@ =~= head + input_lines(p));
            }
            i = i + 1;
        }
        proof {
            assert(items_model(self.input@).subrange(0, i as int) =~= items_model(self.input@));
        }
        r
    }
}

/// On no values at all, `ALL` holds whatever its pattern, and `ANY` fails.
pub proof fn lemma_empty_values(p: JsonModel)
    ensures
        holds(Seq::empty(), ExprModel::All(p)),
        !holds(Seq::empty(), ExprModel::One(p)),
{
}

/// On exactly one value, `NOT(size == 0)` holds.
pub proof fn lemma_not_size_zero_on_one_value(v: JsonModel)
    ensures
        holds(seq![v], ExprModel::Not(Box::new(ExprModel::Size(0)))),
{
    assert(!holds(seq![v], ExprModel::Size(0)));
}

} // verus!
