//! Calculator provider: arithmetic queries evaluated with `evalexpr`.
use vstd::prelude::*;
use crate::text;
use super::{plain_result, SearchResult};

verus! {

/// What `evalexpr::eval` gives for an expression (with a fresh context),
/// rendered with its `Display` impl; `None` when evaluation fails. A
/// function of the expression text alone.
pub uninterp spec fn evaluated(expr: Seq<char>) -> Option<Seq<char>>;

/// The longest expression handed to `evalexpr`. Its evaluation recurses
/// once per level of the expression tree without a depth limit, so a
/// deeply nested or very long input would exhaust the stack; this bound
/// keeps the depth small.
pub const MAX_EXPRESSION: usize = 1000;

/// The expression names one of evalexpr's builtins that can panic:
/// `str::substring` (slicing inside a character), `shl`/`shr` (shifting by
/// 64 or more) and `math::abs` (of the least integer). The test is by text,
/// so any name containing these words is caught.
pub open spec fn names_panicking_builtin(expr: Seq<char>) -> bool {
    ||| text::contains_seq(expr, "substring"@)
    ||| text::contains_seq(expr, "shl"@)
    ||| text::contains_seq(expr, "shr"@)
    ||| text::contains_seq(expr, "abs"@)
}

/// An expression handed to `evalexpr`: short enough for its recursion, and
/// naming none of the builtins that can panic.
pub open spec fn safe_expression(expr: Seq<char>) -> bool {
    expr.len() <= MAX_EXPRESSION && !names_panicking_builtin(expr)
}

/// Calls `evalexpr::eval` and renders the value with `to_string`; the
/// contract only names the outcome.
#[verifier::external_body]
fn eval_expression(expr: &str) -> (r: Option<String>)
    requires
        safe_expression(expr@),
    ensures
        match evaluated(expr@) {
            Some(s) => r matches Some(t) && t@ == s,
            None => r is None,
        },
{
    match evalexpr::eval(expr) {
        Ok(value) => Some(value.to_string()),
        Err(_) => None,
    }
}

/// Characters that mark a query as arithmetic.
pub open spec fn is_math_char(c: char) -> bool {
    text::is_digit(c) || c == '+' || c == '-' || c == '*' || c == '/' || c == 'x' || c == '÷'
        || c == '(' || c == ')'
}

/// `x` is read as multiplication and `÷` as division.
pub open spec fn spec_expression(query: Seq<char>) -> Seq<char> {
    query.map_values(
        |c: char|
            if c == 'x' {
                '*'
            } else if c == '÷' {
                '/'
            } else {
                c
            },
    )
}

pub struct CalculatorProvider;

impl CalculatorProvider {
    /// Runs when the query has a digit or an arithmetic symbol.
    pub fn should_run(&self, query: &str) -> (b: bool)
        ensures
            b == exists|i: int| 0 <= i < query@.len() && is_math_char(#[trigger] query@[i]),
    {
        let v = text::chars_of(query);
        let mut i: usize = 0;
        while i < v.len()
            invariant
                i <= v.len(),
                v@ == query@,
                forall|j: int| 0 <= j < i ==> !is_math_char(#[trigger] v@[j]),
            decreases v.len() - i,
        {
            let c = v[i];
            if text::is_ascii_digit(c) || c == '+' || c == '-' || c == '*' || c == '/' || c == 'x'
                || c == '÷' || c == '(' || c == ')' {
                return true;
            }
            i += 1;
        }
        false
    }

    /// Evaluate the query (`x` → `*`, `÷` → `/`); one result when it
    /// evaluates, none otherwise. An expression that is not safe to hand
    /// to evalexpr (see `safe_expression`) gives no result.
    pub fn search(&self, query: &str) -> (r: Vec<SearchResult>)
        ensures
            !safe_expression(spec_expression(query@)) ==> r.len() == 0,
            safe_expression(spec_expression(query@)) ==> match evaluated(spec_expression(query@)) {
                Some(out) => r.len() == 1 && spec_calc_result(query@, out, r[0]),
                None => r.len() == 0,
            },
    {
        let v = text::chars_of(query);
        if v.len() > MAX_EXPRESSION {
            return Vec::new();
        }
        let mut e = String::new();
        let mut i: usize = 0;
        while i < v.len()
            invariant
                i <= v.len(),
                v@ == query@,
                e@ == spec_expression(v@.take(i as int)),
            decreases v.len() - i,
        {
            let c = v[i];
            let d = if c == 'x' {
                '*'
            } else if c == '÷' {
                '/'
            } else {
                c
            };
            text::push_char(&mut e, d);
            i += 1;
            assert(spec_expression(v@.take(i as int)) == spec_expression(v@.take(i - 1)).push(d));
        }
        assert(v@.take(v.len() as int) == v@);
        assert(e@.len() == v@.len());
        let ev = text::chars_of(e.as_str());
        if text::contains_str(&ev, "substring") || text::contains_str(&ev, "shl") || text::contains_str(&ev, "shr")
            || text::contains_str(&ev, "abs") {
            return Vec::new();
        }
        let mut r = Vec::new();
        match eval_expression(e.as_str()) {
            Some(out) => {
                r.push(calc_result(query, out));
            },
            None => {},
        }
        r
    }
}

/// The result shown for an evaluated query.
pub open spec fn spec_calc_result(query: Seq<char>, out: Seq<char>, r: SearchResult) -> bool {
    &&& r.title@ == "= "@ + out
    &&& r.subtitle@ == "Calc: "@ + query
    &&& r.kind@ == "calc"@
    &&& r.provider_id@ == "calculator"@
    &&& r.action@ == out
    &&& r.icon_rgba is None
    &&& r.score == 1000
}

/// The result for `query` whose value renders as `output`: titled
/// `= <output>`, copying `<output>` when chosen.
pub fn calc_result(query: &str, output: String) -> (r: SearchResult)
    ensures
        spec_calc_result(query@, output@, r),
{
    let title = text::concat("= ", output.as_str());
    let subtitle = text::concat("Calc: ", query);
    plain_result(title, subtitle, "calc", "calculator", output, 1000)
}

} // verus!
