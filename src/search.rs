use vstd::prelude::*;

use crate::error::ErrorKind;
use crate::evaluate::{eval_spec, solve_reverse_polish};
use crate::token::{symbol_of_digit, Symbol, Token};
use crate::value::{float_eq, int_value, same_value, Value};

verus! {

/// How many distinct operator symbols there are.
pub const NUM_SYMBOLS: u32 = 4;

/// How many operator slots follow the operands.
pub const NUM_OPERATORS: u32 = 3;

/// How many ways there are to fill the operator slots: `NUM_SYMBOLS` to the
/// power `NUM_OPERATORS`.
pub const NUM_COMBINATIONS: u32 = 64;

/// The value that a solution must reach.
pub const GOAL_NUM: i64 = 10;

/// The `k` operator tokens that `i` encodes: its base-4 digits, least
/// significant first, each naming a symbol.
pub open spec fn operator_slots(i: nat, k: nat) -> Seq<Token>
    decreases k,
{
    if k == 0 {
        Seq::empty()
    } else {
        seq![Token::Operator(symbol_of_digit((i % 4) as int))] + operator_slots(i / 4, (k - 1) as nat)
    }
}

/// The candidate equation numbered `i`: the base operands, then the operators that `i` encodes.
pub open spec fn candidate(base: Seq<Token>, i: nat) -> Seq<Token> {
    base + operator_slots(i, NUM_OPERATORS as nat)
}

/// Whether the postfix expression `ts` evaluates to the goal value.
pub open spec fn is_solution(ts: Seq<Token>) -> bool {
    eval_spec(ts) matches Ok(v) && same_value(v, int_value(GOAL_NUM))
}

/// The candidates numbered below `n` that are solutions, in ascending order of number.
pub open spec fn solutions_upto(base: Seq<Token>, n: nat) -> Seq<Seq<Token>>
    decreases n,
{
    if n == 0 {
        Seq::empty()
    } else {
        let prev = solutions_upto(base, (n - 1) as nat);
        let c = candidate(base, (n - 1) as nat);
        if is_solution(c) {
            prev.push(c)
        } else {
            prev
        }
    }
}

/// Every solution of the puzzle on `base`, in the order of enumeration.
pub open spec fn all_solutions(base: Seq<Token>) -> Seq<Seq<Token>> {
    solutions_upto(base, NUM_COMBINATIONS as nat)
}

/// The equations of `v` as token sequences.
pub open spec fn equations_view(v: Seq<Vec<Token>>) -> Seq<Seq<Token>> {
    v.map_values(|e: Vec<Token>| e@)
}

/// Appends to `base` the operator tokens that `i` encodes, one per slot.
fn build_candidate(base: &Vec<Token>, i: u32) -> (r: Result<Vec<Token>, ErrorKind>)
    requires
        i < NUM_COMBINATIONS,
    ensures
        r matches Ok(e) && e@ == candidate(base@, i as nat),
{
    let mut equation = base.clone();
    let mut rest: u32 = i;
    let mut j: u32 = 0;
    assert(equation@ + operator_slots(i as nat, NUM_OPERATORS as nat) == candidate(base@, i as nat));
    while j < NUM_OPERATORS
        invariant
            j <= NUM_OPERATORS,
            rest <= i,
            equation@ + operator_slots(rest as nat, (NUM_OPERATORS - j) as nat) == candidate(
                base@,
                i as nat,
            ),
        decreases NUM_OPERATORS - j,
    {
        let ghost before = equation@;
        let ghost tail = operator_slots((rest / NUM_SYMBOLS) as nat, (NUM_OPERATORS - j - 1) as nat);
        let operator = match rest % NUM_SYMBOLS {
            0 => Token::Operator(Symbol::Add),
            1 => Token::Operator(Symbol::Subtract),
            2 => Token::Operator(Symbol::Multiply),
            3 => Token::Operator(Symbol::Divide),
            _ => return Err(ErrorKind::UnknownOperator),
        };
        assert(operator == Token::Operator(symbol_of_digit((rest % 4) as int)));
        equation.push(operator);
        assert(before + (seq![operator] + tail) =~= equation@ + tail);
        rest = rest / NUM_SYMBOLS;
        j = j + 1;
    }
    assert(equation@ + Seq::<Token>::empty() =~= equation@);
    Ok(equation)
}

/// Finds, in order of enumeration, every way of filling the operator slots
/// after `base_equation` whose postfix evaluation is exactly the goal value.
pub fn find_solutions(base_equation: &Vec<Token>) -> (r: Result<Vec<Vec<Token>>, ErrorKind>)
    ensures
        r matches Ok(sols) && equations_view(sols@) == all_solutions(base_equation@),
        r matches Ok(sols) && sols@.len() <= NUM_COMBINATIONS,
{
    let mut solutions: Vec<Vec<Token>> = Vec::new();
    let mut i: u32 = 0;
    while i < NUM_COMBINATIONS
        invariant
            i <= NUM_COMBINATIONS,
            equations_view(solutions@) == solutions_upto(base_equation@, i as nat),
        decreases NUM_COMBINATIONS - i,
    {
        let equation = match build_candidate(base_equation, i) {
            Ok(e) => e,
            Err(e) => return Err(e),
        };
        let ghost before = solutions@;
        let ghost c = equation@;
        let hit = match solve_reverse_polish(&equation) {
            Ok(result) => float_eq(result, Value::from_int(GOAL_NUM)),
            Err(_) => false,
        };
        if hit {
            solutions.push(equation);
            assert(equations_view(solutions@) =~= equations_view(before).push(c));
        }
        i = i + 1;
    }
    proof {
        lemma_solution_count(base_equation@, NUM_COMBINATIONS as nat);
    }
    Ok(solutions)
}

/// The solutions among the first `n` candidates number at most `n`.
pub proof fn lemma_solution_count(base: Seq<Token>, n: nat)
    ensures
        solutions_upto(base, n).len() <= n,
    decreases n,
{
    if n > 0 {
        lemma_solution_count(base, (n - 1) as nat);
    }
}

/// The solutions found are exactly the candidates that evaluate to the goal:
/// each element is some candidate and evaluates to the goal value, and every
/// candidate that evaluates to the goal value is among them.
pub proof fn lemma_solutions_exact(base: Seq<Token>, n: nat)
    ensures
        forall|k: int|
            0 <= k < solutions_upto(base, n).len() ==> is_solution(
                #[trigger] solutions_upto(base, n)[k],
            ) && exists|i: nat| i < n && solutions_upto(base, n)[k] == candidate(base, i),
        forall|i: nat|
            i < n && is_solution(#[trigger] candidate(base, i)) ==> solutions_upto(
                base,
                n,
            ).contains(candidate(base, i)),
    decreases n,
{
    if n > 0 {
        let m = (n - 1) as nat;
        lemma_solutions_exact(base, m);
        let prev = solutions_upto(base, m);
        let cur = solutions_upto(base, n);
        assert forall|k: int| 0 <= k < cur.len() implies is_solution(#[trigger] cur[k]) && exists|
            i: nat,
        | i < n && cur[k] == candidate(base, i) by {
            if k < prev.len() {
                assert(cur[k] == prev[k]);
                let i = choose|i: nat| i < m && prev[k] == candidate(base, i);
                assert(i < n && cur[k] == candidate(base, i));
            } else {
                assert(cur[k] == candidate(base, m));
            }
        }
        assert forall|i: nat| i < n && is_solution(#[trigger] candidate(base, i)) implies cur.contains(
            candidate(base, i),
        ) by {
            if i < m {
                let j = choose|j: int| 0 <= j < prev.len() && prev[j] == candidate(base, i);
                assert(cur[j] == prev[j]);
            } else {
                assert(cur[prev.len() as int] == candidate(base, i));
            }
        }
    }
}

} // verus!
