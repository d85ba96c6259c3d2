use vstd::prelude::*;
use vstd::string::*;

use crate::evaluate::{eval_spec, eval_stack, lemma_prefix_ok};
use crate::search::{is_solution, GOAL_NUM};
use crate::token::{symbol_char, Symbol, Token};
use crate::value::{apply_spec, int_value, same_value, Value};

verus! {

/// A fully parenthesized arithmetic expression.
pub enum Expr {
    Num(i64),
    Bin(Symbol, Box<Expr>, Box<Expr>),
}

/// The stack of expression trees that the postfix tokens `ts` build: an operand
/// pushes a leaf; an operator pops its right and then its left operand and
/// pushes the node that joins them.
pub open spec fn expr_stack(ts: Seq<Token>) -> Seq<Expr>
    decreases ts.len(),
{
    if ts.len() == 0 {
        Seq::empty()
    } else {
        let st = expr_stack(ts.drop_last());
        match ts.last() {
            Token::Operand(v) => st.push(Expr::Num(v)),
            Token::Operator(s) => if st.len() < 2 {
                st
            } else {
                st.subrange(0, st.len() - 2).push(
                    Expr::Bin(s, Box::new(st[st.len() - 2]), Box::new(st[st.len() - 1])),
                )
            },
        }
    }
}

/// The expression tree that the postfix tokens `ts` denote.
pub open spec fn expr_of(ts: Seq<Token>) -> Expr {
    expr_stack(ts).last()
}

/// The value of an expression by ordinary arithmetic on its parenthesization.
pub open spec fn expr_value(e: Expr) -> Value
    decreases e,
{
    match e {
        Expr::Num(v) => int_value(v),
        Expr::Bin(s, a, b) => apply_spec(s, expr_value(*a), expr_value(*b)),
    }
}

pub open spec fn digit_char(d: nat) -> char {
    ('0' as nat + d) as char
}

/// The decimal digits of `n`, without leading zeros.
pub open spec fn decimal_nat(n: nat) -> Seq<char>
    decreases n,
{
    if n < 10 {
        seq![digit_char(n)]
    } else {
        decimal_nat(n / 10).push(digit_char(n % 10))
    }
}

/// `v` in decimal, with a leading `-` when negative.
pub open spec fn decimal(v: int) -> Seq<char> {
    if v < 0 {
        seq!['-'] + decimal_nat((-v) as nat)
    } else {
        decimal_nat(v as nat)
    }
}

/// The infix text of an expression: `(left OP right)` for each operator node.
pub open spec fn show(e: Expr) -> Seq<char>
    decreases e,
{
    match e {
        Expr::Num(v) => decimal(v as int),
        Expr::Bin(s, a, b) => seq!['('] + show(*a) + seq![' ', symbol_char(s), ' '] + show(*b)
            + seq![')'],
    }
}

/// The line that reports a solved equation: its infix text, then ` = 10`.
pub open spec fn report_line(ts: Seq<Token>) -> Seq<char> {
    show(expr_of(ts)) + seq![' ', '=', ' '] + decimal(GOAL_NUM as int)
}

pub open spec fn shown(st: Seq<Expr>) -> Seq<Seq<char>> {
    st.map_values(|e: Expr| show(e))
}

/// A sequence that evaluates without error builds as many trees as values,
/// and each value is the value of its tree.
pub proof fn lemma_eval_matches_exprs(ts: Seq<Token>)
    requires
        eval_stack(ts) is Ok,
    ensures
        eval_stack(ts)->Ok_0 == expr_stack(ts).map_values(|e: Expr| expr_value(e)),
    decreases ts.len(),
{
    if ts.len() > 0 {
        let p = ts.drop_last();
        lemma_prefix_ok(ts, ts.len() - 1);
        assert(ts.take(ts.len() - 1) =~= p);
        lemma_eval_matches_exprs(p);
        let st = eval_stack(p)->Ok_0;
        let es = expr_stack(p);
        match ts.last() {
            Token::Operand(v) => {
                assert(eval_stack(ts)->Ok_0 =~= expr_stack(ts).map_values(|e: Expr| expr_value(e)));
            },
            Token::Operator(s) => {
                assert(eval_stack(ts)->Ok_0 =~= expr_stack(ts).map_values(|e: Expr| expr_value(e)));
            },
        }
    }
}

fn digit_str(d: u64) -> (r: &'static str)
    requires
        d < 10,
    ensures
        r@ == seq![digit_char(d as nat)],
{
    proof {
        reveal_strlit("0");
        reveal_strlit("1");
        reveal_strlit("2");
        reveal_strlit("3");
        reveal_strlit("4");
        reveal_strlit("5");
        reveal_strlit("6");
        reveal_strlit("7");
        reveal_strlit("8");
        reveal_strlit("9");
    }
    let r = match d {
        0 => "0",
        1 => "1",
        2 => "2",
        3 => "3",
        4 => "4",
        5 => "5",
        6 => "6",
        7 => "7",
        8 => "8",
        _ => "9",
    };
    assert(r@ =~= seq![digit_char(d as nat)]);
    r
}

fn append_decimal_nat(s: &mut String, n: u64)
    ensures
        final(s)@ == old(s)@ + decimal_nat(n as nat),
    decreases n,
{
    if n >= 10 {
        append_decimal_nat(s, n / 10);
    }
    s.append(digit_str(n % 10));
    assert(s@ =~= old(s)@ + decimal_nat(n as nat));
}

/// The decimal text of `v`.
pub fn decimal_string(v: i64) -> (r: String)
    ensures
        r@ == decimal(v as int),
{
    let mut s = String::new();
    if v < 0 {
        proof {
            reveal_strlit("-");
        }
        s.append("-");
        let m: u64 = (-(v as i128)) as u64;
        append_decimal_nat(&mut s, m);
    } else {
        append_decimal_nat(&mut s, v as u64);
    }
    assert(s@ =~= decimal(v as int));
    s
}

fn symbol_str(s: Symbol) -> (r: &'static str)
    ensures
        r@ == seq![' ', symbol_char(s), ' '],
{
    proof {
        reveal_strlit(" + ");
        reveal_strlit(" - ");
        reveal_strlit(" * ");
        reveal_strlit(" / ");
    }
    let r = match s {
        Symbol::Add => " + ",
        Symbol::Subtract => " - ",
        Symbol::Multiply => " * ",
        Symbol::Divide => " / ",
    };
    assert(r@ =~= seq![' ', symbol_char(s), ' ']);
    r
}

pub open spec fn strings_view(v: Seq<String>) -> Seq<Seq<char>> {
    v.map_values(|s: String| s@)
}

/// Renders a well-formed postfix equation as fully parenthesized infix text
/// followed by ` = 10`.
pub fn equation_to_infix(equation: &Vec<Token>) -> (r: String)
    requires
        eval_spec(equation@) is Ok,
    ensures
        r@ == report_line(equation@),
{
    let ghost ts = equation@;
    let mut stack: Vec<String> = Vec::new();
    let mut i: usize = 0;
    assert(ts.take(0) =~= Seq::<Token>::empty());
    assert(strings_view(stack@) =~= shown(expr_stack(ts.take(0))));
    while i < equation.len()
        invariant
            0 <= i <= equation.len(),
            ts == equation@,
            eval_spec(ts) is Ok,
            strings_view(stack@) == shown(expr_stack(ts.take(i as int))),
        decreases equation.len() - i,
    {
        let ghost before = stack@;
        let ghost pre = ts.take(i as int);
        let ghost next = ts.take(i + 1);
        assert(next.drop_last() =~= pre);
        assert(next.last() == equation@[i as int]);
        proof {
            lemma_prefix_ok(ts, i + 1);
            lemma_prefix_ok(ts, i as int);
            lemma_eval_matches_exprs(pre);
        }
        assert(before.len() == expr_stack(pre).len()) by {
            assert(strings_view(before).len() == before.len());
        }
        match equation[i] {
            Token::Operand(v) => {
                stack.push(decimal_string(v));
                assert(expr_stack(next) == expr_stack(pre).push(Expr::Num(v)));
                assert forall|k: int| 0 <= k < stack@.len() implies #[trigger] stack@[k]@ == show(
                    expr_stack(next)[k],
                ) by {
                    if k < stack@.len() - 1 {
                        assert(strings_view(before)[k] == shown(expr_stack(pre))[k]);
                    }
                }
                assert(strings_view(stack@) =~= shown(expr_stack(next)));
            },
            Token::Operator(s) => {
                let top = stack.pop().unwrap();
                let second = stack.pop().unwrap();
                proof {
                    reveal_strlit("(");
                    reveal_strlit(")");
                }
                let mut text = String::from_str("(");
                text.append(second.as_str());
                text.append(symbol_str(s));
                text.append(top.as_str());
                text.append(")");
                let ghost es = expr_stack(pre);
                assert(second@ == strings_view(before)[before.len() - 2]);
                assert(top@ == strings_view(before)[before.len() - 1]);
                assert(text@ =~= show(
                    Expr::Bin(s, Box::new(es[es.len() - 2]), Box::new(es[es.len() - 1])),
                ));
                stack.push(text);
                assert(expr_stack(next) == es.subrange(0, es.len() - 2).push(
                    Expr::Bin(s, Box::new(es[es.len() - 2]), Box::new(es[es.len() - 1])),
                ));
                assert forall|k: int| 0 <= k < stack@.len() implies #[trigger] stack@[k]@ == show(
                    expr_stack(next)[k],
                ) by {
                    if k < stack@.len() - 1 {
                        assert(strings_view(before)[k] == shown(expr_stack(pre))[k]);
                    }
                }
                assert(strings_view(stack@) =~= shown(expr_stack(next)));
            },
        }
        i = i + 1;
    }
    assert(ts.take(i as int) =~= ts);
    proof {
        lemma_eval_matches_exprs(ts);
    }
    assert(stack@.len() == 1) by {
        assert(strings_view(stack@).len() == stack@.len());
    }
    let ghost old_stack = stack@;
    let mut line = stack.pop().unwrap();
    assert(line@ == strings_view(stack@.push(line))[0]);
    assert(stack@.push(line) =~= old_stack);
    assert(line@ == show(expr_of(ts)));
    proof {
        reveal_strlit(" = ");
    }
    line.append(" = ");
    let goal = decimal_string(GOAL_NUM);
    line.append(goal.as_str());
    assert(line@ =~= report_line(ts));
    line
}

/// The report line of a solution is the infix text of an expression tree
/// whose value, worked out by ordinary arithmetic on that parenthesization,
/// is the goal value.
pub proof fn lemma_rendered_solution_value(ts: Seq<Token>)
    requires
        is_solution(ts),
    ensures
        report_line(ts) == show(expr_of(ts)) + seq![' ', '=', ' '] + decimal(GOAL_NUM as int),
        same_value(expr_value(expr_of(ts)), int_value(GOAL_NUM)),
{
    lemma_eval_matches_exprs(ts);
    let es = expr_stack(ts);
    assert(es.map_values(|e: Expr| expr_value(e))[0] == expr_value(es[0]));
}

} // verus!
