use vstd::prelude::*;

use crate::error::ErrorKind;
use crate::token::{Symbol, Token};
use crate::value::{apply_spec, int_value, Value};

verus! {

/// The stack left after feeding `ts` to the postfix machine, or the error that
/// stopped it: an operand pushes its value; an operator pops the top value `b`
/// and then `a`, and pushes `a OP b`, failing where fewer than two values stand.
pub open spec fn eval_stack(ts: Seq<Token>) -> Result<Seq<Value>, ErrorKind>
    decreases ts.len(),
{
    if ts.len() == 0 {
        Ok(Seq::empty())
    } else {
        match eval_stack(ts.drop_last()) {
            Err(e) => Err(e),
            Ok(st) => match ts.last() {
                Token::Operand(v) => Ok(st.push(int_value(v))),
                Token::Operator(s) => if st.len() < 2 {
                    Err(ErrorKind::InsufficientOperands)
                } else {
                    Ok(
                        st.subrange(0, st.len() - 2).push(
                            apply_spec(s, st[st.len() - 2], st[st.len() - 1]),
                        ),
                    )
                },
            },
        }
    }
}

/// The value of the postfix expression `ts`: the one value left on the stack.
pub open spec fn eval_spec(ts: Seq<Token>) -> Result<Value, ErrorKind> {
    match eval_stack(ts) {
        Err(e) => Err(e),
        Ok(st) => if st.len() == 1 {
            Ok(st[0])
        } else {
            Err(ErrorKind::MalformedExpression)
        },
    }
}

/// An error on a prefix of the tokens is the error of the whole sequence.
pub proof fn lemma_error_persists(ts: Seq<Token>, k: int)
    requires
        0 <= k <= ts.len(),
        eval_stack(ts.take(k)) is Err,
    ensures
        eval_stack(ts) == eval_stack(ts.take(k)),
    decreases ts.len() - k,
{
    if k == ts.len() {
        assert(ts.take(k) =~= ts);
    } else {
        let p = ts.drop_last();
        assert(p.take(k) =~= ts.take(k));
        lemma_error_persists(p, k);
    }
}

/// A sequence that evaluates without error has every prefix evaluate without error.
pub proof fn lemma_prefix_ok(ts: Seq<Token>, k: int)
    requires
        0 <= k <= ts.len(),
        eval_stack(ts) is Ok,
    ensures
        eval_stack(ts.take(k)) is Ok,
{
    if eval_stack(ts.take(k)) is Err {
        lemma_error_persists(ts, k);
    }
}

/// Evaluates a postfix expression with a stack of values.
pub fn solve_reverse_polish(equation: &Vec<Token>) -> (r: Result<Value, ErrorKind>)
    ensures
        r == eval_spec(equation@),
{
    let mut stack: Vec<Value> = Vec::new();
    let mut i: usize = 0;
    assert(equation@.take(0) =~= Seq::<Token>::empty());
    while i < equation.len()
        invariant
            0 <= i <= equation.len(),
            eval_stack(equation@.take(i as int)) == Ok::<Seq<Value>, ErrorKind>(stack@),
        decreases equation.len() - i,
    {
        let ghost before = stack@;
        assert(equation@.take(i + 1).drop_last() =~= equation@.take(i as int));
        match equation[i] {
            Token::Operand(v) => {
                stack.push(Value::from_int(v));
            },
            Token::Operator(s) => {
                if stack.len() < 2 {
                    proof {
                        lemma_error_persists(equation@, i + 1);
                    }
                    return Err(ErrorKind::InsufficientOperands);
                }
                let top = stack.pop().unwrap();
                let second = stack.pop().unwrap();
                assert(stack@ =~= before.subrange(0, before.len() - 2));
                stack.push(second.apply(s, top));
            },
        }
        i += 1;
    }
    assert(equation@.take(i as int) =~= equation@);
    if stack.len() != 1 {
        return Err(ErrorKind::MalformedExpression);
    }
    Ok(stack[0])
}

/// A lone operand evaluates to its own value.
pub proof fn lemma_single_operand(v: i64)
    ensures
        eval_spec(seq![Token::Operand(v)]) == Ok::<Value, ErrorKind>(int_value(v)),
{
    let ts = seq![Token::Operand(v)];
    assert(ts.drop_last() =~= Seq::<Token>::empty());
    assert(eval_stack(ts.drop_last()) == Ok::<Seq<Value>, ErrorKind>(Seq::empty()));
    assert(eval_stack(ts) == Ok::<Seq<Value>, ErrorKind>(seq![int_value(v)])) by {
        assert(Seq::<Value>::empty().push(int_value(v)) =~= seq![int_value(v)]);
    }
}

} // verus!
