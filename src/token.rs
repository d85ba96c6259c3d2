use vstd::prelude::*;

verus! {

/// The four binary operators.
#[derive(Debug, Clone, Copy, PartialEq, Eq, Structural)]
pub enum Symbol {
    Add,
    Subtract,
    Multiply,
    Divide,
}

/// One element of a postfix expression: an operator, or an integer operand.
#[derive(Debug, Clone, Copy, PartialEq, Eq, Structural)]
pub enum Token {
    Operator(Symbol),
    Operand(i64),
}

/// The character that shows a symbol in infix text.
pub open spec fn symbol_char(s: Symbol) -> char {
    match s {
        Symbol::Add => '+',
        Symbol::Subtract => '-',
        Symbol::Multiply => '*',
        Symbol::Divide => '/',
    }
}

/// The symbol numbered `d` in the order `Add`, `Subtract`, `Multiply`, `Divide`.
pub open spec fn symbol_of_digit(d: int) -> Symbol {
    if d == 0 {
        Symbol::Add
    } else if d == 1 {
        Symbol::Subtract
    } else if d == 2 {
        Symbol::Multiply
    } else {
        Symbol::Divide
    }
}

} // verus!
