use reverse_polish::error::ErrorKind;
use reverse_polish::evaluate::solve_reverse_polish;
use reverse_polish::input::{create_base_equation, validate_num_string};
use reverse_polish::render::{decimal_string, equation_to_infix};
use reverse_polish::search::find_solutions;
use reverse_polish::token::{Symbol, Token};
use reverse_polish::value::{float_eq, Value};

fn operands(ds: &[i64]) -> Vec<Token> {
    ds.iter().map(|d| Token::Operand(*d)).collect()
}

fn symbol_of(d: u32) -> Symbol {
    match d {
        0 => Symbol::Add,
        1 => Symbol::Subtract,
        2 => Symbol::Multiply,
        _ => Symbol::Divide,
    }
}

fn candidate(ds: &[i64], i: u32) -> Vec<Token> {
    let mut e = operands(ds);
    let mut r = i;
    for _ in 0..3 {
        e.push(Token::Operator(symbol_of(r % 4)));
        r /= 4;
    }
    e
}

fn float_eval(tokens: &[Token]) -> Option<f64> {
    let mut st: Vec<f64> = Vec::new();
    for t in tokens {
        match t {
            Token::Operand(v) => st.push(*v as f64),
            Token::Operator(s) => {
                let b = st.pop()?;
                let a = st.pop()?;
                st.push(match s {
                    Symbol::Add => a + b,
                    Symbol::Subtract => a - b,
                    Symbol::Multiply => a * b,
                    Symbol::Divide => a / b,
                });
            }
        }
    }
    if st.len() == 1 {
        st.pop()
    } else {
        None
    }
}

fn is_ten(v: Option<f64>) -> bool {
    matches!(v, Some(x) if (x - 10.0).abs() < 1e-9)
}

fn ten() -> Value {
    Value::from_int(10)
}

#[test]
fn solve_empty() {
    assert_eq!(
        Err(ErrorKind::MalformedExpression),
        solve_reverse_polish(&Vec::new())
    );
    assert_eq!(ErrorKind::MalformedExpression.message(), "Stack length != 1");
}

#[test]
fn solve_single_operand() {
    assert_eq!(
        solve_reverse_polish(&vec![Token::Operand(7)]),
        Ok(Value::Ratio { num: 7, den: 1 })
    );
}

#[test]
fn solve_insufficient_operands() {
    let e = vec![Token::Operand(1), Token::Operator(Symbol::Add)];
    assert_eq!(solve_reverse_polish(&e), Err(ErrorKind::InsufficientOperands));
    let e = vec![Token::Operator(Symbol::Multiply), Token::Operand(1), Token::Operand(2)];
    assert_eq!(solve_reverse_polish(&e), Err(ErrorKind::InsufficientOperands));
}

#[test]
fn solve_leftover_operands() {
    let e = vec![Token::Operand(1), Token::Operand(2)];
    assert_eq!(solve_reverse_polish(&e), Err(ErrorKind::MalformedExpression));
}

#[test]
fn solve_operand_order() {
    let sub = vec![Token::Operand(8), Token::Operand(2), Token::Operator(Symbol::Subtract)];
    assert!(float_eq(solve_reverse_polish(&sub).unwrap(), Value::from_int(6)));
    let div = vec![Token::Operand(8), Token::Operand(2), Token::Operator(Symbol::Divide)];
    assert!(float_eq(solve_reverse_polish(&div).unwrap(), Value::from_int(4)));
    let div = vec![Token::Operand(2), Token::Operand(8), Token::Operator(Symbol::Divide)];
    assert_eq!(solve_reverse_polish(&div), Ok(Value::Ratio { num: 2, den: 8 }));
}

#[test]
fn solve_add_chain() {
    let mut e = operands(&[1, 2, 5, 8]);
    e.push(Token::Operator(Symbol::Add));
    e.push(Token::Operator(Symbol::Add));
    e.push(Token::Operator(Symbol::Add));
    assert!(float_eq(solve_reverse_polish(&e).unwrap(), Value::from_int(16)));
}

#[test]
fn solve_division_by_zero() {
    let e = vec![Token::Operand(1), Token::Operand(0), Token::Operator(Symbol::Divide)];
    let v = solve_reverse_polish(&e).unwrap();
    assert_eq!(v, Value::NotANumber);
    assert!(!float_eq(v, v));
    assert!(!float_eq(v, ten()));
}

#[test]
fn solve_overflow_is_not_a_number() {
    let e = vec![
        Token::Operand(i64::MAX),
        Token::Operand(2),
        Token::Operator(Symbol::Multiply),
    ];
    assert_eq!(solve_reverse_polish(&e), Ok(Value::NotANumber));
}

#[test]
fn float_eq_compares_quotients() {
    assert!(float_eq(Value::Ratio { num: 20, den: 2 }, ten()));
    assert!(float_eq(Value::Ratio { num: -30, den: -3 }, ten()));
    assert!(!float_eq(Value::Ratio { num: 21, den: 2 }, ten()));
    assert!(!float_eq(Value::Ratio { num: 0, den: 0 }, Value::Ratio { num: 0, den: 0 }));
}

#[test]
fn validate_examples() {
    assert_eq!(validate_num_string("123"), Err(ErrorKind::WrongLength));
    assert_eq!(validate_num_string("12a4"), Err(ErrorKind::ParseFailure));
    assert_eq!(validate_num_string("1234"), Ok(true));
}

#[test]
fn validate_length_and_parse_are_separate() {
    assert_eq!(validate_num_string(""), Err(ErrorKind::WrongLength));
    assert_eq!(validate_num_string("12345"), Err(ErrorKind::WrongLength));
    assert_eq!(validate_num_string("abcd"), Err(ErrorKind::ParseFailure));
    assert_eq!(validate_num_string("-123"), Err(ErrorKind::ParseFailure));
    assert_eq!(validate_num_string("+123"), Ok(true));
    assert_eq!(validate_num_string("9999"), Ok(true));
}

#[test]
fn validate_counts_characters_not_bytes() {
    assert_eq!(validate_num_string("12\u{e9}4"), Err(ErrorKind::ParseFailure));
    assert_eq!(validate_num_string("\u{e9}\u{e9}"), Err(ErrorKind::WrongLength));
}

#[test]
fn validate_and_build_repeat() {
    for s in ["1234", "123", "12a4", "0000", "+123"] {
        assert_eq!(validate_num_string(s), validate_num_string(s));
        assert_eq!(create_base_equation(s), create_base_equation(s));
    }
}

#[test]
fn build_base_equation() {
    assert_eq!(create_base_equation("1234"), Ok(operands(&[1, 2, 3, 4])));
    assert_eq!(create_base_equation("0907"), Ok(operands(&[0, 9, 0, 7])));
    assert_eq!(create_base_equation("123"), Err(ErrorKind::WrongLength));
    assert_eq!(create_base_equation("12a4"), Err(ErrorKind::ParseFailure));
    assert_eq!(create_base_equation("+123"), Err(ErrorKind::ParseFailure));
}

#[test]
fn search_single_solution() {
    let base = create_base_equation("1234").unwrap();
    let sols = find_solutions(&base).unwrap();
    assert_eq!(sols, vec![candidate(&[1, 2, 3, 4], 0)]);
}

#[test]
fn search_keeps_enumeration_order() {
    let base = create_base_equation("5555").unwrap();
    let sols = find_solutions(&base).unwrap();
    let expected: Vec<Vec<Token>> =
        [1, 5, 11, 15, 20, 60].iter().map(|i| candidate(&[5, 5, 5, 5], *i)).collect();
    assert_eq!(sols, expected);
    let base = create_base_equation("2511").unwrap();
    assert_eq!(find_solutions(&base).unwrap().len(), 6);
}

#[test]
fn search_is_exhaustive_and_sound() {
    for digits in [[1, 2, 5, 8], [1, 1, 8, 9], [2, 5, 1, 1], [5, 5, 5, 5], [9, 9, 9, 9], [3, 7, 0, 2]] {
        let sols = find_solutions(&operands(&digits)).unwrap();
        assert!(sols.len() <= 64);
        for s in &sols {
            assert!(float_eq(solve_reverse_polish(s).unwrap(), ten()));
            assert!(is_ten(float_eval(s)));
        }
        for i in 0..64 {
            let c = candidate(&digits, i);
            assert_eq!(sols.contains(&c), is_ten(float_eval(&c)));
        }
    }
}

#[test]
fn search_all_zeros() {
    assert_eq!(validate_num_string("0000"), Ok(true));
    let base = create_base_equation("0000").unwrap();
    assert_eq!(find_solutions(&base), Ok(Vec::new()));
}

#[test]
fn render_solution() {
    let e = candidate(&[1, 2, 3, 4], 0);
    assert_eq!(equation_to_infix(&e), "(1 + (2 + (3 + 4))) = 10");
    let e = candidate(&[5, 5, 5, 5], 60);
    assert_eq!(equation_to_infix(&e), "(5 / (5 / (5 + 5))) = 10");
    let e = candidate(&[2, 5, 1, 1], 43);
    assert_eq!(equation_to_infix(&e), "(2 * (5 * (1 / 1))) = 10");
}

#[test]
fn render_decimal() {
    assert_eq!(decimal_string(0), "0");
    assert_eq!(decimal_string(907), "907");
    assert_eq!(decimal_string(-42), "-42");
    assert_eq!(decimal_string(i64::MIN), "-9223372036854775808");
}

fn parse_infix(s: &[u8], pos: &mut usize) -> f64 {
    if s[*pos] == b'(' {
        *pos += 1;
        let a = parse_infix(s, pos);
        let op = s[*pos + 1];
        *pos += 3;
        let b = parse_infix(s, pos);
        *pos += 1;
        match op {
            b'+' => a + b,
            b'-' => a - b,
            b'*' => a * b,
            _ => a / b,
        }
    } else {
        let start = *pos;
        while *pos < s.len() && (s[*pos] as char).is_ascii_digit() {
            *pos += 1;
        }
        std::str::from_utf8(&s[start..*pos]).unwrap().parse::<f64>().unwrap()
    }
}

#[test]
fn render_round_trip() {
    for digits in [[2, 5, 1, 1], [5, 5, 5, 5], [1, 2, 3, 4]] {
        for e in find_solutions(&operands(&digits)).unwrap() {
            let line = equation_to_infix(&e);
            let (infix, goal) = line.split_once(" = ").unwrap();
            assert_eq!(goal, "10");
            let mut pos = 0;
            let v = parse_infix(infix.as_bytes(), &mut pos);
            assert_eq!(pos, infix.len());
            assert!((v - 10.0).abs() < 1e-9);
        }
    }
}
