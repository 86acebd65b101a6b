use logo_turtle::environment::Environment;
use logo_turtle::error::Error;
use logo_turtle::expression::Expression;
use logo_turtle::expression::ExpressionSymbol;
use logo_turtle::expression::Function;
use logo_turtle::number::Decimal;
use logo_turtle::number::Number;
use logo_turtle::number::Operator;
use logo_turtle::number::Term;

fn number(v: f32) -> Number {
    Number { bits: v.to_bits(), rounded: v.round() as i32, nonzero: v != 0.0 }
}

fn compute(term: &Term) -> f32 {
    match term {
        Term::Literal(d) => {
            let sign = if d.negative { "-" } else { "" };
            format!("{}{}e-{}", sign, d.mantissa, d.scale).parse::<f32>().unwrap()
        }
        Term::Integer(i) => *i as f32,
        Term::Value(n) => f32::from_bits(n.bits),
        Term::Pi => std::f32::consts::PI,
        Term::Binary(op, x, y) => {
            let x = compute(x);
            let y = compute(y);
            match op {
                Operator::Add => x + y,
                Operator::Subtract => x - y,
                Operator::Multiply => x * y,
                Operator::Divide => x / y,
                Operator::Less => {
                    if x < y {
                        1.0
                    } else {
                        0.0
                    }
                }
            }
        }
        Term::Remainder(x, y) => compute(x) % compute(y),
        Term::Atan2(y, x) => compute(y).atan2(compute(x)),
        Term::Cosine(x) => compute(x).cos(),
        Term::Sine(x) => compute(x).sin(),
    }
}

fn tokens(list: &[&str]) -> Vec<String> {
    list.iter().map(|s| s.to_string()).collect()
}

fn compile(list: &[&str]) -> Result<Expression, Error> {
    Expression::new(&tokens(list))
}

fn value_of(list: &[&str], variables: &Environment) -> Result<f32, Error> {
    let expression = compile(list)?;
    let term = expression.evaluate(variables)?;
    Ok(compute(&term))
}

fn literal(mantissa: u64) -> Term {
    Term::Literal(Decimal { negative: false, mantissa, scale: 0 })
}

fn constant(mantissa: u64) -> ExpressionSymbol {
    ExpressionSymbol::Constant(Decimal { negative: false, mantissa, scale: 0 })
}

#[test]
fn multiplication_binds_tighter_than_addition() {
    let env = Environment::new();
    assert_eq!(value_of(&["2", "+", "3", "*", "4"], &env), Ok(14.0));
    assert_eq!(value_of(&["2", "*", "3", "+", "4"], &env), Ok(10.0));
}

#[test]
fn brackets_override_precedence() {
    let env = Environment::new();
    assert_eq!(value_of(&["(", "2", "+", "3", ")", "*", "4"], &env), Ok(20.0));
    assert_eq!(value_of(&["2", "*", "(", "3", "+", "4", ")"], &env), Ok(14.0));
    assert_eq!(value_of(&["(", "(", "7", ")", ")"], &env), Ok(7.0));
}

#[test]
fn equal_precedence_goes_left_to_right() {
    let env = Environment::new();
    assert_eq!(value_of(&["8", "-", "3", "-", "2"], &env), Ok(3.0));
    assert_eq!(value_of(&["8", "/", "4", "/", "2"], &env), Ok(1.0));
    assert_eq!(value_of(&["8", "-", "3", "+", "2"], &env), Ok(7.0));
}

#[test]
fn comparison_binds_weakest_and_gives_one_or_zero() {
    let env = Environment::new();
    assert_eq!(value_of(&["1", "+", "1", "<", "3"], &env), Ok(1.0));
    assert_eq!(value_of(&["3", "<", "1", "+", "1"], &env), Ok(0.0));
    assert_eq!(value_of(&["2", "<", "2"], &env), Ok(0.0));
}

#[test]
fn postfix_order_of_a_sum_of_products() {
    let expression = compile(&["2", "+", "3", "*", "4"]).unwrap();
    assert_eq!(
        expression.symbols(),
        &vec![
            constant(2),
            constant(3),
            constant(4),
            ExpressionSymbol::Operator(Operator::Multiply),
            ExpressionSymbol::Operator(Operator::Add),
        ]
    );
    assert_eq!(expression.len(), 5);
}

#[test]
fn term_of_a_sum_of_products() {
    let expression = compile(&["2", "+", "3", "*", "4"]).unwrap();
    let term = expression.evaluate(&Environment::new()).unwrap();
    let product = Term::Binary(Operator::Multiply, Box::new(literal(3)), Box::new(literal(4)));
    assert_eq!(term, Term::Binary(Operator::Add, Box::new(literal(2)), Box::new(product)));
}

#[test]
fn operands_keep_their_sides() {
    let env = Environment::new();
    assert_eq!(value_of(&["2", "-", "5"], &env), Ok(-3.0));
    assert_eq!(value_of(&["1", "/", "4"], &env), Ok(0.25));
}

#[test]
fn no_tokens_compile_to_an_empty_expression() {
    let expression = compile(&[]).unwrap();
    assert_eq!(expression.len(), 0);
    assert_eq!(expression, Expression::empty());
    assert_eq!(expression.evaluate(&Environment::new()), Err(Error::MalformedExpression));
}

#[test]
fn variables_take_their_values() {
    let mut env = Environment::new();
    env.insert("size".to_string(), number(12.0));
    env.insert("half".to_string(), number(0.5));
    assert_eq!(value_of(&["size", "*", "half"], &env), Ok(6.0));
    env.insert("size".to_string(), number(20.0));
    assert_eq!(value_of(&["size", "*", "half"], &env), Ok(10.0));
    assert_eq!(env.get(&"size".to_string()), Some(number(20.0)));
    assert!(env.contains(&"half".to_string()));
    env.remove(&"size".to_string());
    assert_eq!(env.get(&"size".to_string()), None);
    assert_eq!(value_of(&["size", "*", "half"], &env), Err(Error::UndefinedVariable));
}

#[test]
fn a_variable_without_a_value_is_undefined() {
    let env = Environment::new();
    assert_eq!(value_of(&["x"], &env), Err(Error::UndefinedVariable));
    assert_eq!(value_of(&["1", "+", "x"], &env), Err(Error::UndefinedVariable));
}

#[test]
fn too_few_or_too_many_operands_are_malformed() {
    let env = Environment::new();
    assert_eq!(value_of(&["+"], &env), Err(Error::MalformedExpression));
    assert_eq!(value_of(&["2", "+"], &env), Err(Error::MalformedExpression));
    assert_eq!(value_of(&["2", "3"], &env), Err(Error::MalformedExpression));
    assert_eq!(value_of(&["pick", "red"], &env), Err(Error::MalformedExpression));
}

#[test]
fn brackets_that_do_not_match_are_syntax_errors() {
    assert_eq!(compile(&["(", "2"]), Err(Error::SyntaxError));
    assert_eq!(compile(&["2", ")"]), Err(Error::SyntaxError));
    assert_eq!(compile(&["(", "2", "+", "3", ")", ")"]), Err(Error::SyntaxError));
}

#[test]
fn literals_that_spell_no_number_are_syntax_errors() {
    assert_eq!(compile(&["1.2.3"]), Err(Error::SyntaxError));
    assert_eq!(compile(&["."]), Err(Error::SyntaxError));
    assert_eq!(compile(&["--1"]), Err(Error::SyntaxError));
    assert_eq!(compile(&["1-2"]), Err(Error::SyntaxError));
    assert_eq!(compile(&[""]), Err(Error::SyntaxError));
    assert_eq!(compile(&["99999999999999999999"]), Err(Error::SyntaxError));
}

#[test]
fn a_function_name_inside_an_expression_is_a_syntax_error() {
    assert_eq!(compile(&["2", "+", "random"]), Err(Error::SyntaxError));
}

#[test]
fn division_by_zero_is_left_to_the_host() {
    let env = Environment::new();
    assert_eq!(value_of(&["1", "/", "0"], &env), Ok(f32::INFINITY));
    assert!(value_of(&["0", "/", "0"], &env).unwrap().is_nan());
}

#[test]
fn literals_are_kept_exactly() {
    assert_eq!(
        Decimal::parse(&"12.50".chars().collect()),
        Some(Decimal { negative: false, mantissa: 1250, scale: 2 })
    );
    assert_eq!(
        Decimal::parse(&"-5".chars().collect()),
        Some(Decimal { negative: true, mantissa: 5, scale: 0 })
    );
    assert_eq!(
        Decimal::parse(&".5".chars().collect()),
        Some(Decimal { negative: false, mantissa: 5, scale: 1 })
    );
    assert_eq!(
        Decimal::parse(&"5.".chars().collect()),
        Some(Decimal { negative: false, mantissa: 5, scale: 0 })
    );
    assert_eq!(
        Decimal::parse(&"18446744073709551615".chars().collect()),
        Some(Decimal { negative: false, mantissa: u64::MAX, scale: 0 })
    );
    assert_eq!(Decimal::parse(&"18446744073709551616".chars().collect()), None);
    assert_eq!(Decimal::parse(&"".chars().collect()), None);
    assert_eq!(Decimal::parse(&"-".chars().collect()), None);
    assert_eq!(Decimal::parse(&"1a".chars().collect()), None);
    let env = Environment::new();
    assert_eq!(value_of(&["0.7"], &env), Ok(0.7));
    assert_eq!(value_of(&["-2.5"], &env), Ok(-2.5));
}

#[test]
fn whole_part_of_a_decimal() {
    assert_eq!(Decimal { negative: false, mantissa: 1259, scale: 2 }.whole(), 12);
    assert_eq!(Decimal { negative: false, mantissa: 7, scale: 0 }.whole(), 7);
    assert_eq!(Decimal { negative: false, mantissa: 7, scale: 5 }.whole(), 0);
    assert_eq!(Decimal { negative: false, mantissa: 7, scale: u32::MAX }.whole(), 0);
    assert_eq!(Decimal { negative: false, mantissa: u64::MAX, scale: 0 }.whole(), i32::MAX);
    assert_eq!(Decimal { negative: false, mantissa: 2147483648, scale: 0 }.whole(), i32::MAX);
    assert_eq!(Decimal { negative: false, mantissa: 21474836479, scale: 1 }.whole(), i32::MAX);
}

#[test]
fn operators_and_their_precedence() {
    assert_eq!(Operator::from_char('+'), Some(Operator::Add));
    assert_eq!(Operator::from_char('-'), Some(Operator::Subtract));
    assert_eq!(Operator::from_char('*'), Some(Operator::Multiply));
    assert_eq!(Operator::from_char('/'), Some(Operator::Divide));
    assert_eq!(Operator::from_char('<'), Some(Operator::Less));
    assert_eq!(Operator::from_char('>'), None);
    assert_eq!(Operator::Multiply.precedence(), 2);
    assert_eq!(Operator::Divide.precedence(), 2);
    assert_eq!(Operator::Add.precedence(), 1);
    assert_eq!(Operator::Subtract.precedence(), 1);
    assert_eq!(Operator::Less.precedence(), 0);
}

#[test]
fn random_draws_below_its_bound() {
    let expression = compile(&["random", "10"]).unwrap();
    assert_eq!(
        expression.symbols(),
        &vec![ExpressionSymbol::FunctionCommand(Function::Random), constant(10)]
    );
    assert_eq!(expression.random_bound(), 10);
    let env = Environment::new();
    let mut seen = [false; 10];
    for _ in 0..2000 {
        match expression.evaluate(&env) {
            Ok(Term::Integer(k)) => {
                assert!(0 <= k && k < 10);
                seen[k as usize] = true;
            }
            other => panic!("{:?}", other),
        }
    }
    assert!(seen.iter().all(|s| *s));
}

#[test]
fn random_of_one_is_zero() {
    let expression = compile(&["random", "1"]).unwrap();
    for _ in 0..50 {
        assert_eq!(expression.evaluate(&Environment::new()), Ok(Term::Integer(0)));
    }
}

#[test]
fn random_takes_the_whole_part_of_its_bound() {
    assert_eq!(compile(&["random", "2.9"]).unwrap().random_bound(), 2);
    let expression = compile(&["random", "2.9"]).unwrap();
    for _ in 0..200 {
        match expression.evaluate(&Environment::new()) {
            Ok(Term::Integer(k)) => assert!(k == 0 || k == 1),
            other => panic!("{:?}", other),
        }
    }
}

#[test]
fn random_needs_one_literal_above_zero() {
    let env = Environment::new();
    assert_eq!(compile(&["random", "0"]).unwrap().evaluate(&env), Err(Error::MalformedExpression));
    assert_eq!(compile(&["random", "0.5"]).unwrap().evaluate(&env), Err(Error::MalformedExpression));
    assert_eq!(compile(&["random", "-3"]).unwrap().evaluate(&env), Err(Error::MalformedExpression));
    assert_eq!(compile(&["random"]).unwrap().evaluate(&env), Err(Error::MalformedExpression));
    assert_eq!(compile(&["random", "x"]).unwrap().evaluate(&env), Err(Error::MalformedExpression));
    assert_eq!(
        compile(&["random", "3", "4"]).unwrap().evaluate(&env),
        Err(Error::MalformedExpression)
    );
    assert_eq!(compile(&["random", "0"]).unwrap().random_bound(), 0);
    assert_eq!(compile(&["2", "+", "3"]).unwrap().random_bound(), 0);
}

#[test]
fn a_given_draw_is_the_value_of_random() {
    let expression = compile(&["random", "10"]).unwrap();
    let env = Environment::new();
    assert_eq!(expression.evaluate_drawn(&env, 7), Ok(Term::Integer(7)));
    assert_eq!(expression.evaluate_drawn(&env, 0), Ok(Term::Integer(0)));
    let sum = compile(&["2", "+", "3"]).unwrap();
    assert_eq!(sum.evaluate_drawn(&env, 7), sum.evaluate_drawn(&env, 1));
    assert_eq!(compute(&sum.evaluate_drawn(&env, 7).unwrap()), 5.0);
}

#[test]
fn an_expression_without_variables_repeats_its_value() {
    let expression = compile(&["(", "2", "+", "3", ")", "*", "4", "-", "1", "/", "8"]).unwrap();
    let first = expression.evaluate(&Environment::new());
    let mut other = Environment::new();
    other.insert("x".to_string(), number(3.0));
    let second = expression.evaluate(&other);
    assert_eq!(first, second);
    assert_eq!(compute(&first.unwrap()), 19.875);
    assert_eq!(compute(&second.unwrap()), 19.875);
}

#[test]
fn pick_gives_one_of_its_names() {
    let expression = compile(&["pick", "red", "green", "blue"]).unwrap();
    let mut seen = [false; 3];
    for _ in 0..600 {
        let name = expression.evaluate_setcolor().unwrap();
        match name.as_str() {
            "red" => seen[0] = true,
            "green" => seen[1] = true,
            "blue" => seen[2] = true,
            other => panic!("{}", other),
        }
    }
    assert!(seen.iter().all(|s| *s));
}

#[test]
fn pick_at_a_given_draw() {
    let expression = compile(&["pick", "red", "green", "blue"]).unwrap();
    assert_eq!(expression.evaluate_setcolor_drawn(0), Ok("red".to_string()));
    assert_eq!(expression.evaluate_setcolor_drawn(1), Ok("green".to_string()));
    assert_eq!(expression.evaluate_setcolor_drawn(2), Ok("blue".to_string()));
    assert_eq!(expression.evaluate_setcolor_drawn(3), Err(Error::MalformedExpression));
}

#[test]
fn pick_needs_names() {
    assert_eq!(compile(&["pick"]).unwrap().evaluate_setcolor(), Err(Error::MalformedExpression));
    assert_eq!(compile(&[]).unwrap().evaluate_setcolor(), Err(Error::MalformedExpression));
    assert_eq!(
        compile(&["red", "green"]).unwrap().evaluate_setcolor(),
        Err(Error::MalformedExpression)
    );
    assert_eq!(
        compile(&["pick", "5"]).unwrap().evaluate_setcolor(),
        Err(Error::MalformedExpression)
    );
    assert_eq!(
        compile(&["random", "5"]).unwrap().evaluate_setcolor_drawn(0),
        Err(Error::MalformedExpression)
    );
}

#[test]
fn text_literal_is_the_first_name() {
    assert_eq!(compile(&["hello"]).unwrap().text_literal(), "hello");
    assert_eq!(compile(&["a", "+", "1"]).unwrap().text_literal(), "a");
    assert_eq!(compile(&["5"]).unwrap().text_literal(), "");
    assert_eq!(compile(&[]).unwrap().text_literal(), "");
}

#[test]
fn a_copy_of_an_expression_is_equal_to_it() {
    let expression = compile(&["a", "+", "1.5"]).unwrap();
    assert_eq!(expression.clone(), expression);
    let term = Term::Binary(Operator::Less, Box::new(Term::Pi), Box::new(Term::Integer(4)));
    assert_eq!(term.clone(), term);
}
