use logo_turtle::error::Error;
use logo_turtle::expression::Expression;
use logo_turtle::interpreter::execute_logo_program;
use logo_turtle::interpreter::unplaced;
use logo_turtle::interpreter::Machine;
use logo_turtle::interpreter::Primitive;
use logo_turtle::interpreter::Request;
use logo_turtle::interpreter::Turtle;
use logo_turtle::logo_manager::parse_program;
use logo_turtle::number::Decimal;
use logo_turtle::number::Number;
use logo_turtle::number::Operator;
use logo_turtle::number::Term;
use logo_turtle::parser::CodeBlock;
use logo_turtle::parser::CodeBlockType;
use logo_turtle::parser::ParserSymbol;
use logo_turtle::parser::Procedure;
use logo_turtle::parser::ProcedureCall;
use logo_turtle::parser::Program;

fn number(v: f32) -> Number {
    Number { bits: v.to_bits(), rounded: v.round() as i32, nonzero: v != 0.0 }
}

fn float_of(n: Number) -> f32 {
    f32::from_bits(n.bits)
}

fn compute(term: &Term) -> f32 {
    match term {
        Term::Literal(d) => {
            let sign = if d.negative { "-" } else { "" };
            format!("{}{}e-{}", sign, d.mantissa, d.scale).parse::<f32>().unwrap()
        }
        Term::Integer(i) => *i as f32,
        Term::Value(n) => f32::from_bits(n.bits),
        Term::Pi => std::f32::consts::PI,
        Term::Binary(op, x, y) => {
            let x = compute(x);
            let y = compute(y);
            match op {
                Operator::Add => x + y,
                Operator::Subtract => x - y,
                Operator::Multiply => x * y,
                Operator::Divide => x / y,
                Operator::Less => {
                    if x < y {
                        1.0
                    } else {
                        0.0
                    }
                }
            }
        }
        Term::Remainder(x, y) => compute(x) % compute(y),
        Term::Atan2(y, x) => compute(y).atan2(compute(x)),
        Term::Cosine(x) => compute(x).cos(),
        Term::Sine(x) => compute(x).sin(),
    }
}

struct Run {
    lines: Vec<(f32, f32, f32, f32)>,
    texts: Vec<(f32, f32, i32, i32, String)>,
    turtles: Vec<Turtle>,
    steps: usize,
}

fn run(code: &str) -> Result<Run, Error> {
    let program = parse_program(code)?;
    let mut machine = execute_logo_program(&program);
    let mut values: Vec<Number> = Vec::new();
    let mut steps = 0;
    loop {
        steps += 1;
        assert!(steps < 100000);
        match machine.advance(&values)? {
            Request::Compute(terms) => {
                values = terms.iter().map(|t| number(compute(t))).collect();
            }
            Request::Finished => break,
        }
    }
    let mut lines = Vec::new();
    let mut texts = Vec::new();
    for primitive in machine.drawing() {
        match primitive {
            Primitive::Line { from_x, from_y, to_x, to_y } => {
                lines.push((float_of(*from_x), float_of(*from_y), float_of(*to_x), float_of(*to_y)));
            }
            Primitive::Text { x, y, angle, size, text } => {
                texts.push((float_of(*x), float_of(*y), *angle, *size, text.clone()));
            }
        }
    }
    Ok(Run { lines, texts, turtles: machine.turtles().clone(), steps })
}

fn close(a: f32, b: f32) -> bool {
    (a - b).abs() < 0.001
}

#[test]
fn forward_turn_forward_draws_two_perpendicular_segments() {
    let r = run("forward 100 right 90 forward 50").unwrap();
    assert_eq!(r.lines.len(), 2);
    let (x1, y1, x2, y2) = r.lines[0];
    assert!(close(x1, 550.0) && close(y1, 300.0) && close(x2, 550.0) && close(y2, 200.0));
    let (x3, y3, x4, y4) = r.lines[1];
    assert!(close(x3, 550.0) && close(y3, 200.0) && close(x4, 600.0) && close(y4, 200.0));
    let dot = (x2 - x1) * (x4 - x3) + (y2 - y1) * (y4 - y3);
    assert!(close(dot, 0.0));
    assert!(close(float_of(r.turtles[0].x), 600.0));
    assert!(close(float_of(r.turtles[0].y), 200.0));
    assert!(r.steps > 0);
    assert!(r.texts.is_empty());
}

fn lengths(r: &Run) -> Vec<f32> {
    r.lines
        .iter()
        .map(|(x1, y1, x2, y2)| ((x2 - x1) * (x2 - x1) + (y2 - y1) * (y2 - y1)).sqrt().round())
        .collect()
}

fn answer(machine: &mut Machine, values: &Vec<Number>) -> Vec<Number> {
    match machine.advance(values).unwrap() {
        Request::Compute(terms) => terms.iter().map(|t| number(compute(t))).collect(),
        Request::Finished => panic!("finished"),
    }
}

#[test]
fn the_turtles_start_in_the_middle_heading_up() {
    let r = run("").unwrap();
    assert_eq!(r.turtles.len(), 2);
    for turtle in &r.turtles {
        assert_eq!(float_of(turtle.x), 550.0);
        assert_eq!(float_of(turtle.y), 300.0);
        assert_eq!(float_of(turtle.dir_x), 0.0);
        assert_eq!(float_of(turtle.dir_y), -1.0);
        assert!(!turtle.lifted);
        assert_eq!(turtle.label_height, 100);
    }
    assert!(r.lines.is_empty());
}

#[test]
fn forward_draws_from_the_old_place_to_the_new() {
    let r = run("forward 100").unwrap();
    assert_eq!(r.lines, vec![(550.0, 300.0, 550.0, 200.0)]);
    assert_eq!(float_of(r.turtles[0].y), 200.0);
    assert_eq!(float_of(r.turtles[1].y), 300.0);
}

#[test]
fn backward_goes_against_the_heading() {
    let r = run("bk 40").unwrap();
    assert_eq!(r.lines, vec![(550.0, 300.0, 550.0, 340.0)]);
}

#[test]
fn a_lifted_pen_draws_nothing_but_the_turtle_moves() {
    let r = run("penup forward 100 pendown forward 50").unwrap();
    assert_eq!(r.lines, vec![(550.0, 200.0, 550.0, 150.0)]);
    assert!(!r.turtles[0].lifted);
    let lifted = run("pu fd 10").unwrap();
    assert!(lifted.lines.is_empty());
    assert!(lifted.turtles[0].lifted);
    assert_eq!(float_of(lifted.turtles[0].y), 290.0);
}

#[test]
fn a_turn_to_the_left_mirrors_a_turn_to_the_right() {
    let right = run("right 90 forward 10").unwrap();
    let (_, _, x, y) = right.lines[0];
    assert!(close(x, 560.0) && close(y, 300.0));
    let left = run("left 90 forward 10").unwrap();
    let (_, _, x, y) = left.lines[0];
    assert!(close(x, 540.0) && close(y, 300.0));
    let around = run("rt 450 fd 10").unwrap();
    let (_, _, x, y) = around.lines[0];
    assert!(close(x, 560.0) && close(y, 300.0));
    let back = run("rt 180 fd 10").unwrap();
    let (_, _, x, y) = back.lines[0];
    assert!(close(x, 550.0) && close(y, 310.0));
}

#[test]
fn a_square_comes_back_to_its_start() {
    let r = run("repeat 4 [ forward 100 right 90 ]").unwrap();
    assert_eq!(lengths(&r), vec![100.0, 100.0, 100.0, 100.0]);
    assert!(close(float_of(r.turtles[0].x), 550.0));
    assert!(close(float_of(r.turtles[0].y), 300.0));
}

#[test]
fn a_loop_runs_its_body_once_for_each_pass_and_counts_from_zero() {
    let r = run("repeat 3 [ penup forward 100 pendown forward repcount ]").unwrap();
    assert_eq!(lengths(&r), vec![0.0, 1.0, 2.0]);
    let scaled = run("repeat 3 [ forward 10 * repcount + 1 ]").unwrap();
    assert_eq!(lengths(&scaled), vec![1.0, 11.0, 21.0]);
}

#[test]
fn the_counter_has_no_value_after_the_loop() {
    assert_eq!(run("repeat 3 [ forward 1 ] forward repcount").err(), Some(Error::UndefinedVariable));
    assert_eq!(run("repeat 0 [ forward 1 ] forward repcount").err(), Some(Error::UndefinedVariable));
    assert_eq!(run("forward repcount").err(), Some(Error::UndefinedVariable));
    let program = parse_program("repeat 2 [ forward 1 ] penup").unwrap();
    let mut machine = execute_logo_program(&program);
    let mut values: Vec<Number> = Vec::new();
    let mut seen: Vec<Option<f32>> = Vec::new();
    loop {
        match machine.advance(&values).unwrap() {
            Request::Compute(terms) => {
                values = terms.iter().map(|t| number(compute(t))).collect();
            }
            Request::Finished => break,
        }
        seen.push(machine.variable(&"repcount".to_string()).map(float_of));
    }
    assert!(seen.contains(&Some(0.0)));
    assert!(seen.contains(&Some(1.0)));
    assert!(!seen.contains(&Some(2.0)));
    assert_eq!(machine.variable(&"repcount".to_string()), None);
    assert!(machine.is_finished());
}

#[test]
fn the_number_of_passes_is_rounded() {
    assert_eq!(run("repeat 2.6 [ forward 1 ]").unwrap().lines.len(), 3);
    assert_eq!(run("repeat 2.4 [ forward 1 ]").unwrap().lines.len(), 2);
    assert_eq!(run("repeat 0.4 [ forward 1 ]").unwrap().lines.len(), 0);
    assert_eq!(run("repeat 0 - 3 [ forward 1 ]").unwrap().lines.len(), 0);
}

#[test]
fn loops_nest_with_one_counter() {
    let r = run("repeat 2 [ repeat 2 [ forward 1 + repcount ] ]").unwrap();
    assert_eq!(lengths(&r), vec![1.0, 2.0, 1.0, 2.0]);
}

#[test]
fn a_conditional_runs_where_the_condition_is_not_zero() {
    assert_eq!(run("if 1 < 2 [ forward 10 ]").unwrap().lines.len(), 1);
    assert_eq!(run("if 2 < 1 [ forward 10 ]").unwrap().lines.len(), 0);
    assert_eq!(run("if 5 [ forward 10 ]").unwrap().lines.len(), 1);
    assert_eq!(run("if 0 [ forward 10 ] forward 5").unwrap().lines.len(), 1);
}

#[test]
fn arguments_are_bound_to_parameters() {
    let r = run("to line :length forward :length end line 30 line 2 * 10").unwrap();
    assert_eq!(lengths(&r), vec![30.0, 20.0]);
}

#[test]
fn a_procedure_does_not_see_the_variables_of_its_caller() {
    let code = "to inner forward :x end to outer :x inner end outer 5";
    assert_eq!(run(code).err(), Some(Error::UndefinedVariable));
    let passed = "to inner :x forward :x end to outer :x inner :x + 1 end outer 5";
    assert_eq!(lengths(&run(passed).unwrap()), vec![6.0]);
    let counter = "to inner forward repcount end repeat 2 [ inner ]";
    assert_eq!(run(counter).err(), Some(Error::UndefinedVariable));
}

#[test]
fn the_caller_keeps_its_variables() {
    let code = "to inner :x forward :x end to outer :x inner 1 forward :x end outer 5";
    assert_eq!(lengths(&run(code).unwrap()), vec![1.0, 5.0]);
    let looped = "to inner repeat 2 [ forward 1 ] end repeat 2 [ inner forward 10 + repcount ]";
    assert_eq!(lengths(&run(looped).unwrap()), vec![1.0, 1.0, 10.0, 1.0, 1.0, 11.0]);
}

#[test]
fn stop_inside_a_conditional_inside_a_loop_ends_the_pass_only() {
    let code = "repeat 3 [ forward 10 if 1 [ stop ] forward 1000 ] forward 5";
    assert_eq!(lengths(&run(code).unwrap()), vec![10.0, 10.0, 10.0, 5.0]);
    let second = "repeat 3 [ forward 10 if repcount < 1 [ stop ] forward 20 ] forward 5";
    assert_eq!(lengths(&run(second).unwrap()), vec![10.0, 10.0, 20.0, 10.0, 20.0, 5.0]);
    let direct = "repeat 2 [ forward 10 stop forward 1000 ] forward 5";
    assert_eq!(lengths(&run(direct).unwrap()), vec![10.0, 10.0, 5.0]);
}

#[test]
fn stop_at_the_top_level_ends_the_program() {
    assert_eq!(lengths(&run("forward 10 stop forward 20").unwrap()), vec![10.0]);
    assert_eq!(lengths(&run("forward 10 if 1 [ stop ] forward 20").unwrap()), vec![10.0]);
    assert_eq!(lengths(&run("forward 10 if 1 [ if 1 [ stop ] ] forward 20").unwrap()), vec![10.0]);
}

#[test]
fn stop_in_a_procedure_returns_to_the_caller() {
    let code = "to p forward 10 if 1 [ stop ] forward 20 end p forward 5";
    assert_eq!(lengths(&run(code).unwrap()), vec![10.0, 5.0]);
}

#[test]
fn a_procedure_that_calls_itself_ends_with_stop() {
    let code = "to spiral :n if :n < 1 [ stop ] forward :n spiral :n - 1 forward 100 end spiral 3";
    assert_eq!(lengths(&run(code).unwrap()), vec![3.0, 2.0, 1.0, 100.0, 100.0, 100.0]);
}

#[test]
fn a_label_is_written_where_the_turtle_stands() {
    let r = run("forward 10 setlabelheight 23.6 right 90 label \"hello").unwrap();
    assert_eq!(r.texts, vec![(550.0, 290.0, 0, 24, "hello".to_string())]);
    assert_eq!(r.turtles[0].label_height, 24);
    let up = run("label \"up").unwrap();
    assert_eq!(up.texts, vec![(550.0, 300.0, -90, 100, "up".to_string())]);
    let empty = run("label 5").unwrap();
    assert_eq!(empty.texts, vec![(550.0, 300.0, -90, 100, "".to_string())]);
}

#[test]
fn commands_go_to_the_turtle_that_was_chosen() {
    let r = run("forward 10 setturtle 1 forward 20 setturtle 0 forward 30").unwrap();
    assert_eq!(
        r.lines,
        vec![
            (550.0, 300.0, 550.0, 290.0),
            (550.0, 300.0, 550.0, 280.0),
            (550.0, 290.0, 550.0, 260.0),
        ]
    );
    assert_eq!(float_of(r.turtles[0].y), 260.0);
    assert_eq!(float_of(r.turtles[1].y), 280.0);
}

#[test]
fn a_turtle_that_is_not_there_cannot_be_chosen() {
    assert_eq!(run("setturtle 2").err(), Some(Error::TurtleIndexOutOfRange));
    assert_eq!(run("setturtle 0 - 1").err(), Some(Error::TurtleIndexOutOfRange));
    assert_eq!(run("setturtle 1.4").unwrap().lines.len(), 0);
}

#[test]
fn commands_without_effect_on_the_drawing() {
    let r = run("clearscreen hideturtle showturtle window wait 5 setcolor 3 cs ht st forward 1");
    assert_eq!(r.unwrap().lines.len(), 1);
}

#[test]
fn errors_of_the_evaluation_abandon_the_run() {
    assert_eq!(run("forward :x").err(), Some(Error::UndefinedVariable));
    assert_eq!(run("forward").err(), Some(Error::MalformedExpression));
    assert_eq!(run("forward 1 +").err(), Some(Error::MalformedExpression));
    assert_eq!(run("repeat [ forward 1 ]").err(), Some(Error::MalformedExpression));
    assert_eq!(run("to p :a :b forward :a end p 1").err(), Some(Error::MalformedExpression));
    assert_eq!(run("forward 1 ]").err(), Some(Error::SyntaxError));
}

#[test]
fn a_call_of_a_procedure_that_is_not_there_is_refused() {
    let mut main = CodeBlock::new(CodeBlockType::PROCEDURE(Procedure::new()));
    main.add_instruction(ParserSymbol::PROCEDURE_CALL(ProcedureCall::new(
        "nowhere".to_string(),
        Vec::new(),
    )));
    let mut program = Program::new();
    program.insert("_".to_string(), main);
    let mut machine = execute_logo_program(&program);
    let pose = answer(&mut machine, &Vec::new());
    let nothing = answer(&mut machine, &pose);
    assert!(nothing.is_empty());
    assert_eq!(machine.advance(&nothing), Err(Error::UnknownProcedure));
    assert_eq!(machine.advance(&nothing), Err(Error::UnknownProcedure));
    assert!(!machine.is_finished());
    let empty = Program::new();
    let mut machine = execute_logo_program(&empty);
    let pose = answer(&mut machine, &Vec::new());
    assert_eq!(machine.advance(&pose), Err(Error::UnknownProcedure));
}

#[test]
fn a_call_with_another_number_of_arguments_is_refused() {
    let parsed = parse_program("to p :a forward :a end").unwrap();
    let mut program = parse_program("to p :a forward :a end").unwrap();
    let mut main = CodeBlock::new(CodeBlockType::PROCEDURE(Procedure::new()));
    main.add_instruction(ParserSymbol::PROCEDURE_CALL(ProcedureCall::new(
        "p".to_string(),
        vec![
            Expression::new(&vec!["1".to_string()]).unwrap(),
            Expression::new(&vec!["2".to_string()]).unwrap(),
        ],
    )));
    program.insert("_".to_string(), main);
    let mut machine = execute_logo_program(&program);
    let pose = answer(&mut machine, &Vec::new());
    let nothing = answer(&mut machine, &pose);
    assert_eq!(machine.advance(&nothing), Err(Error::ArityMismatch));
    assert!(parsed.get(&"p".to_string()).is_some());
}

#[test]
fn the_host_must_answer_with_as_many_values_as_terms() {
    let program = parse_program("forward 10").unwrap();
    let mut machine = execute_logo_program(&program);
    assert_eq!(machine.advance(&vec![number(1.0)]), Err(Error::UnexpectedReply));
    let mut machine = execute_logo_program(&program);
    let pose = answer(&mut machine, &Vec::new());
    assert_eq!(pose.len(), 4);
    assert_eq!(machine.advance(&vec![number(1.0)]), Err(Error::UnexpectedReply));
    assert_eq!(machine.advance(&pose), Err(Error::UnexpectedReply));
}

#[test]
fn the_first_steps_ask_for_the_pose_and_the_first_move() {
    let program = parse_program("forward 10").unwrap();
    let mut machine = execute_logo_program(&program);
    assert_eq!(machine.current_turtle(), 0);
    assert_eq!(machine.turtles().len(), 2);
    assert_eq!(machine.turtles()[0], unplaced());
    let half = |n: i32| {
        Term::Binary(Operator::Divide, Box::new(Term::Integer(n)), Box::new(Term::Integer(2)))
    };
    assert_eq!(
        machine.advance(&Vec::new()),
        Ok(Request::Compute(vec![half(1100), half(600), Term::Integer(0), Term::Integer(-1)]))
    );
    let pose = vec![number(550.0), number(300.0), number(0.0), number(-1.0)];
    assert_eq!(machine.advance(&pose), Ok(Request::Compute(Vec::new())));
    let ten = Term::Literal(Decimal { negative: false, mantissa: 10, scale: 0 });
    let along = |place: f32, heading: f32| {
        Term::Binary(
            Operator::Add,
            Box::new(Term::Value(number(place))),
            Box::new(Term::Binary(
                Operator::Multiply,
                Box::new(Term::Value(number(heading))),
                Box::new(ten.clone()),
            )),
        )
    };
    assert_eq!(
        machine.advance(&Vec::new()),
        Ok(Request::Compute(vec![along(550.0, 0.0), along(300.0, -1.0)]))
    );
    assert_eq!(
        machine.advance(&vec![number(550.0), number(290.0)]),
        Ok(Request::Compute(Vec::new()))
    );
    assert_eq!(machine.drawing().len(), 1);
    assert_eq!(
        machine.drawing()[0],
        Primitive::Line {
            from_x: number(550.0),
            from_y: number(300.0),
            to_x: number(550.0),
            to_y: number(290.0),
        }
    );
    assert_eq!(machine.advance(&Vec::new()), Ok(Request::Finished));
    assert!(machine.is_finished());
    assert_eq!(machine.advance(&Vec::new()), Ok(Request::Finished));
}

#[test]
fn the_terms_of_a_turn() {
    let turtle = Turtle {
        x: number(1.0),
        y: number(2.0),
        dir_x: number(0.0),
        dir_y: number(-1.0),
        lifted: false,
        label_height: 100,
    };
    let heading = turtle.rotate_right(Term::Integer(90));
    assert_eq!(heading.len(), 2);
    assert!(close(compute(&heading[0]), 1.0));
    assert!(close(compute(&heading[1]), 0.0));
    let angle = Term::Binary(
        Operator::Add,
        Box::new(Term::Atan2(
            Box::new(Term::Value(number(-1.0))),
            Box::new(Term::Value(number(0.0))),
        )),
        Box::new(Term::Binary(
            Operator::Divide,
            Box::new(Term::Binary(
                Operator::Multiply,
                Box::new(Term::Integer(90)),
                Box::new(Term::Pi),
            )),
            Box::new(Term::Integer(180)),
        )),
    );
    assert_eq!(heading[0], Term::Cosine(Box::new(angle.clone())));
    assert_eq!(heading[1], Term::Sine(Box::new(angle)));
    let place = turtle.displace(false, Term::Integer(3));
    assert_eq!(compute(&place[0]), 1.0);
    assert_eq!(compute(&place[1]), 5.0);
    assert_eq!(compute(&turtle.heading()).round(), -90.0);
}

#[test]
fn a_given_draw_is_the_distance_of_a_random_move() {
    let program = parse_program("forward :random 10").unwrap();
    let mut machine = execute_logo_program(&program);
    let mut values: Vec<Number> = Vec::new();
    loop {
        match machine.advance_drawn(&values, 7).unwrap() {
            Request::Compute(terms) => {
                values = terms.iter().map(|t| number(compute(t))).collect();
            }
            Request::Finished => break,
        }
    }
    assert_eq!(machine.drawing().len(), 1);
    assert_eq!(float_of(machine.turtles()[0].y), 293.0);
    for _ in 0..50 {
        let r = run("forward :random 10").unwrap();
        let y = float_of(r.turtles[0].y);
        assert!(290.0 < y && y <= 300.0);
        assert_eq!(y, y.round());
    }
}
