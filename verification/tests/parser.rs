use logo_turtle::error::Error;
use logo_turtle::expression::Expression;
use logo_turtle::logo_manager::parse_and_execute;
use logo_turtle::logo_manager::parse_program;
use logo_turtle::parser::parameter_command;
use logo_turtle::parser::parse_glyphs;
use logo_turtle::parser::parse_logo_code;
use logo_turtle::parser::plain_command;
use logo_turtle::parser::read_expression;
use logo_turtle::parser::CodeBlock;
use logo_turtle::parser::CodeBlockType;
use logo_turtle::parser::Command;
use logo_turtle::parser::CommandType;
use logo_turtle::parser::If;
use logo_turtle::parser::Loop;
use logo_turtle::parser::ParserSymbol;
use logo_turtle::parser::Procedure;
use logo_turtle::parser::ProcedureCall;
use logo_turtle::parser::Program;
use logo_turtle::text::chars_of;
use logo_turtle::text::classify;
use logo_turtle::text::glyphs;
use logo_turtle::text::mark_counter;
use logo_turtle::text::spells;
use logo_turtle::text::string_of;
use logo_turtle::text::CharClass;
use logo_turtle::text::Glyph;

fn text(code: &str) -> Vec<Glyph> {
    glyphs(&code.chars().collect())
}

fn read(code: &str) -> (Vec<String>, usize) {
    let mut pos = 0;
    let tokens = read_expression(&text(code), &mut pos);
    (tokens, pos)
}

fn words(list: &[&str]) -> Vec<String> {
    list.iter().map(|s| s.to_string()).collect()
}

fn expression(list: &[&str]) -> Expression {
    Expression::new(&words(list)).unwrap()
}

fn main_of(program: &Program) -> &CodeBlock {
    program.get(&"_".to_string()).unwrap()
}

fn command_of(symbol: &ParserSymbol) -> (CommandType, &Expression) {
    match symbol {
        ParserSymbol::COMMAND(c) => (c.command_type, &c.call_parameter),
        other => panic!("{:?}", other),
    }
}

fn block_of(symbol: &ParserSymbol) -> &CodeBlock {
    match symbol {
        ParserSymbol::CODE_BLOCK(b) => b,
        other => panic!("{:?}", other),
    }
}

fn call_of(symbol: &ParserSymbol) -> &ProcedureCall {
    match symbol {
        ParserSymbol::PROCEDURE_CALL(c) => c,
        other => panic!("{:?}", other),
    }
}

#[test]
fn characters_are_classified() {
    assert_eq!(classify(' '), Glyph { ch: ' ', class: CharClass::Space });
    assert_eq!(classify('\n'), Glyph { ch: '\n', class: CharClass::Space });
    assert_eq!(classify('\t'), Glyph { ch: '\t', class: CharClass::Space });
    assert_eq!(classify('\u{a0}'), Glyph { ch: '\u{a0}', class: CharClass::Space });
    assert_eq!(classify('a'), Glyph { ch: 'a', class: CharClass::Letter });
    assert_eq!(classify('Z'), Glyph { ch: 'Z', class: CharClass::Letter });
    assert_eq!(classify('ł'), Glyph { ch: 'ł', class: CharClass::Letter });
    assert_eq!(classify('7'), Glyph { ch: '7', class: CharClass::Other });
    assert_eq!(classify('+'), Glyph { ch: '+', class: CharClass::Other });
    assert_eq!(classify('['), Glyph { ch: '[', class: CharClass::Other });
    assert_eq!(
        text("a 1"),
        vec![
            Glyph { ch: 'a', class: CharClass::Letter },
            Glyph { ch: ' ', class: CharClass::Space },
            Glyph { ch: '1', class: CharClass::Other },
        ]
    );
    assert_eq!(text(""), vec![]);
}

#[test]
fn strings_and_characters_convert_both_ways() {
    assert_eq!(chars_of("fd 10"), vec!['f', 'd', ' ', '1', '0']);
    assert_eq!(chars_of(""), Vec::<char>::new());
    assert_eq!(string_of(&vec!['f', 'd']), "fd");
    assert_eq!(string_of(&vec![]), "");
    assert!(spells(&"to".to_string(), "to"));
    assert!(!spells(&"to".to_string(), "top"));
    assert!(!spells(&"".to_string(), "to"));
}

#[test]
fn the_counter_is_marked_as_a_variable() {
    let marked: String = mark_counter(&chars_of("repeat 4 [ fd repcount * 2 ]")).iter().collect();
    assert_eq!(marked, "repeat 4 [ fd :repcount * 2 ]");
    let twice: String = mark_counter(&chars_of("repcountrepcount")).iter().collect();
    assert_eq!(twice, ":repcount:repcount");
    let partial: String = mark_counter(&chars_of("repcoun repcount")).iter().collect();
    assert_eq!(partial, "repcoun :repcount");
    let overlap: String = mark_counter(&chars_of("rrepcount")).iter().collect();
    assert_eq!(overlap, "r:repcount");
    assert_eq!(mark_counter(&chars_of("")), Vec::<char>::new());
    assert_eq!(mark_counter(&chars_of("fd 10")), chars_of("fd 10"));
}

#[test]
fn reading_stops_at_the_next_word() {
    assert_eq!(read(" 100 right 90"), (words(&["100"]), 5));
    assert_eq!(read("100 [ fd 1 ]"), (words(&["100"]), 4));
    assert_eq!(read(""), (words(&[]), 0));
    assert_eq!(read("fd"), (words(&[]), 0));
}

#[test]
fn reading_starts_where_the_cursor_stands() {
    let glyphs = text("fd 10 rt 90 ");
    let mut pos = 2;
    assert_eq!(read_expression(&glyphs, &mut pos), words(&["10"]));
    assert_eq!(pos, 6);
    pos = 8;
    assert_eq!(read_expression(&glyphs, &mut pos), words(&["90"]));
    assert_eq!(pos, 12);
    pos = 40;
    assert_eq!(read_expression(&glyphs, &mut pos), words(&[]));
    assert_eq!(pos, 40);
}

#[test]
fn markers_announce_names() {
    assert_eq!(read(":size / 2 fd"), (words(&["size", "/", "2"]), 10));
    assert_eq!(read("\"red "), (words(&["red"]), 5));
    assert_eq!(read(":a1b "), (words(&["a1b"]), 5));
    assert_eq!(read(":a :b "), (words(&["a", "b"]), 6));
    assert_eq!(read("size"), (words(&[]), 0));
    assert_eq!(read(":a b"), (words(&["a"]), 3));
}

#[test]
fn operators_and_brackets_are_tokens_of_their_own() {
    assert_eq!(read("2+3*4"), (words(&["2", "+", "3", "*", "4"]), 5));
    assert_eq!(read("(2 + 3)*4 "), (words(&["(", "2", "+", "3", ")", "*", "4"]), 10));
    assert_eq!(read(":x<10 "), (words(&["x", "<", "10"]), 6));
    assert_eq!(read(":a+:b "), (words(&["a", "+", "b"]), 6));
}

#[test]
fn a_minus_before_a_number_begins_a_literal_where_an_operand_may_begin() {
    assert_eq!(read("-5 "), (words(&["-5"]), 3));
    assert_eq!(read("-.5 "), (words(&["-.5"]), 4));
    assert_eq!(read("3 - 2 "), (words(&["3", "-", "2"]), 6));
    assert_eq!(read("3-2 "), (words(&["3", "-", "2"]), 4));
    assert_eq!(read("3 -2 "), (words(&["3", "-", "2"]), 5));
    assert_eq!(read("3 * -2 "), (words(&["3", "*", "-2"]), 7));
    assert_eq!(read("(-2) "), (words(&["(", "-2", ")"]), 5));
    assert_eq!(read("(2)-1 "), (words(&["(", "2", ")", "-", "1"]), 6));
    assert_eq!(read("- 5 "), (words(&["-", "5"]), 4));
    assert_eq!(read("-:x "), (words(&["-", "x"]), 4));
    assert_eq!(read("-"), (words(&["-"]), 1));
}

#[test]
fn the_decimal_point_belongs_to_a_literal() {
    assert_eq!(read("1.5 "), (words(&["1.5"]), 4));
    assert_eq!(read(".5+1. "), (words(&[".5", "+", "1."]), 6));
}

#[test]
fn a_token_that_the_end_or_another_glyph_cuts_off_is_kept() {
    assert_eq!(read("100"), (words(&["100"]), 3));
    assert_eq!(read("100]"), (words(&["100"]), 3));
    assert_eq!(read("4["), (words(&["4"]), 1));
    assert_eq!(read(":ab,"), (words(&["ab"]), 3));
}

#[test]
fn command_words() {
    let plain = [
        ("clearscreen", CommandType::CLEAR_SCREEN),
        ("cs", CommandType::CLEAR_SCREEN),
        ("penup", CommandType::PEN_UP),
        ("pu", CommandType::PEN_UP),
        ("pendown", CommandType::PEN_DOWN),
        ("pd", CommandType::PEN_DOWN),
        ("hideturtle", CommandType::HIDE_TURTLE),
        ("ht", CommandType::HIDE_TURTLE),
        ("showturtle", CommandType::SHOW_TURTLE),
        ("st", CommandType::SHOW_TURTLE),
        ("stop", CommandType::STOP),
        ("window", CommandType::WINDOW),
    ];
    for (word, kind) in plain {
        assert_eq!(plain_command(&word.to_string()), Some(kind));
        assert_eq!(parameter_command(&word.to_string()), None);
    }
    let with_parameter = [
        ("forward", CommandType::FORWARD),
        ("fd", CommandType::FORWARD),
        ("back", CommandType::BACKWARD),
        ("bk", CommandType::BACKWARD),
        ("right", CommandType::TURN_RIGHT),
        ("rt", CommandType::TURN_RIGHT),
        ("left", CommandType::TURN_LEFT),
        ("lt", CommandType::TURN_LEFT),
        ("setcolor", CommandType::SET_COLOR),
        ("pick", CommandType::PICK),
        ("random", CommandType::RANDOM),
        ("wait", CommandType::WAIT),
        ("label", CommandType::LABEL),
        ("setlabelheight", CommandType::SET_LABEL_HEIGHT),
        ("setturtle", CommandType::SET_TURTLE),
    ];
    for (word, kind) in with_parameter {
        assert_eq!(parameter_command(&word.to_string()), Some(kind));
        assert_eq!(plain_command(&word.to_string()), None);
    }
    assert_eq!(plain_command(&"to".to_string()), None);
    assert_eq!(parameter_command(&"Forward".to_string()), None);
    assert_eq!(parameter_command(&"".to_string()), None);
}

#[test]
fn commands_of_the_top_level() {
    let program = parse_logo_code("forward 100 penup rt 45 + 45 stop ").unwrap();
    let main = main_of(&program);
    assert_eq!(main.len(), 4);
    assert_eq!(command_of(main.instruction(0)), (CommandType::FORWARD, &expression(&["100"])));
    assert_eq!(command_of(main.instruction(1)), (CommandType::PEN_UP, &Expression::empty()));
    assert_eq!(
        command_of(main.instruction(2)),
        (CommandType::TURN_RIGHT, &expression(&["45", "+", "45"]))
    );
    assert_eq!(command_of(main.instruction(3)), (CommandType::STOP, &Expression::empty()));
    assert_eq!(main.get_instructions().len(), 4);
    assert_eq!(command_of(&main.get_instructions()[3]).0, CommandType::STOP);
    match main.kind() {
        CodeBlockType::PROCEDURE(p) => assert!(p.call_parameters.is_empty()),
        other => panic!("{:?}", other),
    }
}

#[test]
fn an_empty_text_is_an_empty_program() {
    let program = parse_logo_code("").unwrap();
    assert_eq!(main_of(&program).len(), 0);
    assert!(program.get(&"square".to_string()).is_none());
}

#[test]
fn the_last_word_needs_white_space_after_it() {
    let program = parse_logo_code("penup pendown").unwrap();
    assert_eq!(main_of(&program).len(), 1);
    let program = parse_program("penup pendown").unwrap();
    assert_eq!(main_of(&program).len(), 2);
}

#[test]
fn unknown_words_are_dropped() {
    let program = parse_logo_code("hello penup world ").unwrap();
    assert_eq!(main_of(&program).len(), 1);
    assert_eq!(command_of(main_of(&program).instruction(0)).0, CommandType::PEN_UP);
}

#[test]
fn loops_and_conditionals_nest() {
    let program =
        parse_logo_code("repeat 4 [ forward 10 if :x < 2 [ penup repeat 2 [ stop ] ] right 90 ] pendown ")
            .unwrap();
    let main = main_of(&program);
    assert_eq!(main.len(), 2);
    let outer = block_of(main.instruction(0));
    match outer.kind() {
        CodeBlockType::LOOP(l) => assert_eq!(l.repeats, expression(&["4"])),
        other => panic!("{:?}", other),
    }
    assert_eq!(outer.len(), 3);
    assert_eq!(command_of(outer.instruction(0)).0, CommandType::FORWARD);
    let conditional = block_of(outer.instruction(1));
    match conditional.kind() {
        CodeBlockType::IF(i) => assert_eq!(i.condition, expression(&["x", "<", "2"])),
        other => panic!("{:?}", other),
    }
    assert_eq!(conditional.len(), 2);
    assert_eq!(command_of(conditional.instruction(0)).0, CommandType::PEN_UP);
    let inner = block_of(conditional.instruction(1));
    assert_eq!(inner.len(), 1);
    assert_eq!(command_of(inner.instruction(0)).0, CommandType::STOP);
    assert_eq!(command_of(outer.instruction(2)).0, CommandType::TURN_RIGHT);
    assert_eq!(command_of(main.instruction(1)).0, CommandType::PEN_DOWN);
}

#[test]
fn procedures_with_parameters_and_calls() {
    let program = parse_logo_code(
        "forward 1 to square :size :turn repeat 4 [ forward :size right :turn ] end square 50 penup to line forward 5 end line ",
    )
    .unwrap();
    let square = program.get(&"square".to_string()).unwrap();
    match square.kind() {
        CodeBlockType::PROCEDURE(p) => {
            assert_eq!(p.call_parameters, vec!["size".to_string(), "turn".to_string()]);
        }
        other => panic!("{:?}", other),
    }
    assert_eq!(square.len(), 1);
    assert_eq!(block_of(square.instruction(0)).len(), 2);
    let line = program.get(&"line".to_string()).unwrap();
    assert_eq!(line.len(), 1);
    let main = main_of(&program);
    assert_eq!(main.len(), 4);
    assert_eq!(command_of(main.instruction(0)).0, CommandType::FORWARD);
    let call = call_of(main.instruction(1));
    assert_eq!(call.procedure_name, "square");
    assert_eq!(call.parameter_expressions.len(), 2);
    assert_eq!(call.parameter_expressions[0], expression(&["50"]));
    assert_eq!(call.parameter_expressions[1], Expression::empty());
    assert_eq!(command_of(main.instruction(2)).0, CommandType::PEN_UP);
    let second = call_of(main.instruction(3));
    assert_eq!(second.procedure_name, "line");
    assert!(second.parameter_expressions.is_empty());
}

#[test]
fn a_procedure_may_call_itself() {
    let program =
        parse_logo_code("to spiral :n if :n < 1 [ stop ] forward :n spiral :n - 1 end spiral 3 ")
            .unwrap();
    let spiral = program.get(&"spiral".to_string()).unwrap();
    assert_eq!(spiral.len(), 3);
    let call = call_of(spiral.instruction(2));
    assert_eq!(call.procedure_name, "spiral");
    assert_eq!(call.parameter_expressions, vec![expression(&["n", "-", "1"])]);
}

#[test]
fn a_later_definition_replaces_an_earlier_one() {
    let program = parse_logo_code("to p penup end to p pendown stop end ").unwrap();
    assert_eq!(program.get(&"p".to_string()).unwrap().len(), 2);
}

#[test]
fn a_call_must_fit_the_definition_that_stands_at_the_end() {
    assert_eq!(parse_logo_code("to p :a end p 1 to p end ").err(), Some(Error::ArityMismatch));
    assert_eq!(
        parse_logo_code("to p :a end repeat 2 [ if 1 [ p 1 ] ] to p :a :b end ").err(),
        Some(Error::ArityMismatch)
    );
    assert!(parse_logo_code("to p :a end p 1 to p :b forward :b end ").is_ok());
    assert_eq!(parse_logo_code("to _ :a end forward 1 ").map(|p| p.check()).ok(), Some(None));
}

#[test]
fn programs_built_by_hand_are_checked() {
    let call = |name: &str, arguments: Vec<Expression>| {
        ParserSymbol::PROCEDURE_CALL(ProcedureCall::new(name.to_string(), arguments))
    };
    let procedure = |parameters: &[&str]| {
        CodeBlock::new(CodeBlockType::PROCEDURE(Procedure { call_parameters: words(parameters) }))
    };
    let mut program = Program::new();
    assert_eq!(program.check(), Some(Error::UnknownProcedure));
    program.insert("_".to_string(), procedure(&[]));
    assert_eq!(program.check(), None);
    let mut main = procedure(&[]);
    main.add_instruction(call("p", vec![expression(&["1"])]));
    program.insert("_".to_string(), main);
    assert_eq!(program.check(), Some(Error::UnknownProcedure));
    program.insert("p".to_string(), procedure(&[]));
    assert_eq!(program.check(), Some(Error::ArityMismatch));
    program.insert("p".to_string(), procedure(&["a"]));
    assert_eq!(program.check(), None);
    let mut inner = CodeBlock::new(CodeBlockType::LOOP(Loop::new(expression(&["2"]))));
    inner.add_instruction(call("q", vec![]));
    let mut body = procedure(&["a"]);
    body.add_instruction(ParserSymbol::CODE_BLOCK(inner));
    body.add_instruction(call("p", vec![]));
    program.insert("p".to_string(), body);
    assert_eq!(program.check(), Some(Error::UnknownProcedure));
    program.insert("q".to_string(), procedure(&[]));
    assert_eq!(program.check(), Some(Error::ArityMismatch));
    program.insert("_".to_string(), procedure(&["x"]));
    assert_eq!(program.check(), Some(Error::ArityMismatch));
    assert_eq!(program.get(&"q".to_string()).unwrap().parameter_count(), 0);
    assert_eq!(program.get(&"p".to_string()).unwrap().parameter_count(), 1);
}

#[test]
fn brackets_that_do_not_match_are_refused() {
    assert_eq!(parse_logo_code("forward 10 ] ").err(), Some(Error::SyntaxError));
    assert_eq!(parse_logo_code("repeat 4 [ forward 10 ").err(), Some(Error::SyntaxError));
    assert_eq!(parse_logo_code("to p repeat 4 [ forward 10 end ").err(), Some(Error::SyntaxError));
    assert_eq!(parse_logo_code("to p ] end ").err(), Some(Error::SyntaxError));
    assert_eq!(parse_logo_code("forward (1 + 2 ").err(), Some(Error::SyntaxError));
    assert_eq!(parse_logo_code("forward 1 + 2) ").err(), Some(Error::SyntaxError));
}

#[test]
fn headers_and_ends_that_do_not_match_are_refused() {
    assert_eq!(parse_logo_code("end ").err(), Some(Error::SyntaxError));
    assert_eq!(parse_logo_code("to p forward 10 ").err(), Some(Error::SyntaxError));
    assert_eq!(parse_logo_code("to p to q end end ").err(), Some(Error::SyntaxError));
    assert_eq!(parse_logo_code("repeat 2 [ to p end ] ").err(), Some(Error::SyntaxError));
    assert_eq!(parse_logo_code("to ").err(), Some(Error::SyntaxError));
    assert_eq!(parse_logo_code("to p ").err(), Some(Error::SyntaxError));
}

#[test]
fn a_literal_that_spells_no_number_is_refused() {
    assert_eq!(parse_logo_code("forward 1.2.3 ").err(), Some(Error::SyntaxError));
    assert_eq!(parse_logo_code("repeat 1..2 [ ] ").err(), Some(Error::SyntaxError));
    assert_eq!(parse_logo_code("to p :a end p 1.2.3 ").err(), Some(Error::SyntaxError));
}

#[test]
fn glyphs_and_text_parse_alike() {
    let code = "to p :a forward :a end repeat 2 [ p 10 ] ";
    let from_text = parse_logo_code(code).unwrap();
    let from_glyphs = parse_glyphs(&text(code)).unwrap();
    assert_eq!(format!("{:?}", from_text), format!("{:?}", from_glyphs));
}

#[test]
fn programs_are_built_by_hand() {
    let mut body = CodeBlock::new(CodeBlockType::LOOP(Loop::new(expression(&["3"]))));
    body.add_instruction(ParserSymbol::COMMAND(Command::new(
        CommandType::FORWARD,
        expression(&["10"]),
    )));
    let mut main = CodeBlock::new(CodeBlockType::PROCEDURE(Procedure::new()));
    main.add_instruction(ParserSymbol::CODE_BLOCK(body));
    main.add_instruction(ParserSymbol::PROCEDURE_CALL(ProcedureCall::new(
        "p".to_string(),
        vec![expression(&["1"])],
    )));
    main.add_instruction(ParserSymbol::CODE_BLOCK(CodeBlock::new(CodeBlockType::IF(If::new(
        expression(&["1"]),
    )))));
    match main.last_instruction() {
        ParserSymbol::CODE_BLOCK(last) => {
            assert_eq!(last.len(), 0);
            last.add_instruction(ParserSymbol::COMMAND(Command::new(
                CommandType::PEN_UP,
                Expression::empty(),
            )));
        }
        other => panic!("{:?}", other),
    }
    assert_eq!(block_of(main.instruction(2)).len(), 1);
    assert_eq!(main.len(), 3);
    let mut program = Program::new();
    program.insert("_".to_string(), main);
    let parsed =
        parse_logo_code("to p :a end repeat 3 [ forward 10 ] p 1 if 1 [ penup ] ").unwrap();
    assert_eq!(format!("{:?}", main_of(&program)), format!("{:?}", main_of(&parsed)));
}

#[test]
fn every_text_is_parsed_and_as_many_programs_as_drawings_come_back() {
    let codes = words(&["forward 10", "repeat 2 [ forward repcount ]", "penup"]);
    assert_eq!(parse_and_execute(&codes, 3).unwrap().len(), 3);
    assert_eq!(parse_and_execute(&codes, 5).unwrap().len(), 3);
    let two = parse_and_execute(&codes, 2).unwrap();
    assert_eq!(two.len(), 2);
    assert_eq!(main_of(&two[0]).len(), 1);
    let body = block_of(main_of(&two[1]).instruction(0));
    assert_eq!(command_of(body.instruction(0)).1, &expression(&["repcount"]));
    assert_eq!(parse_and_execute(&codes, 0).unwrap().len(), 0);
    assert_eq!(parse_and_execute(&words(&[]), 4).unwrap().len(), 0);
    let broken = words(&["forward 10", "penup", "forward 10 ]"]);
    assert_eq!(parse_and_execute(&broken, 2).err(), Some(Error::SyntaxError));
    assert_eq!(parse_and_execute(&broken, 0).err(), Some(Error::SyntaxError));
}
