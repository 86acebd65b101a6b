//! The interpreter: a machine that runs a program one instruction at a time.
//!
//! The machine decides what is done and in which order; the arithmetic is the
//! host's. Each step takes the values that the host computed for the terms
//! of the step before, and hands out the terms that it needs next.
use vstd::prelude::*;
use crate::environment::Environment;
use crate::error::Error;
use crate::expression::random_bound;
use crate::expression::term_of;
use crate::expression::Expression;
use crate::expression::Symbol;
use crate::number::Number;
use crate::number::Operator;
use crate::number::Term;
use crate::parser::expressions;
use crate::parser::call_fault;
use crate::parser::faulty;
use crate::parser::main_name;
use crate::parser::program_fault;
use crate::parser::some_faulty;
use crate::parser::parameters_of;
use crate::parser::Block;
use crate::parser::BlockKind;
use crate::parser::CodeBlock;
use crate::parser::CodeBlockType;
use crate::parser::CommandType;
use crate::parser::Instruction;
use crate::parser::ParserSymbol;
use crate::parser::ProcedureCall;
use crate::parser::Program;
use crate::text::counter_name;
use crate::text::texts;

verus! {

/// The width of the canvas on which the turtles start.
pub const CANVAS_WIDTH: i32 = 1100;

/// The height of the canvas on which the turtles start.
pub const CANVAS_HEIGHT: i32 = 600;

/// The height of a label before a program sets one.
pub const LABEL_HEIGHT: i32 = 100;

/// The number of turtles.
pub const TURTLES: usize = 2;

/// A turtle: where it is, where it heads, whether its pen is lifted and how
/// high it writes.
#[derive(Clone, Copy, Debug, PartialEq, Eq, Structural)]
pub struct Turtle {
    pub x: Number,
    pub y: Number,
    pub dir_x: Number,
    pub dir_y: Number,
    pub lifted: bool,
    pub label_height: i32,
}

/// What a program draws.
#[derive(Debug, PartialEq, Eq)]
pub enum Primitive {
    /// A line segment between two points.
    Line { from_x: Number, from_y: Number, to_x: Number, to_y: Number },
    /// A text at a point, turned by an angle in whole degrees.
    Text { x: Number, y: Number, angle: i32, size: i32, text: String },
}

/// What a [`Primitive`] is.
pub enum Shape {
    Line { from_x: Number, from_y: Number, to_x: Number, to_y: Number },
    Text { x: Number, y: Number, angle: i32, size: i32, text: Seq<char> },
}

impl View for Primitive {
    type V = Shape;

    open spec fn view(&self) -> Shape {
        match self {
            Primitive::Line { from_x, from_y, to_x, to_y } => Shape::Line {
                from_x: *from_x,
                from_y: *from_y,
                to_x: *to_x,
                to_y: *to_y,
            },
            Primitive::Text { x, y, angle, size, text } => Shape::Text {
                x: *x,
                y: *y,
                angle: *angle,
                size: *size,
                text: text@,
            },
        }
    }
}

/// What each primitive of a sequence is.
pub open spec fn shapes(list: Seq<Primitive>) -> Seq<Shape> {
    list.map_values(|p: Primitive| p@)
}

/// What the machine asks of the host.
#[derive(Debug, PartialEq, Eq)]
pub enum Request {
    /// Compute these terms and hand their values to the next step, in this
    /// order.
    Compute(Vec<Term>),
    /// The program has ended.
    Finished,
}

/// Why a block is being run.
pub enum Activation {
    /// As the body of a procedure; `caller` holds the variables of the
    /// procedure that called.
    Call { caller: Map<Seq<char>, Number> },
    /// As the body of a loop of `count` passes, of which this is pass
    /// number `pass`.
    Loop { count: int, pass: int },
    /// As the body of a conditional.
    Conditional,
}

/// A block that is being run, and the position of its next instruction.
pub struct FrameModel {
    pub block: Block,
    pub next: int,
    pub activation: Activation,
}

/// What the values of the next step are for.
pub enum Awaited {
    /// The machine has not started: it awaits no value.
    Start,
    /// The place and the heading of the turtles at the start.
    Pose,
    /// No value.
    Nothing,
    /// The place of the current turtle after a move.
    Position,
    /// The heading of the current turtle after a turn.
    Heading,
    /// The height of the labels.
    LabelHeight,
    /// The angle of a label with this text.
    Label(Seq<char>),
    /// The number of the turtle that a program chose.
    Turtle,
    /// The number of passes of a loop with this body.
    Count(Block),
    /// The value of a loop's counter in the pass that begins.
    Counter,
    /// The condition of a conditional with this body.
    Condition(Block),
    /// An argument of a call of the procedure `body`: `values` are those of
    /// the arguments before it.
    Argument { arguments: Seq<Seq<Symbol>>, body: Block, values: Seq<Number> },
    /// The program has ended.
    Finished,
    /// The run was abandoned.
    Failed(Error),
}

/// The machine between two steps.
#[verifier::ext_equal]
pub struct MachineModel {
    pub program: Map<Seq<char>, Block>,
    pub turtles: Seq<Turtle>,
    /// The number of the turtle that the commands move.
    pub current: int,
    pub drawing: Seq<Shape>,
    /// The variables of the procedure that is running.
    pub variables: Map<Seq<char>, Number>,
    /// The blocks that are being run, the innermost last.
    pub frames: Seq<FrameModel>,
    pub awaited: Awaited,
}

/// What an expression is evaluated for.
pub enum Purpose {
    /// The distance of a move, forward or backward.
    Move { forward: bool },
    /// The angle of a turn, to the right or to the left.
    Turn { right: bool },
    LabelHeight,
    Turtle,
    Count(Block),
    Condition(Block),
    Argument { arguments: Seq<Seq<Symbol>>, body: Block, values: Seq<Number> },
}

/// What a step comes to before any expression is evaluated.
pub enum Plan {
    /// An expression is to be evaluated for a purpose.
    Evaluate(MachineModel, Seq<Symbol>, Purpose),
    /// The terms to ask for are known.
    Ask(MachineModel, Seq<Term>),
    /// The program has ended.
    End(MachineModel),
    /// The run is abandoned.
    Fail(Error),
}

/// What a step comes to.
pub enum Outcome {
    Compute(MachineModel, Seq<Term>),
    Finished(MachineModel),
    Failed(Error),
}

/// The number of values that the machine awaits.
pub open spec fn expected(awaited: Awaited) -> nat {
    match awaited {
        Awaited::Start | Awaited::Nothing | Awaited::Finished | Awaited::Failed(_) => 0,
        Awaited::Pose => 4,
        Awaited::Position | Awaited::Heading => 2,
        _ => 1,
    }
}

/// The terms for the pose of the turtles at the start: the middle of the
/// canvas, and the heading that points up.
pub open spec fn pose_terms() -> Seq<Term> {
    seq![
        Term::Binary(
            Operator::Divide,
            Box::new(Term::Integer(CANVAS_WIDTH)),
            Box::new(Term::Integer(2)),
        ),
        Term::Binary(
            Operator::Divide,
            Box::new(Term::Integer(CANVAS_HEIGHT)),
            Box::new(Term::Integer(2)),
        ),
        Term::Integer(0),
        Term::Integer(-1i32),
    ]
}

/// The variables of a procedure that was called: its first `count`
/// parameters bound to the values of the arguments, in order, and nothing
/// else.
pub open spec fn bound(parameters: Seq<Seq<char>>, values: Seq<Number>, count: nat) -> Map<
    Seq<char>,
    Number,
>
    decreases count,
{
    if count == 0 {
        Map::empty()
    } else {
        bound(parameters, values, (count - 1) as nat).insert(
            parameters[count - 1],
            values[count - 1],
        )
    }
}

/// The number of parameters that get a value: all of them where the call
/// has as many arguments as the procedure has parameters.
pub open spec fn bound_count(parameters: Seq<Seq<char>>, values: Seq<Number>) -> nat {
    if parameters.len() <= values.len() {
        parameters.len()
    } else {
        values.len()
    }
}

/// The machine after it has entered a procedure with the values of its
/// arguments: the body is run with the parameters as its only variables.
pub open spec fn entered(m: MachineModel, body: Block, values: Seq<Number>) -> MachineModel {
    MachineModel {
        frames: m.frames.push(
            FrameModel { block: body, next: 0, activation: Activation::Call { caller: m.variables } },
        ),
        variables: bound(
            parameters_of(body),
            values,
            bound_count(parameters_of(body), values),
        ),
        ..m
    }
}

/// The frames after `stop`: the conditionals around the instruction are
/// left, and the loop pass or the procedure around them is at its end.
pub open spec fn unwound(frames: Seq<FrameModel>) -> Seq<FrameModel>
    decreases frames.len(),
{
    if frames.len() == 0 {
        frames
    } else {
        match frames.last().activation {
            Activation::Conditional => unwound(frames.drop_last()),
            _ => frames.update(
                frames.len() - 1,
                FrameModel { next: frames.last().block.instructions.len() as int, ..frames.last() },
            ),
        }
    }
}

/// A turtle that was not placed yet.
pub open spec fn spec_unplaced() -> Turtle {
    let zero = Number { bits: 0, rounded: 0, nonzero: false };
    Turtle { x: zero, y: zero, dir_x: zero, dir_y: zero, lifted: false, label_height: LABEL_HEIGHT }
}

/// The turtle that the commands move.
pub open spec fn current_turtle(m: MachineModel) -> Turtle {
    if 0 <= m.current < m.turtles.len() {
        m.turtles[m.current]
    } else {
        spec_unplaced()
    }
}

/// The machine with the current turtle replaced.
pub open spec fn with_turtle(m: MachineModel, turtle: Turtle) -> MachineModel {
    if 0 <= m.current < m.turtles.len() {
        MachineModel { turtles: m.turtles.update(m.current, turtle), ..m }
    } else {
        m
    }
}

/// The terms for the heading of a turtle after a turn to the right by an
/// angle in degrees: the cosine and the sine of the angle of its heading
/// plus the turn in radians.
pub open spec fn rotated(turtle: Turtle, degrees: Term) -> Seq<Term> {
    let turn = Term::Binary(
        Operator::Divide,
        Box::new(Term::Binary(Operator::Multiply, Box::new(degrees), Box::new(Term::Pi))),
        Box::new(Term::Integer(180)),
    );
    let angle = Term::Atan2(
        Box::new(Term::Value(turtle.dir_y)),
        Box::new(Term::Value(turtle.dir_x)),
    );
    let turned = Term::Binary(Operator::Add, Box::new(angle), Box::new(turn));
    seq![Term::Cosine(Box::new(turned)), Term::Sine(Box::new(turned))]
}

/// The terms for the place of a turtle after a move: its place plus, or
/// minus for a move backward, its heading times the distance.
pub open spec fn moved(turtle: Turtle, forward: bool, distance: Term) -> Seq<Term> {
    let op = if forward {
        Operator::Add
    } else {
        Operator::Subtract
    };
    seq![
        Term::Binary(
            op,
            Box::new(Term::Value(turtle.x)),
            Box::new(
                Term::Binary(
                    Operator::Multiply,
                    Box::new(Term::Value(turtle.dir_x)),
                    Box::new(distance),
                ),
            ),
        ),
        Term::Binary(
            op,
            Box::new(Term::Value(turtle.y)),
            Box::new(
                Term::Binary(
                    Operator::Multiply,
                    Box::new(Term::Value(turtle.dir_y)),
                    Box::new(distance),
                ),
            ),
        ),
    ]
}

/// The term for the angle of a turtle's heading in degrees.
pub open spec fn heading_degrees(turtle: Turtle) -> Term {
    Term::Binary(
        Operator::Divide,
        Box::new(
            Term::Binary(
                Operator::Multiply,
                Box::new(
                    Term::Atan2(
                        Box::new(Term::Value(turtle.dir_y)),
                        Box::new(Term::Value(turtle.dir_x)),
                    ),
                ),
                Box::new(Term::Integer(180)),
            ),
        ),
        Box::new(Term::Pi),
    )
}

/// The angle of a turn in degrees, reduced to less than a full circle; a
/// turn to the left is the turn to the right that completes the circle.
pub open spec fn turn_degrees(right: bool, angle: Term) -> Term {
    let reduced = Term::Remainder(Box::new(angle), Box::new(Term::Integer(360)));
    if right {
        reduced
    } else {
        Term::Binary(Operator::Subtract, Box::new(Term::Integer(360)), Box::new(reduced))
    }
}

/// The text of a label: the name that its parameter begins with.
pub open spec fn label_text(parameter: Seq<Symbol>) -> Seq<char> {
    if parameter.len() > 0 && parameter[0] is Variable {
        parameter[0]->Variable_0
    } else {
        Seq::empty()
    }
}

/// What the values of the host do to the machine, or the plan that follows
/// from them at once.
pub enum Taken {
    /// The machine goes on with its next instruction.
    Continue(MachineModel),
    /// The values decide what is asked next.
    Stop(Plan),
}

/// The machine takes the values that it awaited.
///
/// With their pose the turtles are placed, and the top-level procedure is
/// called. A move draws a line from the old place to the new one unless the pen is
/// lifted, and puts the turtle there in either case. The number of a turtle
/// that is not in the roster abandons the run. A loop of one pass or more is
/// entered and asks for its counter; a loop of no pass only unbinds the
/// counter. A conditional is entered where the condition is not zero. The
/// value of an argument is kept; after the last the procedure is entered.
pub open spec fn take(m: MachineModel, values: Seq<Number>) -> Taken {
    let turtle = current_turtle(m);
    let idle = MachineModel { awaited: Awaited::Nothing, ..m };
    if m.awaited is Failed {
        Taken::Stop(Plan::Fail(m.awaited->Failed_0))
    } else if values.len() != expected(m.awaited) {
        Taken::Stop(Plan::Fail(Error::UnexpectedReply))
    } else {
        match m.awaited {
            Awaited::Start => Taken::Stop(
                Plan::Ask(MachineModel { awaited: Awaited::Pose, ..m }, pose_terms()),
            ),
            Awaited::Pose => {
                let placed = Turtle {
                    x: values[0],
                    y: values[1],
                    dir_x: values[2],
                    dir_y: values[3],
                    lifted: false,
                    label_height: LABEL_HEIGHT,
                };
                Taken::Stop(
                    call(
                        MachineModel { turtles: Seq::new(TURTLES as nat, |i: int| placed), ..idle },
                        main_name(),
                        Seq::empty(),
                    ),
                )
            },
            Awaited::Nothing => Taken::Continue(idle),
            Awaited::Position => Taken::Continue(
                MachineModel {
                    drawing: if turtle.lifted {
                        m.drawing
                    } else {
                        m.drawing.push(
                            Shape::Line {
                                from_x: turtle.x,
                                from_y: turtle.y,
                                to_x: values[0],
                                to_y: values[1],
                            },
                        )
                    },
                    ..with_turtle(idle, Turtle { x: values[0], y: values[1], ..turtle })
                },
            ),
            Awaited::Heading => Taken::Continue(
                with_turtle(idle, Turtle { dir_x: values[0], dir_y: values[1], ..turtle }),
            ),
            Awaited::LabelHeight => Taken::Continue(
                with_turtle(idle, Turtle { label_height: values[0].rounded, ..turtle }),
            ),
            Awaited::Label(text) => Taken::Continue(
                MachineModel {
                    drawing: m.drawing.push(
                        Shape::Text {
                            x: turtle.x,
                            y: turtle.y,
                            angle: values[0].rounded,
                            size: turtle.label_height,
                            text,
                        },
                    ),
                    ..idle
                },
            ),
            Awaited::Turtle => if 0 <= values[0].rounded < m.turtles.len() {
                Taken::Continue(MachineModel { current: values[0].rounded as int, ..idle })
            } else {
                Taken::Stop(Plan::Fail(Error::TurtleIndexOutOfRange))
            },
            Awaited::Count(body) => if values[0].rounded > 0 {
                Taken::Stop(
                    Plan::Ask(
                        MachineModel {
                            frames: m.frames.push(
                                FrameModel {
                                    block: body,
                                    next: 0,
                                    activation: Activation::Loop {
                                        count: values[0].rounded as int,
                                        pass: 0,
                                    },
                                },
                            ),
                            awaited: Awaited::Counter,
                            ..m
                        },
                        seq![Term::Integer(0)],
                    ),
                )
            } else {
                Taken::Continue(
                    MachineModel { variables: m.variables.remove(counter_name()), ..idle },
                )
            },
            Awaited::Counter => Taken::Continue(
                MachineModel { variables: m.variables.insert(counter_name(), values[0]), ..idle },
            ),
            Awaited::Condition(body) => if values[0].nonzero {
                Taken::Continue(
                    MachineModel {
                        frames: m.frames.push(
                            FrameModel { block: body, next: 0, activation: Activation::Conditional },
                        ),
                        ..idle
                    },
                )
            } else {
                Taken::Continue(idle)
            },
            Awaited::Argument { arguments, body, values: before } => {
                let known = before.push(values[0]);
                if known.len() < arguments.len() {
                    Taken::Stop(
                        Plan::Evaluate(
                            idle,
                            arguments[known.len() as int],
                            Purpose::Argument { arguments, body, values: known },
                        ),
                    )
                } else {
                    Taken::Continue(entered(idle, body, known))
                }
            },
            Awaited::Finished => Taken::Stop(Plan::End(m)),
            Awaited::Failed(e) => Taken::Stop(Plan::Fail(e)),
        }
    }
}

/// The machine leaves the innermost block, whose instructions are done.
///
/// A procedure gives the variables back to its caller. A loop begins its
/// next pass and asks for the counter, or, after the last pass, ends and
/// unbinds the counter. A conditional just ends.
pub open spec fn leave(m: MachineModel) -> Plan {
    let top = m.frames.last();
    let rest = m.frames.drop_last();
    match top.activation {
        Activation::Call { caller } => Plan::Ask(
            MachineModel { frames: rest, variables: caller, awaited: Awaited::Nothing, ..m },
            Seq::empty(),
        ),
        Activation::Conditional => Plan::Ask(
            MachineModel { frames: rest, awaited: Awaited::Nothing, ..m },
            Seq::empty(),
        ),
        Activation::Loop { count, pass } => if pass + 1 < count {
            Plan::Ask(
                MachineModel {
                    frames: rest.push(
                        FrameModel {
                            next: 0,
                            activation: Activation::Loop { count, pass: pass + 1 },
                            ..top
                        },
                    ),
                    awaited: Awaited::Counter,
                    ..m
                },
                seq![Term::Integer((pass + 1) as i32)],
            )
        } else {
            Plan::Ask(
                MachineModel {
                    frames: rest,
                    variables: m.variables.remove(counter_name()),
                    awaited: Awaited::Nothing,
                    ..m
                },
                Seq::empty(),
            )
        },
    }
}

/// The machine begins a command.
pub open spec fn command(m: MachineModel, kind: CommandType, parameter: Seq<Symbol>) -> Plan {
    let turtle = current_turtle(m);
    let idle = MachineModel { awaited: Awaited::Nothing, ..m };
    match kind {
        CommandType::FORWARD => Plan::Evaluate(idle, parameter, Purpose::Move { forward: true }),
        CommandType::BACKWARD => Plan::Evaluate(idle, parameter, Purpose::Move { forward: false }),
        CommandType::TURN_RIGHT => Plan::Evaluate(idle, parameter, Purpose::Turn { right: true }),
        CommandType::TURN_LEFT => Plan::Evaluate(idle, parameter, Purpose::Turn { right: false }),
        CommandType::SET_LABEL_HEIGHT => Plan::Evaluate(idle, parameter, Purpose::LabelHeight),
        CommandType::SET_TURTLE => Plan::Evaluate(idle, parameter, Purpose::Turtle),
        CommandType::PEN_UP => Plan::Ask(
            with_turtle(idle, Turtle { lifted: true, ..turtle }),
            Seq::empty(),
        ),
        CommandType::PEN_DOWN => Plan::Ask(
            with_turtle(idle, Turtle { lifted: false, ..turtle }),
            Seq::empty(),
        ),
        CommandType::STOP => Plan::Ask(
            MachineModel { frames: unwound(m.frames), ..idle },
            Seq::empty(),
        ),
        CommandType::LABEL => Plan::Ask(
            MachineModel { awaited: Awaited::Label(label_text(parameter)), ..m },
            seq![heading_degrees(turtle)],
        ),
        _ => Plan::Ask(idle, Seq::empty()),
    }
}

/// The machine begins a call: the procedure must be in the program and
/// declare as many parameters as the call has arguments. A call without
/// arguments enters the procedure at once; otherwise the first argument is
/// evaluated.
pub open spec fn call(m: MachineModel, name: Seq<char>, arguments: Seq<Seq<Symbol>>) -> Plan {
    let idle = MachineModel { awaited: Awaited::Nothing, ..m };
    match call_fault(m.program, name, arguments) {
        Some(e) => Plan::Fail(e),
        None => {
            let body = m.program[name];
            if arguments.len() == 0 {
                Plan::Ask(entered(idle, body, Seq::empty()), Seq::empty())
            } else {
                Plan::Evaluate(
                    idle,
                    arguments[0],
                    Purpose::Argument { arguments, body, values: Seq::empty() },
                )
            }
        },
    }
}

/// The machine goes on: without a block to run the program has ended; at
/// the end of the innermost block it leaves the block; otherwise it begins
/// the next instruction of that block.
pub open spec fn proceed(m: MachineModel) -> Plan {
    if m.frames.len() == 0 {
        Plan::End(MachineModel { awaited: Awaited::Finished, ..m })
    } else {
        let top = m.frames.last();
        if top.next < 0 || top.next >= top.block.instructions.len() {
            leave(m)
        } else {
            let after = MachineModel {
                frames: m.frames.update(
                    m.frames.len() - 1,
                    FrameModel { next: top.next + 1, ..top },
                ),
                ..m
            };
            let idle = MachineModel { awaited: Awaited::Nothing, ..after };
            match top.block.instructions[top.next] {
                Instruction::Command { kind, parameter } => command(after, kind, parameter),
                Instruction::Call { name, arguments } => call(after, name, arguments),
                Instruction::Block(inner) => match inner.kind {
                    BlockKind::Loop(repeats) => Plan::Evaluate(idle, repeats, Purpose::Count(inner)),
                    BlockKind::If(condition) => Plan::Evaluate(
                        idle,
                        condition,
                        Purpose::Condition(inner),
                    ),
                    BlockKind::Procedure(_) => Plan::Ask(idle, Seq::empty()),
                },
            }
        }
    }
}

/// What a step comes to before any expression is evaluated.
pub open spec fn plan(m: MachineModel, values: Seq<Number>) -> Plan {
    match take(m, values) {
        Taken::Continue(after) => proceed(after),
        Taken::Stop(p) => p,
    }
}

/// The machine asks for what the purpose needs of the term of the
/// expression that was evaluated.
pub open spec fn complete(m: MachineModel, purpose: Purpose, term: Term) -> Outcome {
    let turtle = current_turtle(m);
    match purpose {
        Purpose::Move { forward } => Outcome::Compute(
            MachineModel { awaited: Awaited::Position, ..m },
            moved(turtle, forward, term),
        ),
        Purpose::Turn { right } => Outcome::Compute(
            MachineModel { awaited: Awaited::Heading, ..m },
            rotated(turtle, turn_degrees(right, term)),
        ),
        Purpose::LabelHeight => Outcome::Compute(
            MachineModel { awaited: Awaited::LabelHeight, ..m },
            seq![term],
        ),
        Purpose::Turtle => Outcome::Compute(
            MachineModel { awaited: Awaited::Turtle, ..m },
            seq![term],
        ),
        Purpose::Count(body) => Outcome::Compute(
            MachineModel { awaited: Awaited::Count(body), ..m },
            seq![term],
        ),
        Purpose::Condition(body) => Outcome::Compute(
            MachineModel { awaited: Awaited::Condition(body), ..m },
            seq![term],
        ),
        Purpose::Argument { arguments, body, values } => Outcome::Compute(
            MachineModel { awaited: Awaited::Argument { arguments, body, values }, ..m },
            seq![term],
        ),
    }
}

/// The expression that a step evaluates; empty where it evaluates none.
pub open spec fn evaluated(m: MachineModel, values: Seq<Number>) -> Seq<Symbol> {
    match plan(m, values) {
        Plan::Evaluate(_, expression, _) => expression,
        _ => Seq::empty(),
    }
}

/// One step of the machine: it takes the values of the host, goes on to its
/// next instruction and asks for the terms that the instruction needs.
/// `draw` is the number drawn where the step evaluates a call of `random`.
pub open spec fn next(m: MachineModel, values: Seq<Number>, draw: int) -> Outcome {
    match plan(m, values) {
        Plan::Evaluate(after, expression, purpose) => match term_of(
            expression,
            after.variables,
            draw,
        ) {
            Ok(term) => complete(after, purpose, term),
            Err(e) => Outcome::Failed(e),
        },
        Plan::Ask(after, terms) => Outcome::Compute(after, terms),
        Plan::End(after) => Outcome::Finished(after),
        Plan::Fail(e) => Outcome::Failed(e),
    }
}

/// Why a block is being run.
enum Running {
    Call { caller: Environment },
    Loop { count: i32, pass: i32 },
    Conditional,
}

/// A block that is being run.
struct Frame<'a> {
    block: &'a CodeBlock,
    next: usize,
    activation: Running,
}

/// What the values of the next step are for.
enum Pending<'a> {
    Start,
    Pose,
    Nothing,
    Position,
    Heading,
    LabelHeight,
    Label(String),
    Turtle,
    Count(&'a CodeBlock),
    Counter,
    Condition(&'a CodeBlock),
    Argument { call: &'a ProcedureCall, body: &'a CodeBlock, values: Vec<Number> },
    Finished,
    Failed(Error),
}

/// What an expression is evaluated for.
enum Task<'a> {
    Move { forward: bool },
    Turn { right: bool },
    LabelHeight,
    Turtle,
    Count(&'a CodeBlock),
    Condition(&'a CodeBlock),
    Argument { call: &'a ProcedureCall, body: &'a CodeBlock, values: Vec<Number> },
}

/// What a step comes to before any expression is evaluated.
enum Planned<'a> {
    Evaluate(&'a Expression, Task<'a>),
    Ask(Vec<Term>),
    End,
    Fail(Error),
}

impl View for Running {
    type V = Activation;

    closed spec fn view(&self) -> Activation {
        match self {
            Running::Call { caller } => Activation::Call { caller: caller@ },
            Running::Loop { count, pass } => Activation::Loop {
                count: *count as int,
                pass: *pass as int,
            },
            Running::Conditional => Activation::Conditional,
        }
    }
}

impl<'a> View for Frame<'a> {
    type V = FrameModel;

    closed spec fn view(&self) -> FrameModel {
        FrameModel { block: self.block@, next: self.next as int, activation: self.activation@ }
    }
}

impl<'a> View for Pending<'a> {
    type V = Awaited;

    closed spec fn view(&self) -> Awaited {
        match self {
            Pending::Start => Awaited::Start,
            Pending::Pose => Awaited::Pose,
            Pending::Nothing => Awaited::Nothing,
            Pending::Position => Awaited::Position,
            Pending::Heading => Awaited::Heading,
            Pending::LabelHeight => Awaited::LabelHeight,
            Pending::Label(text) => Awaited::Label(text@),
            Pending::Turtle => Awaited::Turtle,
            Pending::Count(body) => Awaited::Count(body@),
            Pending::Counter => Awaited::Counter,
            Pending::Condition(body) => Awaited::Condition(body@),
            Pending::Argument { call, body, values } => Awaited::Argument {
                arguments: expressions(call.parameter_expressions@),
                body: body@,
                values: values@,
            },
            Pending::Finished => Awaited::Finished,
            Pending::Failed(e) => Awaited::Failed(*e),
        }
    }
}

impl<'a> View for Task<'a> {
    type V = Purpose;

    closed spec fn view(&self) -> Purpose {
        match self {
            Task::Move { forward } => Purpose::Move { forward: *forward },
            Task::Turn { right } => Purpose::Turn { right: *right },
            Task::LabelHeight => Purpose::LabelHeight,
            Task::Turtle => Purpose::Turtle,
            Task::Count(body) => Purpose::Count(body@),
            Task::Condition(body) => Purpose::Condition(body@),
            Task::Argument { call, body, values } => Purpose::Argument {
                arguments: expressions(call.parameter_expressions@),
                body: body@,
                values: values@,
            },
        }
    }
}

/// What each frame of a sequence is.
spec fn frame_models<'a>(frames: Seq<Frame<'a>>) -> Seq<FrameModel> {
    frames.map_values(|f: Frame<'a>| f@)
}

/// A machine that runs a program.
pub struct Machine<'a> {
    program: &'a Program,
    turtles: Vec<Turtle>,
    current_turtle: usize,
    drawing: Vec<Primitive>,
    variables: Environment,
    frames: Vec<Frame<'a>>,
    pending: Pending<'a>,
}

impl<'a> View for Machine<'a> {
    type V = MachineModel;

    closed spec fn view(&self) -> MachineModel {
        MachineModel {
            program: self.program@,
            turtles: self.turtles@,
            current: self.current_turtle as int,
            drawing: shapes(self.drawing@),
            variables: self.variables@,
            frames: frame_models(self.frames@),
            awaited: self.pending@,
        }
    }
}

/// Whether the executable plan is the plan of the model, with the machine
/// in the state that the plan says.
spec fn plan_matches<'a>(state: MachineModel, planned: Planned<'a>, plan: Plan) -> bool {
    match plan {
        Plan::Evaluate(s, expression, purpose) => state == s && planned is Evaluate
            && planned->Evaluate_0@ == expression && planned->Evaluate_1@ == purpose,
        Plan::Ask(s, terms) => state == s && planned is Ask && planned->Ask_0@ == terms,
        Plan::End(s) => state == s && planned is End,
        Plan::Fail(e) => planned is Fail && planned->Fail_0 == e,
    }
}

/// Whether the result of a step and the machine after it are what the
/// outcome says. After a failure the machine only remembers the error.
pub open spec fn answers(state: MachineModel, r: Result<Request, Error>, outcome: Outcome) -> bool {
    match outcome {
        Outcome::Compute(s, terms) => state == s && r is Ok && r->Ok_0 is Compute
            && r->Ok_0->Compute_0@ == terms,
        Outcome::Finished(s) => state == s && r is Ok && r->Ok_0 is Finished,
        Outcome::Failed(e) => r is Err && r->Err_0 == e && state.awaited == Awaited::Failed(e),
    }
}

/// The term of a value.
fn value(number: Number) -> (t: Box<Term>)
    ensures
        *t == Term::Value(number),
{
    Box::new(Term::Value(number))
}

/// The term of an operator applied to two terms.
fn binary(op: Operator, x: Term, y: Term) -> (t: Term)
    ensures
        t == Term::Binary(op, Box::new(x), Box::new(y)),
{
    Term::Binary(op, Box::new(x), Box::new(y))
}

impl Turtle {
    /// The terms for the heading after a turn to the right by an angle in
    /// degrees.
    pub fn rotate_right(&self, turn_degrees: Term) -> (heading: Vec<Term>)
        ensures
            heading@ == rotated(*self, turn_degrees),
    {
        let turn_rad = binary(
            Operator::Divide,
            binary(Operator::Multiply, turn_degrees, Term::Pi),
            Term::Integer(180),
        );
        let angle = Term::Atan2(value(self.dir_y), value(self.dir_x));
        let new_angle = binary(Operator::Add, angle, turn_rad);
        let mut heading: Vec<Term> = Vec::new();
        heading.push(Term::Cosine(Box::new(new_angle.clone())));
        heading.push(Term::Sine(Box::new(new_angle)));
        assert(heading@ =~= rotated(*self, turn_degrees));
        heading
    }

    /// The terms for the place after a move by a distance.
    pub fn displace(&self, forward: bool, distance: Term) -> (place: Vec<Term>)
        ensures
            place@ == moved(*self, forward, distance),
    {
        let op = if forward {
            Operator::Add
        } else {
            Operator::Subtract
        };
        let mut place: Vec<Term> = Vec::new();
        place.push(
            binary(
                op,
                Term::Value(self.x),
                binary(Operator::Multiply, Term::Value(self.dir_x), distance.clone()),
            ),
        );
        place.push(
            binary(
                op,
                Term::Value(self.y),
                binary(Operator::Multiply, Term::Value(self.dir_y), distance),
            ),
        );
        assert(place@ =~= moved(*self, forward, distance));
        place
    }

    /// The term for the angle of the heading in degrees.
    pub fn heading(&self) -> (angle: Term)
        ensures
            angle == heading_degrees(*self),
    {
        binary(
            Operator::Divide,
            binary(
                Operator::Multiply,
                Term::Atan2(value(self.dir_y), value(self.dir_x)),
                Term::Integer(180),
            ),
            Term::Pi,
        )
    }
}

/// A request for one term.
fn single(term: Term) -> (terms: Vec<Term>)
    ensures
        terms@ == seq![term],
{
    let mut terms: Vec<Term> = Vec::new();
    terms.push(term);
    assert(terms@ =~= seq![term]);
    terms
}

/// A request for no term.
fn none() -> (terms: Vec<Term>)
    ensures
        terms@ == Seq::<Term>::empty(),
{
    Vec::new()
}

/// The machine before its first step: it holds the program, its turtles are
/// not placed yet, it has drawn nothing and runs nothing.
pub open spec fn initial_machine(program: Map<Seq<char>, Block>) -> MachineModel {
    MachineModel {
        program,
        turtles: Seq::new(TURTLES as nat, |i: int| spec_unplaced()),
        current: 0,
        drawing: Seq::empty(),
        variables: Map::empty(),
        frames: Seq::empty(),
        awaited: Awaited::Start,
    }
}

/// A turtle that was not placed yet.
#[verifier::when_used_as_spec(spec_unplaced)]
pub fn unplaced() -> (t: Turtle)
    ensures
        t == spec_unplaced(),
{
    let zero = Number { bits: 0, rounded: 0, nonzero: false };
    Turtle { x: zero, y: zero, dir_x: zero, dir_y: zero, lifted: false, label_height: LABEL_HEIGHT }
}

/// The number of values that the machine awaits.
fn expected_count<'a>(pending: &Pending<'a>) -> (n: usize)
    ensures
        n == expected(pending@),
{
    match pending {
        Pending::Start | Pending::Nothing | Pending::Finished | Pending::Failed(_) => 0,
        Pending::Pose => 4,
        Pending::Position | Pending::Heading => 2,
        _ => 1,
    }
}

impl<'a> Machine<'a> {
    /// A machine for a program, before its first step.
    pub fn new(program: &'a Program) -> (m: Machine<'a>)
        ensures
            m@ == initial_machine(program@),
    {
        let unplaced = unplaced();
        let mut turtles: Vec<Turtle> = Vec::new();
        turtles.push(unplaced);
        turtles.push(unplaced);
        let m = Machine {
            program,
            turtles,
            current_turtle: 0,
            drawing: Vec::new(),
            variables: Environment::new(),
            frames: Vec::new(),
            pending: Pending::Start,
        };
        proof {
            assert(m@.turtles =~= initial_machine(program@).turtles);
            assert(m@.drawing =~= initial_machine(program@).drawing);
            assert(m@.frames =~= initial_machine(program@).frames);
        }
        m
    }

    /// What the program has drawn so far, in the order of drawing.
    pub fn drawing(&self) -> (list: &Vec<Primitive>)
        ensures
            shapes(list@) == self@.drawing,
    {
        &self.drawing
    }

    /// The turtles.
    pub fn turtles(&self) -> (list: &Vec<Turtle>)
        ensures
            list@ == self@.turtles,
    {
        &self.turtles
    }

    /// The number of the turtle that the commands move.
    pub fn current_turtle(&self) -> (index: usize)
        ensures
            index == self@.current,
    {
        self.current_turtle
    }

    /// The value of a variable of the procedure that is running.
    pub fn variable(&self, name: &String) -> (value: Option<Number>)
        ensures
            value == if self@.variables.contains_key(name@) {
                Some(self@.variables[name@])
            } else {
                None
            },
    {
        self.variables.get(name)
    }

    /// Whether the program has ended.
    pub fn is_finished(&self) -> (done: bool)
        ensures
            done == (self@.awaited is Finished),
    {
        match &self.pending {
            Pending::Finished => true,
            _ => false,
        }
    }

    fn turtle(&self) -> (t: Turtle)
        ensures
            t == current_turtle(self@),
    {
        if self.current_turtle < self.turtles.len() {
            self.turtles[self.current_turtle]
        } else {
            unplaced()
        }
    }

    fn set_turtle(&mut self, turtle: Turtle)
        ensures
            final(self)@ == with_turtle(old(self)@, turtle),
    {
        if self.current_turtle < self.turtles.len() {
            self.turtles.set(self.current_turtle, turtle);
        }
    }

    fn set_pending(&mut self, pending: Pending<'a>)
        ensures
            final(self)@ == (MachineModel { awaited: pending@, ..old(self)@ }),
    {
        self.pending = pending;
    }

    fn draw(&mut self, primitive: Primitive)
        ensures
            final(self)@ == (MachineModel {
                drawing: old(self)@.drawing.push(primitive@),
                ..old(self)@
            }),
    {
        self.drawing.push(primitive);
        assert(self@.drawing =~= old(self)@.drawing.push(primitive@));
    }

    fn push_frame(&mut self, frame: Frame<'a>)
        ensures
            final(self)@ == (MachineModel {
                frames: old(self)@.frames.push(frame@),
                ..old(self)@
            }),
    {
        self.frames.push(frame);
        assert(self@.frames =~= old(self)@.frames.push(frame@));
    }

    fn pop_frame(&mut self) -> (frame: Frame<'a>)
        requires
            old(self)@.frames.len() > 0,
        ensures
            frame@ == old(self)@.frames.last(),
            final(self)@ == (MachineModel {
                frames: old(self)@.frames.drop_last(),
                ..old(self)@
            }),
    {
        let frame = self.frames.pop().unwrap();
        assert(self@.frames =~= old(self)@.frames.drop_last());
        frame
    }

    fn unbind_counter(&mut self)
        ensures
            final(self)@ == (MachineModel {
                variables: old(self)@.variables.remove(counter_name()),
                ..old(self)@
            }),
    {
        let name = String::from_str("repcount");
        proof {
            reveal_strlit("repcount");
            assert(name@ =~= counter_name());
        }
        self.variables.remove(&name);
    }

    fn bind_counter(&mut self, value: Number)
        ensures
            final(self)@ == (MachineModel {
                variables: old(self)@.variables.insert(counter_name(), value),
                ..old(self)@
            }),
    {
        let name = String::from_str("repcount");
        proof {
            reveal_strlit("repcount");
            assert(name@ =~= counter_name());
        }
        self.variables.insert(name, value);
    }

    /// Enters a procedure with the values of its arguments.
    fn enter(&mut self, body: &'a CodeBlock, values: &Vec<Number>)
        ensures
            final(self)@ == entered(old(self)@, body@, values@),
    {
        let mut fresh = Environment::new();
        match body.kind() {
            CodeBlockType::PROCEDURE(p) => {
                let mut i: usize = 0;
                while i < p.call_parameters.len() && i < values.len()
                    invariant
                        i <= p.call_parameters.len(),
                        i <= values.len(),
                        parameters_of(body@) == texts(p.call_parameters@),
                        fresh@ == bound(parameters_of(body@), values@, i as nat),
                    decreases p.call_parameters.len() - i,
                {
                    fresh.insert(p.call_parameters[i].clone(), values[i]);
                    i = i + 1;
                }
            },
            _ => {},
        }
        core::mem::swap(&mut self.variables, &mut fresh);
        self.push_frame(Frame { block: body, next: 0, activation: Running::Call { caller: fresh } });
    }

    /// Moves the innermost frame to its next instruction.
    fn step_over(&mut self)
        requires
            old(self)@.frames.len() > 0,
            old(self)@.frames.last().next < usize::MAX,
        ensures
            final(self)@ == (MachineModel {
                frames: old(self)@.frames.update(
                    old(self)@.frames.len() - 1,
                    FrameModel {
                        next: old(self)@.frames.last().next + 1,
                        ..old(self)@.frames.last()
                    },
                ),
                ..old(self)@
            }),
    {
        let mut frame = self.frames.pop().unwrap();
        frame.next = frame.next + 1;
        self.frames.push(frame);
        assert(self@.frames =~= old(self)@.frames.update(
            old(self)@.frames.len() - 1,
            FrameModel { next: old(self)@.frames.last().next + 1, ..old(self)@.frames.last() },
        ));
    }

    /// Leaves the conditionals around a `stop` and puts the loop pass or the
    /// procedure around them at its end.
    fn unwind(&mut self)
        ensures
            final(self)@ == (MachineModel { frames: unwound(old(self)@.frames), ..old(self)@ }),
    {
        loop
            invariant
                unwound(self@.frames) == unwound(old(self)@.frames),
                self@ == (MachineModel { frames: self@.frames, ..old(self)@ }),
            decreases self.frames.len(),
        {
            if self.frames.len() == 0 {
                return ;
            }
            let ghost before = self@.frames;
            let mut frame = self.pop_frame();
            match &frame.activation {
                Running::Conditional => {},
                _ => {
                    frame.next = frame.block.len();
                    self.push_frame(frame);
                    assert(self@.frames =~= unwound(before));
                    return ;
                },
            }
        }
    }
}

/// The request for the pose of the turtles at the start.
fn pose_request() -> (terms: Vec<Term>)
    ensures
        terms@ == pose_terms(),
{
    let mut terms: Vec<Term> = Vec::new();
    terms.push(binary(Operator::Divide, Term::Integer(CANVAS_WIDTH), Term::Integer(2)));
    terms.push(binary(Operator::Divide, Term::Integer(CANVAS_HEIGHT), Term::Integer(2)));
    terms.push(Term::Integer(0));
    terms.push(Term::Integer(-1));
    assert(terms@ =~= pose_terms());
    terms
}

impl<'a> Machine<'a> {
    /// Places every turtle.
    fn place(&mut self, placed: Turtle)
        ensures
            final(self)@ == (MachineModel {
                turtles: Seq::new(TURTLES as nat, |i: int| placed),
                ..old(self)@
            }),
    {
        let mut turtles: Vec<Turtle> = Vec::new();
        turtles.push(placed);
        turtles.push(placed);
        self.turtles = turtles;
        assert(self@.turtles =~= Seq::new(TURTLES as nat, |i: int| placed));
    }

    /// Begins a call of the procedure `name` with the arguments of `call`,
    /// or with none.
    fn call(&mut self, name: &String, call: Option<&'a ProcedureCall>) -> (planned: Planned<'a>)
        requires
            old(self)@.awaited == Awaited::Nothing,
        ensures
            plan_matches(
                final(self)@,
                planned,
                self::call(
                    old(self)@,
                    name@,
                    match call {
                        Some(c) => expressions(c.parameter_expressions@),
                        None => Seq::empty(),
                    },
                ),
            ),
    {
        let count = match call {
            Some(c) => c.parameter_expressions.len(),
            None => 0,
        };
        let program: &'a Program = self.program;
        match program.get(name) {
            None => Planned::Fail(Error::UnknownProcedure),
            Some(body) => {
                if count != body.parameter_count() {
                    Planned::Fail(Error::ArityMismatch)
                } else {
                    match call {
                        Some(c) => {
                            if c.parameter_expressions.len() == 0 {
                                let values: Vec<Number> = Vec::new();
                                self.enter(body, &values);
                                Planned::Ask(none())
                            } else {
                                Planned::Evaluate(
                                    &c.parameter_expressions[0],
                                    Task::Argument { call: c, body, values: Vec::new() },
                                )
                            }
                        },
                        None => {
                            let values: Vec<Number> = Vec::new();
                            self.enter(body, &values);
                            Planned::Ask(none())
                        },
                    }
                }
            },
        }
    }

    /// Takes the values that the machine awaited. `None` where the machine
    /// goes on with its next instruction.
    fn take(&mut self, values: &Vec<Number>) -> (planned: Option<Planned<'a>>)
        ensures
            match take(old(self)@, values@) {
                Taken::Continue(s) => planned is None && final(self)@ == s,
                Taken::Stop(p) => planned is Some && plan_matches(final(self)@, planned->0, p),
            },
    {
        match &self.pending {
            Pending::Failed(e) => {
                return Some(Planned::Fail(*e));
            },
            _ => {},
        }
        if values.len() != expected_count(&self.pending) {
            return Some(Planned::Fail(Error::UnexpectedReply));
        }
        let mut pending: Pending<'a> = Pending::Nothing;
        core::mem::swap(&mut self.pending, &mut pending);
        let turtle = self.turtle();
        match pending {
            Pending::Start => {
                self.set_pending(Pending::Pose);
                Some(Planned::Ask(pose_request()))
            },
            Pending::Pose => {
                let placed = Turtle {
                    x: values[0],
                    y: values[1],
                    dir_x: values[2],
                    dir_y: values[3],
                    lifted: false,
                    label_height: LABEL_HEIGHT,
                };
                self.place(placed);
                let name = String::from_str("_");
                proof {
                    reveal_strlit("_");
                    assert(name@ =~= main_name());
                }
                Some(self.call(&name, None))
            },
            Pending::Nothing => None,
            Pending::Position => {
                if !turtle.lifted {
                    self.draw(
                        Primitive::Line {
                            from_x: turtle.x,
                            from_y: turtle.y,
                            to_x: values[0],
                            to_y: values[1],
                        },
                    );
                }
                self.set_turtle(Turtle { x: values[0], y: values[1], ..turtle });
                None
            },
            Pending::Heading => {
                self.set_turtle(Turtle { dir_x: values[0], dir_y: values[1], ..turtle });
                None
            },
            Pending::LabelHeight => {
                self.set_turtle(Turtle { label_height: values[0].rounded, ..turtle });
                None
            },
            Pending::Label(text) => {
                self.draw(
                    Primitive::Text {
                        x: turtle.x,
                        y: turtle.y,
                        angle: values[0].rounded,
                        size: turtle.label_height,
                        text,
                    },
                );
                None
            },
            Pending::Turtle => {
                let index = values[0].rounded;
                if 0 <= index && (index as usize) < self.turtles.len() {
                    self.current_turtle = index as usize;
                    None
                } else {
                    Some(Planned::Fail(Error::TurtleIndexOutOfRange))
                }
            },
            Pending::Count(body) => {
                let count = values[0].rounded;
                if count > 0 {
                    self.push_frame(
                        Frame { block: body, next: 0, activation: Running::Loop { count, pass: 0 } },
                    );
                    self.set_pending(Pending::Counter);
                    Some(Planned::Ask(single(Term::Integer(0))))
                } else {
                    self.unbind_counter();
                    None
                }
            },
            Pending::Counter => {
                self.bind_counter(values[0]);
                None
            },
            Pending::Condition(body) => {
                if values[0].nonzero {
                    self.push_frame(
                        Frame { block: body, next: 0, activation: Running::Conditional },
                    );
                }
                None
            },
            Pending::Argument { call, body, values: before } => {
                let mut known = before;
                known.push(values[0]);
                if known.len() < call.parameter_expressions.len() {
                    let k = known.len();
                    Some(
                        Planned::Evaluate(
                            &call.parameter_expressions[k],
                            Task::Argument { call, body, values: known },
                        ),
                    )
                } else {
                    self.enter(body, &known);
                    None
                }
            },
            Pending::Finished => {
                self.set_pending(Pending::Finished);
                Some(Planned::End)
            },
            Pending::Failed(e) => Some(Planned::Fail(e)),
        }
    }
}

impl<'a> Machine<'a> {
    /// Leaves the innermost block.
    fn leave(&mut self) -> (planned: Planned<'a>)
        requires
            old(self)@.frames.len() > 0,
        ensures
            plan_matches(final(self)@, planned, leave(old(self)@)),
    {
        let frame = self.pop_frame();
        let Frame { block, next, activation } = frame;
        match activation {
            Running::Call { caller } => {
                self.variables = caller;
                self.set_pending(Pending::Nothing);
                Planned::Ask(none())
            },
            Running::Conditional => {
                self.set_pending(Pending::Nothing);
                Planned::Ask(none())
            },
            Running::Loop { count, pass } => {
                if pass < count && pass + 1 < count {
                    self.push_frame(
                        Frame {
                            block,
                            next: 0,
                            activation: Running::Loop { count, pass: pass + 1 },
                        },
                    );
                    self.set_pending(Pending::Counter);
                    Planned::Ask(single(Term::Integer(pass + 1)))
                } else {
                    self.unbind_counter();
                    self.set_pending(Pending::Nothing);
                    Planned::Ask(none())
                }
            },
        }
    }

    /// Begins a command.
    fn command(&mut self, kind: CommandType, parameter: &'a Expression) -> (planned: Planned<'a>)
        ensures
            plan_matches(final(self)@, planned, command(old(self)@, kind, parameter@)),
    {
        let turtle = self.turtle();
        match kind {
            CommandType::LABEL => {
                self.set_pending(Pending::Label(parameter.text_literal()));
                Planned::Ask(single(turtle.heading()))
            },
            _ => {
                self.set_pending(Pending::Nothing);
                match kind {
                    CommandType::FORWARD => Planned::Evaluate(
                        parameter,
                        Task::Move { forward: true },
                    ),
                    CommandType::BACKWARD => Planned::Evaluate(
                        parameter,
                        Task::Move { forward: false },
                    ),
                    CommandType::TURN_RIGHT => Planned::Evaluate(
                        parameter,
                        Task::Turn { right: true },
                    ),
                    CommandType::TURN_LEFT => Planned::Evaluate(
                        parameter,
                        Task::Turn { right: false },
                    ),
                    CommandType::SET_LABEL_HEIGHT => Planned::Evaluate(parameter, Task::LabelHeight),
                    CommandType::SET_TURTLE => Planned::Evaluate(parameter, Task::Turtle),
                    CommandType::PEN_UP => {
                        self.set_turtle(Turtle { lifted: true, ..turtle });
                        Planned::Ask(none())
                    },
                    CommandType::PEN_DOWN => {
                        self.set_turtle(Turtle { lifted: false, ..turtle });
                        Planned::Ask(none())
                    },
                    CommandType::STOP => {
                        self.unwind();
                        Planned::Ask(none())
                    },
                    _ => Planned::Ask(none()),
                }
            },
        }
    }

    /// Goes on with the next instruction.
    fn proceed(&mut self) -> (planned: Planned<'a>)
        ensures
            plan_matches(final(self)@, planned, proceed(old(self)@)),
    {
        let n = self.frames.len();
        if n == 0 {
            self.set_pending(Pending::Finished);
            return Planned::End;
        }
        let block: &'a CodeBlock = self.frames[n - 1].block;
        let next = self.frames[n - 1].next;
        assert(self@.frames.last() == self.frames@[n - 1]@);
        if next >= block.len() {
            return self.leave();
        }
        self.step_over();
        match block.instruction(next) {
            ParserSymbol::COMMAND(c) => self.command(c.command_type, &c.call_parameter),
            ParserSymbol::PROCEDURE_CALL(c) => {
                self.set_pending(Pending::Nothing);
                self.call(&c.procedure_name, Some(c))
            },
            ParserSymbol::CODE_BLOCK(inner) => {
                self.set_pending(Pending::Nothing);
                match inner.kind() {
                    CodeBlockType::LOOP(l) => Planned::Evaluate(&l.repeats, Task::Count(inner)),
                    CodeBlockType::IF(i) => Planned::Evaluate(&i.condition, Task::Condition(inner)),
                    CodeBlockType::PROCEDURE(_) => Planned::Ask(none()),
                }
            },
        }
    }

    /// Asks for what the task needs of the term of its expression.
    fn complete(&mut self, task: Task<'a>, term: Term) -> (terms: Vec<Term>)
        ensures
            complete(old(self)@, task@, term) == Outcome::Compute(final(self)@, terms@),
    {
        let turtle = self.turtle();
        match task {
            Task::Move { forward } => {
                self.set_pending(Pending::Position);
                turtle.displace(forward, term)
            },
            Task::Turn { right } => {
                self.set_pending(Pending::Heading);
                let reduced = Term::Remainder(Box::new(term), Box::new(Term::Integer(360)));
                let degrees = if right {
                    reduced
                } else {
                    binary(Operator::Subtract, Term::Integer(360), reduced)
                };
                turtle.rotate_right(degrees)
            },
            Task::LabelHeight => {
                self.set_pending(Pending::LabelHeight);
                single(term)
            },
            Task::Turtle => {
                self.set_pending(Pending::Turtle);
                single(term)
            },
            Task::Count(body) => {
                self.set_pending(Pending::Count(body));
                single(term)
            },
            Task::Condition(body) => {
                self.set_pending(Pending::Condition(body));
                single(term)
            },
            Task::Argument { call, body, values } => {
                self.set_pending(Pending::Argument { call, body, values });
                single(term)
            },
        }
    }

    /// What a step comes to before any expression is evaluated.
    fn plan(&mut self, values: &Vec<Number>) -> (planned: Planned<'a>)
        ensures
            plan_matches(final(self)@, planned, plan(old(self)@, values@)),
    {
        match self.take(values) {
            Some(planned) => planned,
            None => self.proceed(),
        }
    }

    /// Ends a step with the term of the expression that it evaluated, or
    /// with the error of the evaluation.
    fn conclude(&mut self, task: Task<'a>, term: Result<Term, Error>) -> (r: Result<Request, Error>)
        ensures
            answers(
                final(self)@,
                r,
                match term {
                    Ok(t) => complete(old(self)@, task@, t),
                    Err(e) => Outcome::Failed(e),
                },
            ),
    {
        match term {
            Ok(t) => Ok(Request::Compute(self.complete(task, t))),
            Err(e) => {
                self.set_pending(Pending::Failed(e));
                Err(e)
            },
        }
    }

    /// One step of the machine, where `draw` is the number drawn for a call
    /// of `random`: the machine takes the values that the host computed for
    /// the terms of the step before, and asks for the terms that it needs
    /// next.
    pub fn advance_drawn(&mut self, values: &Vec<Number>, draw: i32) -> (r: Result<
        Request,
        Error,
    >)
        ensures
            answers(final(self)@, r, next(old(self)@, values@, draw as int)),
    {
        match self.plan(values) {
            Planned::Evaluate(expression, task) => {
                let term = expression.evaluate_drawn(&self.variables, draw);
                self.conclude(task, term)
            },
            Planned::Ask(terms) => Ok(Request::Compute(terms)),
            Planned::End => Ok(Request::Finished),
            Planned::Fail(e) => {
                self.set_pending(Pending::Failed(e));
                Err(e)
            },
        }
    }

    /// One step of the machine: it takes the values that the host computed
    /// for the terms of the step before, and asks for the terms that it
    /// needs next. Where the step evaluates a call of `random` with a bound
    /// above zero, a number is drawn that is at least zero and below the
    /// bound.
    pub fn advance(&mut self, values: &Vec<Number>) -> (r: Result<Request, Error>)
        ensures
            exists|draw: int|
                (random_bound(evaluated(old(self)@, values@)) > 0 ==> 0 <= draw < random_bound(
                    evaluated(old(self)@, values@),
                )) && answers(final(self)@, r, #[trigger] next(old(self)@, values@, draw)),
    {
        match self.plan(values) {
            Planned::Evaluate(expression, task) => {
                let term = expression.evaluate(&self.variables);
                let ghost draw: int = match term {
                    Ok(Term::Integer(k)) => k as int,
                    _ => 0,
                };
                let r = self.conclude(task, term);
                proof {
                    assert(answers(self@, r, next(old(self)@, values@, draw)));
                }
                r
            },
            Planned::Ask(terms) => {
                let r = Ok(Request::Compute(terms));
                proof {
                    assert(answers(self@, r, next(old(self)@, values@, 0)));
                }
                r
            },
            Planned::End => {
                let r = Ok(Request::Finished);
                proof {
                    assert(answers(self@, r, next(old(self)@, values@, 0)));
                }
                r
            },
            Planned::Fail(e) => {
                self.set_pending(Pending::Failed(e));
                let r = Err(e);
                proof {
                    assert(answers(self@, r, next(old(self)@, values@, 0)));
                }
                r
            },
        }
    }
}

/// A machine that is ready to run the program.
pub fn execute_logo_program<'a>(procedures: &'a Program) -> (machine: Machine<'a>)
    ensures
        machine@ == initial_machine(procedures@),
{
    Machine::new(procedures)
}

/// The values that a procedure's variables get are those of its
/// parameters.
proof fn lemma_bound_names(
    parameters: Seq<Seq<char>>,
    values: Seq<Number>,
    count: nat,
    name: Seq<char>,
)
    requires
        count <= parameters.len(),
    ensures
        bound(parameters, values, count).contains_key(name) ==> exists|i: int|
            0 <= i < count && #[trigger] parameters[i] == name,
    decreases count,
{
    if count > 0 {
        lemma_bound_names(parameters, values, (count - 1) as nat, name);
        if bound(parameters, values, count).contains_key(name) {
            if parameters[count - 1] == name {
            } else {
                assert(bound(parameters, values, (count - 1) as nat).contains_key(name));
            }
        }
    }
}

/// A procedure sees its parameters and nothing else: whatever the caller's
/// variables hold, a name that is no parameter of the procedure has no value
/// in its body, and an expression that reads it is refused there.
pub proof fn law_call_hides_caller(
    m: MachineModel,
    body: Block,
    values: Seq<Number>,
    name: Seq<char>,
    draw: int,
)
    requires
        !parameters_of(body).contains(name),
    ensures
        !entered(m, body, values).variables.contains_key(name),
        term_of(seq![Symbol::Variable(name)], entered(m, body, values).variables, draw) == Err::<
            Term,
            Error,
        >(Error::UndefinedVariable),
        entered(m, body, values).frames.last().activation == (Activation::Call {
            caller: m.variables,
        }),
{
    let parameters = parameters_of(body);
    lemma_bound_names(parameters, values, bound_count(parameters, values), name);
    let expression = seq![Symbol::Variable(name)];
    assert(expression[0] == Symbol::Variable(name));
    reveal_with_fuel(crate::expression::fold_postfix, 2);
}

/// A loop of `count` passes, `count` above zero, begins with pass 0: the
/// body is entered and the value of the counter is asked for.
pub proof fn law_loop_begins(m: MachineModel, body: Block, count: Number)
    requires
        m.awaited == Awaited::Count(body),
        count.rounded > 0,
    ensures
        take(m, seq![count]) == Taken::Stop(
            Plan::Ask(
                MachineModel {
                    frames: m.frames.push(
                        FrameModel {
                            block: body,
                            next: 0,
                            activation: Activation::Loop { count: count.rounded as int, pass: 0 },
                        },
                    ),
                    awaited: Awaited::Counter,
                    ..m
                },
                seq![Term::Integer(0)],
            ),
        ),
{
}

/// A loop of no pass runs nothing and leaves the counter without a value.
pub proof fn law_loop_skipped(m: MachineModel, body: Block, count: Number)
    requires
        m.awaited == Awaited::Count(body),
        count.rounded <= 0,
    ensures
        take(m, seq![count]) matches Taken::Continue(after) && after.frames == m.frames
            && !after.variables.contains_key(counter_name()),
{
}

/// In each pass the counter holds the value that the host gave for the
/// number of the pass.
pub proof fn law_loop_counter(m: MachineModel, value: Number)
    requires
        m.awaited == Awaited::Counter,
    ensures
        take(m, seq![value]) matches Taken::Continue(after) && after.variables
            == m.variables.insert(counter_name(), value) && after.frames == m.frames,
{
}

/// At the end of pass number `pass` of a loop of `count` passes: before the
/// last pass the next one begins at the first instruction of the body, with
/// the number `pass + 1` for its counter; after the last pass the loop is
/// left and the counter has no value. So the body is run `count` times, and
/// the passes are numbered from 0 to `count - 1`.
pub proof fn law_loop_continues(m: MachineModel, count: int, pass: int)
    requires
        m.frames.len() > 0,
        m.frames.last().activation == (Activation::Loop { count, pass }),
        0 <= pass < count <= i32::MAX,
    ensures
        pass + 1 < count ==> leave(m) == Plan::Ask(
            MachineModel {
                frames: m.frames.drop_last().push(
                    FrameModel {
                        next: 0,
                        activation: Activation::Loop { count, pass: pass + 1 },
                        ..m.frames.last()
                    },
                ),
                awaited: Awaited::Counter,
                ..m
            },
            seq![Term::Integer((pass + 1) as i32)],
        ),
        pass + 1 == count ==> (leave(m) matches Plan::Ask(after, terms) && terms.len() == 0
            && after.frames == m.frames.drop_last() && !after.variables.contains_key(
            counter_name(),
        )),
{
}

/// A move puts the turtle at its new place whether the pen is lifted or
/// not, and draws a line from the old place to the new one only where the
/// pen is down.
pub proof fn law_pen(m: MachineModel, x: Number, y: Number)
    requires
        m.awaited == Awaited::Position,
        0 <= m.current < m.turtles.len(),
    ensures
        take(m, seq![x, y]) matches Taken::Continue(after) && current_turtle(after).x == x
            && current_turtle(after).y == y && after.drawing == if current_turtle(m).lifted {
            m.drawing
        } else {
            m.drawing.push(
                Shape::Line {
                    from_x: current_turtle(m).x,
                    from_y: current_turtle(m).y,
                    to_x: x,
                    to_y: y,
                },
            )
        },
{
}

/// `stop` leaves the conditionals around it, and ends the pass of the
/// nearest loop or the nearest procedure around those, whichever is
/// innermost; the blocks further out go on as before.
pub proof fn law_stop(frames: Seq<FrameModel>, top: FrameModel)
    ensures
        top.activation is Conditional ==> unwound(frames.push(top)) == unwound(frames),
        !(top.activation is Conditional) ==> unwound(frames.push(top)) == frames.push(
            FrameModel { next: top.block.instructions.len() as int, ..top },
        ),
{
    let all = frames.push(top);
    assert(all.drop_last() =~= frames);
    assert(all.last() == top);
    if !(top.activation is Conditional) {
        assert(unwound(all) =~= frames.push(
            FrameModel { next: top.block.instructions.len() as int, ..top },
        ));
    }
}

/// After `stop` the innermost block is a loop or a procedure at its end, so
/// the next step leaves it: the loop goes on to its next pass or ends, the
/// procedure returns to its caller. Nothing further out is left.
pub proof fn law_stop_ends_one_block(m: MachineModel)
    ensures
        unwound(m.frames).len() <= m.frames.len(),
        unwound(m.frames).len() > 0 ==> {
            let after = MachineModel { frames: unwound(m.frames), ..m };
            &&& !(after.frames.last().activation is Conditional)
            &&& after.frames.last().next == after.frames.last().block.instructions.len()
            &&& after.frames.drop_last() == m.frames.take(after.frames.len() - 1)
            &&& proceed(after) == leave(after)
        },
    decreases m.frames.len(),
{
    let frames = m.frames;
    if frames.len() > 0 {
        match frames.last().activation {
            Activation::Conditional => {
                let inner = MachineModel { frames: frames.drop_last(), ..m };
                law_stop_ends_one_block(inner);
                let after = unwound(inner.frames);
                if after.len() > 0 {
                    assert(inner.frames.take(after.len() - 1) =~= m.frames.take(after.len() - 1));
                }
            },
            _ => {
                let after = unwound(frames);
                assert(after.drop_last() =~= m.frames.take(after.len() - 1));
            },
        }
    }
}

/// Whether the machine has all its turtles and moves one of them.
pub open spec fn has_roster(m: MachineModel) -> bool {
    m.turtles.len() == TURTLES && 0 <= m.current < TURTLES
}

/// The roster is fixed: a machine that has all its turtles and moves one of
/// them does so after every step. The machine before its first step is such
/// a machine.
pub proof fn law_roster_is_fixed(
    program: Map<Seq<char>, Block>,
    m: MachineModel,
    values: Seq<Number>,
    draw: int,
)
    requires
        has_roster(m),
    ensures
        has_roster(initial_machine(program)),
        next(m, values, draw) matches Outcome::Compute(after, _) ==> has_roster(after),
        next(m, values, draw) matches Outcome::Finished(after) ==> has_roster(after),
{
    match take(m, values) {
        Taken::Continue(after) => {
            assert(has_roster(after));
        },
        Taken::Stop(_) => {},
    }
}

/// Whether no call among the instructions, or inside the blocks among
/// them, names a procedure that the program does not hold or passes a
/// number of arguments that does not fit.
pub open spec fn clean(program: Map<Seq<char>, Block>, instructions: Seq<Instruction>) -> bool {
    !faulty(program, instructions, 0, Error::UnknownProcedure) && !faulty(
        program,
        instructions,
        0,
        Error::ArityMismatch,
    )
}

/// Whether the error is that of a call.
pub open spec fn is_call_error(e: Error) -> bool {
    e == Error::UnknownProcedure || e == Error::ArityMismatch
}

/// Whether the machine runs a program that nothing is wrong with, and only
/// blocks of that program.
pub open spec fn sound(m: MachineModel) -> bool {
    &&& program_fault(m.program) is None
    &&& forall|i: int|
        0 <= i < m.frames.len() ==> clean(m.program, (#[trigger] m.frames[i]).block.instructions)
    &&& match m.awaited {
        Awaited::Count(body) => clean(m.program, body.instructions),
        Awaited::Condition(body) => clean(m.program, body.instructions),
        Awaited::Argument { body, .. } => clean(m.program, body.instructions),
        Awaited::Failed(e) => !is_call_error(e),
        _ => true,
    }
}

/// Whether the blocks that a purpose holds are blocks without faults.
spec fn purpose_sound(program: Map<Seq<char>, Block>, purpose: Purpose) -> bool {
    match purpose {
        Purpose::Count(body) => clean(program, body.instructions),
        Purpose::Condition(body) => clean(program, body.instructions),
        Purpose::Argument { body, .. } => clean(program, body.instructions),
        _ => true,
    }
}

/// Whether a plan keeps the machine sound.
spec fn plan_sound(p: Plan) -> bool {
    match p {
        Plan::Evaluate(after, _, purpose) => sound(
            MachineModel { awaited: Awaited::Nothing, ..after },
        ) && purpose_sound(after.program, purpose),
        Plan::Ask(after, _) => sound(after),
        Plan::End(after) => sound(after),
        Plan::Fail(e) => !is_call_error(e),
    }
}

/// Instructions without faults from a position on have none from any later
/// position on.
proof fn lemma_faulty_later(
    program: Map<Seq<char>, Block>,
    instructions: Seq<Instruction>,
    from: int,
    at: int,
    fault: Error,
)
    requires
        0 <= from <= at,
        !faulty(program, instructions, from, fault),
    ensures
        !faulty(program, instructions, at, fault),
    decreases at - from,
{
    if from < at && from < instructions.len() {
        lemma_faulty_later(program, instructions, from + 1, at, fault);
    }
}

/// Each instruction of a block without faults is without faults.
proof fn lemma_clean_item(program: Map<Seq<char>, Block>, instructions: Seq<Instruction>, at: int)
    requires
        clean(program, instructions),
        0 <= at < instructions.len(),
    ensures
        match instructions[at] {
            Instruction::Call { name, arguments } => call_fault(program, name, arguments) is None,
            Instruction::Block(inner) => clean(program, inner.instructions),
            Instruction::Command { .. } => true,
        },
{
    lemma_faulty_later(program, instructions, 0, at, Error::UnknownProcedure);
    lemma_faulty_later(program, instructions, 0, at, Error::ArityMismatch);
}

/// The procedures of a program that nothing is wrong with are without
/// faults.
proof fn lemma_clean_procedure(program: Map<Seq<char>, Block>, name: Seq<char>)
    requires
        program_fault(program) is None,
        program.contains_key(name),
    ensures
        clean(program, program[name].instructions),
{
    if faulty(program, program[name].instructions, 0, Error::UnknownProcedure) {
        assert(some_faulty(program, Error::UnknownProcedure));
    }
    if faulty(program, program[name].instructions, 0, Error::ArityMismatch) {
        assert(some_faulty(program, Error::ArityMismatch));
    }
}

/// `stop` leaves the machine with blocks that it ran before.
proof fn lemma_unwound_blocks(frames: Seq<FrameModel>)
    ensures
        unwound(frames).len() <= frames.len(),
        forall|i: int|
            0 <= i < unwound(frames).len() ==> (#[trigger] unwound(frames)[i]).block
                == frames[i].block,
    decreases frames.len(),
{
    if frames.len() > 0 {
        match frames.last().activation {
            Activation::Conditional => {
                lemma_unwound_blocks(frames.drop_last());
            },
            _ => {},
        }
    }
}

/// A call in a sound machine keeps it sound.
proof fn lemma_call_sound(m: MachineModel, name: Seq<char>, arguments: Seq<Seq<Symbol>>)
    requires
        sound(MachineModel { awaited: Awaited::Nothing, ..m }),
        call_fault(m.program, name, arguments) is None,
    ensures
        plan_sound(call(m, name, arguments)),
{
    lemma_clean_procedure(m.program, name);
    let body = m.program[name];
    let idle = MachineModel { awaited: Awaited::Nothing, ..m };
    if arguments.len() == 0 {
        let after = entered(idle, body, Seq::empty());
        assert forall|i: int| 0 <= i < after.frames.len() implies clean(
            after.program,
            (#[trigger] after.frames[i]).block.instructions,
        ) by {
            if i < m.frames.len() {
                assert(after.frames[i] == m.frames[i]);
            }
        }
    }
}

/// Taking the values of the host keeps a sound machine sound.
proof fn lemma_take_sound(m: MachineModel, values: Seq<Number>)
    requires
        sound(m),
    ensures
        match take(m, values) {
            Taken::Continue(after) => sound(after),
            Taken::Stop(p) => plan_sound(p),
        },
{
    let idle = MachineModel { awaited: Awaited::Nothing, ..m };
    if m.awaited is Failed {
    } else if values.len() != expected(m.awaited) {
    } else {
        match m.awaited {
            Awaited::Pose => {
                let placed = Turtle {
                    x: values[0],
                    y: values[1],
                    dir_x: values[2],
                    dir_y: values[3],
                    lifted: false,
                    label_height: LABEL_HEIGHT,
                };
                let ready = MachineModel {
                    turtles: Seq::new(TURTLES as nat, |i: int| placed),
                    ..idle
                };
                assert(call_fault(m.program, main_name(), Seq::empty()) is None);
                assert(ready.frames == m.frames);
                lemma_call_sound(ready, main_name(), Seq::empty());
            },
            Awaited::Count(body) => {
                if values[0].rounded > 0 {
                    let frame = FrameModel {
                        block: body,
                        next: 0,
                        activation: Activation::Loop { count: values[0].rounded as int, pass: 0 },
                    };
                    let after = MachineModel {
                        frames: m.frames.push(frame),
                        awaited: Awaited::Counter,
                        ..m
                    };
                    assert forall|i: int| 0 <= i < after.frames.len() implies clean(
                        after.program,
                        (#[trigger] after.frames[i]).block.instructions,
                    ) by {
                        if i < m.frames.len() {
                            assert(after.frames[i] == m.frames[i]);
                        }
                    }
                }
            },
            Awaited::Condition(body) => {
                if values[0].nonzero {
                    let frame = FrameModel {
                        block: body,
                        next: 0,
                        activation: Activation::Conditional,
                    };
                    let after = MachineModel { frames: m.frames.push(frame), ..idle };
                    assert forall|i: int| 0 <= i < after.frames.len() implies clean(
                        after.program,
                        (#[trigger] after.frames[i]).block.instructions,
                    ) by {
                        if i < m.frames.len() {
                            assert(after.frames[i] == m.frames[i]);
                        }
                    }
                }
            },
            Awaited::Argument { arguments, body, values: before } => {
                let known = before.push(values[0]);
                if known.len() >= arguments.len() {
                    let after = entered(idle, body, known);
                    assert forall|i: int| 0 <= i < after.frames.len() implies clean(
                        after.program,
                        (#[trigger] after.frames[i]).block.instructions,
                    ) by {
                        if i < m.frames.len() {
                            assert(after.frames[i] == m.frames[i]);
                        }
                    }
                }
            },
            Awaited::Position => {
                let turtle = current_turtle(m);
                assert(with_turtle(idle, Turtle { x: values[0], y: values[1], ..turtle }).frames
                    == m.frames);
            },
            Awaited::Heading => {
                let turtle = current_turtle(m);
                assert(with_turtle(
                    idle,
                    Turtle { dir_x: values[0], dir_y: values[1], ..turtle },
                ).frames == m.frames);
            },
            Awaited::LabelHeight => {
                let turtle = current_turtle(m);
                assert(with_turtle(
                    idle,
                    Turtle { label_height: values[0].rounded, ..turtle },
                ).frames == m.frames);
            },
            _ => {},
        }
    }
}

/// Going on to the next instruction keeps a sound machine sound.
proof fn lemma_proceed_sound(m: MachineModel)
    requires
        sound(m),
    ensures
        plan_sound(proceed(m)),
{
    if m.frames.len() > 0 {
        let top = m.frames.last();
        assert(clean(m.program, top.block.instructions));
        if top.next < 0 || top.next >= top.block.instructions.len() {
            let rest = m.frames.drop_last();
            assert forall|i: int| 0 <= i < rest.len() implies clean(
                m.program,
                (#[trigger] rest[i]).block.instructions,
            ) by {
                assert(rest[i] == m.frames[i]);
            }
            match top.activation {
                Activation::Loop { count, pass } => {
                    if pass + 1 < count {
                        let again = rest.push(
                            FrameModel {
                                next: 0,
                                activation: Activation::Loop { count, pass: pass + 1 },
                                ..top
                            },
                        );
                        assert forall|i: int| 0 <= i < again.len() implies clean(
                            m.program,
                            (#[trigger] again[i]).block.instructions,
                        ) by {
                            if i < rest.len() {
                                assert(again[i] == rest[i]);
                            }
                        }
                    }
                },
                _ => {},
            }
        } else {
            let moved_on = m.frames.update(
                m.frames.len() - 1,
                FrameModel { next: top.next + 1, ..top },
            );
            let after = MachineModel { frames: moved_on, ..m };
            assert forall|i: int| 0 <= i < moved_on.len() implies clean(
                m.program,
                (#[trigger] moved_on[i]).block.instructions,
            ) by {
                if i < m.frames.len() - 1 {
                    assert(moved_on[i] == m.frames[i]);
                }
            }
            lemma_clean_item(m.program, top.block.instructions, top.next);
            match top.block.instructions[top.next] {
                Instruction::Command { kind, parameter } => {
                    let turtle = current_turtle(after);
                    let idle = MachineModel { awaited: Awaited::Nothing, ..after };
                    match kind {
                        CommandType::PEN_UP => {
                            assert(with_turtle(idle, Turtle { lifted: true, ..turtle }).frames
                                == moved_on);
                        },
                        CommandType::PEN_DOWN => {
                            assert(with_turtle(idle, Turtle { lifted: false, ..turtle }).frames
                                == moved_on);
                        },
                        CommandType::STOP => {
                            lemma_unwound_blocks(moved_on);
                            let left = unwound(moved_on);
                            assert forall|i: int| 0 <= i < left.len() implies clean(
                                m.program,
                                (#[trigger] left[i]).block.instructions,
                            ) by {
                                assert(left[i].block == moved_on[i].block);
                            }
                        },
                        _ => {},
                    }
                },
                Instruction::Call { name, arguments } => {
                    lemma_call_sound(after, name, arguments);
                },
                Instruction::Block(inner) => {},
            }
        }
    }
}

/// An evaluation is never refused with the error of a call.
proof fn lemma_fold_errors(
    postfix: Seq<Symbol>,
    at: int,
    variables: Map<Seq<char>, Number>,
    stack: Seq<Term>,
)
    requires
        0 <= at,
    ensures
        crate::expression::fold_postfix(postfix, at, variables, stack) matches Err(e)
            ==> !is_call_error(e),
    decreases postfix.len() - at,
{
    if at < postfix.len() {
        match postfix[at] {
            Symbol::Constant(d) => {
                lemma_fold_errors(postfix, at + 1, variables, stack.push(Term::Literal(d)));
            },
            Symbol::Variable(name) => {
                if variables.contains_key(name) {
                    lemma_fold_errors(
                        postfix,
                        at + 1,
                        variables,
                        stack.push(Term::Value(variables[name])),
                    );
                }
            },
            Symbol::Operator(op) => {
                if stack.len() >= 2 {
                    let y = stack[stack.len() - 1];
                    let x = stack[stack.len() - 2];
                    lemma_fold_errors(
                        postfix,
                        at + 1,
                        variables,
                        stack.take(stack.len() - 2).push(
                            Term::Binary(op, Box::new(x), Box::new(y)),
                        ),
                    );
                }
            },
            _ => {},
        }
    }
}

/// Asking for what a purpose needs keeps a sound machine sound.
proof fn lemma_complete_sound(m: MachineModel, purpose: Purpose, term: Term)
    requires
        sound(MachineModel { awaited: Awaited::Nothing, ..m }),
        purpose_sound(m.program, purpose),
    ensures
        complete(m, purpose, term) matches Outcome::Compute(after, _) && sound(after),
{
}

/// A program that nothing is wrong with runs without the errors of a call:
/// the machine that is made for such a program is sound, a step keeps a
/// sound machine sound, and no step of a sound machine abandons the run
/// because a procedure is missing or a number of arguments does not fit.
pub proof fn law_checked_programs_run(
    program: Map<Seq<char>, Block>,
    m: MachineModel,
    values: Seq<Number>,
    draw: int,
)
    requires
        sound(m),
    ensures
        program_fault(program) is None ==> sound(initial_machine(program)),
        match next(m, values, draw) {
            Outcome::Compute(after, _) => sound(after),
            Outcome::Finished(after) => sound(after),
            Outcome::Failed(e) => !is_call_error(e),
        },
{
    lemma_take_sound(m, values);
    match take(m, values) {
        Taken::Continue(after) => {
            lemma_proceed_sound(after);
        },
        Taken::Stop(_) => {},
    }
    match plan(m, values) {
        Plan::Evaluate(after, expression, purpose) => {
            lemma_fold_errors(expression, 0, after.variables, Seq::empty());
            match term_of(expression, after.variables, draw) {
                Ok(term) => {
                    lemma_complete_sound(after, purpose, term);
                },
                Err(_) => {},
            }
        },
        _ => {},
    }
}

} // verus!
