//! The statement parser: from the characters of a program to its procedures.
use vstd::prelude::*;
use crate::error::Error;
use crate::expression::compiled;
use crate::expression::Expression;
use crate::expression::Symbol;
use crate::names::find;
use crate::names::lemma_position_found;
use crate::names::position;
use crate::number::spec_is_digit;
use crate::number::is_digit;
use crate::number::Operator;
use crate::text::chars_of;
use crate::text::glyphs;
use crate::text::glyphs_of;
use crate::text::spells;
use crate::text::string_of;
use crate::text::texts;
use crate::text::CharClass;
use crate::text::Glyph;

verus! {

/// What a turtle can be told to do.
#[allow(non_camel_case_types)]
#[derive(Clone, Copy, Debug, PartialEq, Eq, Structural)]
pub enum CommandType {
    FORWARD,
    BACKWARD,
    TURN_RIGHT,
    TURN_LEFT,
    CLEAR_SCREEN,
    PEN_UP,
    PEN_DOWN,
    SET_COLOR,
    PICK,
    RANDOM,
    STOP,
    WAIT,
    HIDE_TURTLE,
    SHOW_TURTLE,
    LABEL,
    SET_LABEL_HEIGHT,
    SET_TURTLE,
    WINDOW,
}

/// What kind of block a [`CodeBlock`] is, with what belongs to the kind.
#[allow(non_camel_case_types)]
#[derive(Debug)]
pub enum CodeBlockType {
    PROCEDURE(Procedure),
    LOOP(Loop),
    IF(If),
}

/// One instruction of a block.
#[allow(non_camel_case_types)]
#[derive(Debug)]
pub enum ParserSymbol {
    COMMAND(Command),
    CODE_BLOCK(CodeBlock),
    PROCEDURE_CALL(ProcedureCall),
}

/// A command with its parameter, which is empty for a command that takes
/// none.
#[derive(Debug)]
pub struct Command {
    pub command_type: CommandType,
    pub call_parameter: Expression,
}

/// A call of a procedure with its arguments, in order.
#[derive(Debug)]
pub struct ProcedureCall {
    pub procedure_name: String,
    pub parameter_expressions: Vec<Expression>,
}

/// A list of instructions: the body of a procedure, of a loop or of a
/// conditional.
#[derive(Debug)]
pub struct CodeBlock {
    instructions: Vec<ParserSymbol>,
    pub code_block_type: CodeBlockType,
}

/// A procedure's parameters, in the order of their declaration.
#[derive(Debug)]
pub struct Procedure {
    pub call_parameters: Vec<String>,
}

/// A loop's count.
#[derive(Debug)]
pub struct Loop {
    pub repeats: Expression,
}

/// A conditional's condition.
#[derive(Debug)]
pub struct If {
    pub condition: Expression,
}

/// What an instruction is.
pub enum Instruction {
    Command { kind: CommandType, parameter: Seq<Symbol> },
    Call { name: Seq<char>, arguments: Seq<Seq<Symbol>> },
    Block(Block),
}

/// What a block is.
pub struct Block {
    pub kind: BlockKind,
    pub instructions: Seq<Instruction>,
}

/// What the kind of a block is.
pub enum BlockKind {
    Procedure(Seq<Seq<char>>),
    Loop(Seq<Symbol>),
    If(Seq<Symbol>),
}

/// What each expression of a sequence is.
pub open spec fn expressions(list: Seq<Expression>) -> Seq<Seq<Symbol>> {
    list.map_values(|e: Expression| e@)
}

impl View for CodeBlockType {
    type V = BlockKind;

    open spec fn view(&self) -> BlockKind {
        match self {
            CodeBlockType::PROCEDURE(p) => BlockKind::Procedure(texts(p.call_parameters@)),
            CodeBlockType::LOOP(l) => BlockKind::Loop(l.repeats@),
            CodeBlockType::IF(i) => BlockKind::If(i.condition@),
        }
    }
}

impl View for ParserSymbol {
    type V = Instruction;

    open spec fn view(&self) -> Instruction
        decreases self,
    {
        match self {
            ParserSymbol::COMMAND(c) => Instruction::Command {
                kind: c.command_type,
                parameter: c.call_parameter@,
            },
            ParserSymbol::PROCEDURE_CALL(p) => Instruction::Call {
                name: p.procedure_name@,
                arguments: expressions(p.parameter_expressions@),
            },
            ParserSymbol::CODE_BLOCK(b) => Instruction::Block(b@),
        }
    }
}

impl View for CodeBlock {
    type V = Block;

    closed spec fn view(&self) -> Block
        decreases self,
    {
        Block {
            kind: self.code_block_type@,
            instructions: Seq::new(
                self.instructions.len() as nat,
                |i: int|
                    if 0 <= i < self.instructions.len() {
                        self.instructions[i]@
                    } else {
                        Instruction::Block(
                            Block { kind: self.code_block_type@, instructions: Seq::empty() },
                        )
                    },
            ),
        }
    }
}

/// What each block of a sequence is.
pub open spec fn blocks(list: Seq<CodeBlock>) -> Seq<Block> {
    list.map_values(|b: CodeBlock| b@)
}

/// The parameters of a procedure; none for a block that is no procedure.
pub open spec fn parameters_of(block: Block) -> Seq<Seq<char>> {
    match block.kind {
        BlockKind::Procedure(parameters) => parameters,
        _ => Seq::empty(),
    }
}

/// What is wrong with a call, if anything: the program does not hold the
/// procedure, or the procedure declares another number of parameters than
/// the call has arguments.
pub open spec fn call_fault(
    program: Map<Seq<char>, Block>,
    name: Seq<char>,
    arguments: Seq<Seq<Symbol>>,
) -> Option<Error> {
    if !program.contains_key(name) {
        Some(Error::UnknownProcedure)
    } else if arguments.len() != parameters_of(program[name]).len() {
        Some(Error::ArityMismatch)
    } else {
        None
    }
}

/// Whether a call among the instructions from position `from` on, or inside
/// the blocks among them, has the given fault.
pub open spec fn faulty(
    program: Map<Seq<char>, Block>,
    instructions: Seq<Instruction>,
    from: int,
    fault: Error,
) -> bool
    decreases instructions, instructions.len() - from,
{
    if from < 0 || from >= instructions.len() {
        false
    } else {
        (match instructions[from] {
            Instruction::Call { name, arguments } => call_fault(program, name, arguments) == Some(
                fault,
            ),
            Instruction::Block(inner) => faulty(program, inner.instructions, 0, fault),
            Instruction::Command { .. } => false,
        }) || faulty(program, instructions, from + 1, fault)
    }
}

/// Whether a call somewhere in the program has the given fault.
pub open spec fn some_faulty(program: Map<Seq<char>, Block>, fault: Error) -> bool {
    exists|name: Seq<char>|
        program.contains_key(name) && #[trigger] faulty(
            program,
            program[name].instructions,
            0,
            fault,
        )
}

/// What is wrong with a program, if anything. A program must hold the
/// top-level procedure, which takes no parameters, and each of its calls
/// must name a procedure that it holds and pass as many arguments as that
/// procedure declares parameters. A procedure that is missing is reported
/// before a number of arguments that does not fit.
pub open spec fn program_fault(program: Map<Seq<char>, Block>) -> Option<Error> {
    if !program.contains_key(main_name()) || some_faulty(program, Error::UnknownProcedure) {
        Some(Error::UnknownProcedure)
    } else if parameters_of(program[main_name()]).len() != 0 || some_faulty(
        program,
        Error::ArityMismatch,
    ) {
        Some(Error::ArityMismatch)
    } else {
        None
    }
}

impl Command {
    pub fn new(command_type: CommandType, call_parameter: Expression) -> (c: Command)
        ensures
            c.command_type == command_type,
            c.call_parameter == call_parameter,
    {
        Command { command_type, call_parameter }
    }
}

impl ProcedureCall {
    pub fn new(procedure_name: String, parameter_expressions: Vec<Expression>) -> (c: ProcedureCall)
        ensures
            c.procedure_name == procedure_name,
            c.parameter_expressions == parameter_expressions,
    {
        ProcedureCall { procedure_name, parameter_expressions }
    }
}

impl Procedure {
    /// A procedure without parameters.
    pub fn new() -> (p: Procedure)
        ensures
            p.call_parameters@ == Seq::<String>::empty(),
    {
        Procedure { call_parameters: Vec::new() }
    }
}

impl Loop {
    pub fn new(repeats: Expression) -> (l: Loop)
        ensures
            l.repeats == repeats,
    {
        Loop { repeats }
    }
}

impl If {
    pub fn new(condition: Expression) -> (i: If)
        ensures
            i.condition == condition,
    {
        If { condition }
    }
}

impl CodeBlock {
    /// A block of the given kind without instructions.
    pub fn new(code_block_type: CodeBlockType) -> (b: CodeBlock)
        ensures
            b@ == (Block { kind: code_block_type@, instructions: Seq::empty() }),
    {
        let b = CodeBlock { instructions: Vec::new(), code_block_type };
        assert(b@.instructions =~= Seq::<Instruction>::empty());
        b
    }

    /// Appends an instruction.
    pub fn add_instruction(&mut self, instruction: ParserSymbol)
        ensures
            final(self)@ == (Block {
                kind: old(self)@.kind,
                instructions: old(self)@.instructions.push(instruction@),
            }),
    {
        self.instructions.push(instruction);
        assert(self@.instructions =~= old(self)@.instructions.push(instruction@));
    }

    /// The instruction that was appended last, to be changed in place.
    pub fn last_instruction(&mut self) -> (last: &mut ParserSymbol)
        requires
            old(self)@.instructions.len() > 0,
        ensures
            last@ == old(self)@.instructions.last(),
            final(self)@.kind == old(self)@.kind,
            final(self)@.instructions == old(self)@.instructions.update(
                old(self)@.instructions.len() - 1,
                final(last)@,
            ),
    {
        let n = self.instructions.len();
        &mut self.instructions[n - 1]
    }

    /// The instructions, in order.
    pub fn get_instructions(&self) -> (list: &Vec<ParserSymbol>)
        ensures
            list@.len() == self@.instructions.len(),
            forall|i: int| 0 <= i < list@.len() ==> (#[trigger] list@[i])@ == self@.instructions[i],
    {
        &self.instructions
    }

    /// The kind of the block.
    pub fn kind(&self) -> (kind: &CodeBlockType)
        ensures
            kind@ == self@.kind,
    {
        &self.code_block_type
    }

    /// The number of parameters of a procedure; zero for a block that is no
    /// procedure.
    pub fn parameter_count(&self) -> (n: usize)
        ensures
            n == parameters_of(self@).len(),
    {
        match &self.code_block_type {
            CodeBlockType::PROCEDURE(p) => p.call_parameters.len(),
            _ => 0,
        }
    }

    /// The number of instructions.
    pub fn len(&self) -> (n: usize)
        ensures
            n == self@.instructions.len(),
    {
        self.instructions.len()
    }

    /// The instruction at a position.
    pub fn instruction(&self, at: usize) -> (found: &ParserSymbol)
        requires
            at < self@.instructions.len(),
        ensures
            found@ == self@.instructions[at as int],
    {
        &self.instructions[at]
    }
}

/// The procedures of a program by their names. The statements outside any
/// procedure make up the procedure named `_`.
#[derive(Debug)]
pub struct Program {
    procedures: Vec<(String, CodeBlock)>,
}

/// The name of the procedure that holds the statements outside any
/// procedure.
pub open spec fn main_name() -> Seq<char> {
    seq!['_']
}

impl View for Program {
    type V = Map<Seq<char>, Block>;

    closed spec fn view(&self) -> Map<Seq<char>, Block> {
        Map::new(
            |name: Seq<char>| position(self.procedures@, name) is Some,
            |name: Seq<char>| self.procedures@[position(self.procedures@, name)->0].1@,
        )
    }
}

impl Program {
    /// A program without procedures.
    pub fn new() -> (p: Program)
        ensures
            p@ == Map::<Seq<char>, Block>::empty(),
    {
        let p = Program { procedures: Vec::new() };
        assert(p@ =~= Map::<Seq<char>, Block>::empty());
        p
    }

    /// Puts a procedure under a name, in place of what the name stood for
    /// before.
    pub fn insert(&mut self, name: String, block: CodeBlock)
        ensures
            final(self)@ == old(self)@.insert(name@, block@),
    {
        self.procedures.push((name, block));
        proof {
            let before = old(self).procedures@;
            let after = self.procedures@;
            assert(after.drop_last() =~= before);
            assert forall|n: Seq<char>| #[trigger]
                self@.contains_key(n) == old(self)@.insert(name@, block@).contains_key(n) by {}
            assert forall|n: Seq<char>| self@.contains_key(n) implies #[trigger] self@[n] == old(
                self,
            )@.insert(name@, block@)[n] by {
                if n != name@ {
                    lemma_position_found(before, n);
                }
            }
            assert(self@ =~= old(self)@.insert(name@, block@));
        }
    }

    /// Whether the calls in a block have faults: first whether one names a
    /// procedure that the program does not hold, then whether one passes a
    /// number of arguments that does not fit.
    fn scan(&self, block: &CodeBlock) -> (found: (bool, bool))
        ensures
            found.0 == faulty(self@, block@.instructions, 0, Error::UnknownProcedure),
            found.1 == faulty(self@, block@.instructions, 0, Error::ArityMismatch),
        decreases block,
    {
        let mut unknown = false;
        let mut misfit = false;
        let mut i: usize = block.instructions.len();
        while i > 0
            invariant
                i <= block.instructions.len(),
                unknown == faulty(self@, block@.instructions, i as int, Error::UnknownProcedure),
                misfit == faulty(self@, block@.instructions, i as int, Error::ArityMismatch),
            decreases i,
        {
            i = i - 1;
            assert(block@.instructions[i as int] == block.instructions@[i as int]@);
            match &block.instructions[i] {
                ParserSymbol::PROCEDURE_CALL(c) => {
                    match self.get(&c.procedure_name) {
                        None => {
                            unknown = true;
                        },
                        Some(body) => {
                            if c.parameter_expressions.len() != body.parameter_count() {
                                misfit = true;
                            }
                        },
                    }
                },
                ParserSymbol::CODE_BLOCK(inner) => {
                    let inside = self.scan(inner);
                    unknown = unknown || inside.0;
                    misfit = misfit || inside.1;
                },
                ParserSymbol::COMMAND(_) => {},
            }
        }
        (unknown, misfit)
    }

    /// What is wrong with the program, if anything.
    pub fn check(&self) -> (fault: Option<Error>)
        ensures
            fault == program_fault(self@),
    {
        let mut unknown = false;
        let mut misfit = false;
        let entries = &self.procedures;
        let mut i: usize = 0;
        while i < entries.len()
            invariant
                i <= entries.len(),
                entries == &self.procedures,
                unknown == exists|j: int|
                    0 <= j < i && position(entries@, entries@[j].0@) == Some(j) && #[trigger] faulty(
                        self@,
                        entries@[j].1@.instructions,
                        0,
                        Error::UnknownProcedure,
                    ),
                misfit == exists|j: int|
                    0 <= j < i && position(entries@, entries@[j].0@) == Some(j) && #[trigger] faulty(
                        self@,
                        entries@[j].1@.instructions,
                        0,
                        Error::ArityMismatch,
                    ),
            decreases entries.len() - i,
        {
            match find(entries, &entries[i].0) {
                Some(last) => {
                    if last == i {
                        let inside = self.scan(&entries[i].1);
                        unknown = unknown || inside.0;
                        misfit = misfit || inside.1;
                    }
                },
                None => {},
            }
            i = i + 1;
        }
        proof {
            let program = self@;
            let list = entries@;
            assert forall|fault: Error|
                some_faulty(program, fault) == (exists|j: int|
                    0 <= j < list.len() && position(list, list[j].0@) == Some(j) && #[trigger] faulty(
                        program,
                        list[j].1@.instructions,
                        0,
                        fault,
                    )) by {
                if some_faulty(program, fault) {
                    let name = choose|name: Seq<char>|
                        program.contains_key(name) && #[trigger] faulty(
                            program,
                            program[name].instructions,
                            0,
                            fault,
                        );
                    lemma_position_found(list, name);
                    let j = position(list, name)->0;
                    assert(position(list, list[j].0@) == Some(j) && faulty(
                        program,
                        list[j].1@.instructions,
                        0,
                        fault,
                    ));
                }
                if exists|j: int|
                    0 <= j < list.len() && position(list, list[j].0@) == Some(j) && #[trigger] faulty(
                        program,
                        list[j].1@.instructions,
                        0,
                        fault,
                    ) {
                    let j = choose|j: int|
                        0 <= j < list.len() && position(list, list[j].0@) == Some(j)
                            && #[trigger] faulty(program, list[j].1@.instructions, 0, fault);
                    let name = list[j].0@;
                    assert(program.contains_key(name) && faulty(
                        program,
                        program[name].instructions,
                        0,
                        fault,
                    ));
                }
            }
        }
        let main_procedure_name = String::from_str("_");
        proof {
            reveal_strlit("_");
            assert(main_procedure_name@ =~= main_name());
        }
        match self.get(&main_procedure_name) {
            None => Some(Error::UnknownProcedure),
            Some(main) => {
                if unknown {
                    Some(Error::UnknownProcedure)
                } else if main.parameter_count() != 0 || misfit {
                    Some(Error::ArityMismatch)
                } else {
                    None
                }
            },
        }
    }

    /// The procedure of a name, if the program holds one.
    pub fn get(&self, name: &String) -> (found: Option<&CodeBlock>)
        ensures
            match found {
                Some(block) => self@.contains_key(name@) && self@[name@] == block@,
                None => !self@.contains_key(name@),
            },
    {
        match find(&self.procedures, name) {
            Some(i) => Some(&self.procedures[i].1),
            None => None,
        }
    }
}

/// Whether an operand may begin after the tokens: at the start, after an
/// operator and after an opening bracket.
pub open spec fn operand_expected(tokens: Seq<Seq<char>>) -> bool {
    tokens.len() == 0 || (tokens.last().len() == 1 && (Operator::spec_from_char(tokens.last()[0])
        is Some || tokens.last()[0] == '('))
}

/// The tokens with the word appended, unless the word is empty.
pub open spec fn flushed(tokens: Seq<Seq<char>>, word: Seq<char>) -> Seq<Seq<char>> {
    if word.len() > 0 {
        tokens.push(word)
    } else {
        tokens
    }
}

/// Whether a digit or a decimal point follows the glyph at `pos`.
pub open spec fn number_follows(glyphs: Seq<Glyph>, pos: int) -> bool {
    pos + 1 < glyphs.len() && (spec_is_digit(glyphs[pos + 1].ch) || glyphs[pos + 1].ch == '.')
}

/// The token reader at position `pos`, where `naming` tells whether a
/// marker has announced a name, `word` is the token that is being read and
/// `tokens` are those that are complete. The result is the tokens of the
/// expression and the position of the first glyph that does not belong to it.
///
/// White space ends a token. The markers `:` and `"` announce a name and are
/// not part of it. Digits and the decimal point are taken into the token,
/// letters only in a name. A `-` begins a numeric literal where an operand
/// may begin and a digit or a decimal point follows; any other `-`, the other
/// operators and the brackets are tokens of their own, which end the token
/// before them. Any other glyph ends the expression and is left unread.
pub open spec fn scan_tokens(
    glyphs: Seq<Glyph>,
    pos: int,
    naming: bool,
    word: Seq<char>,
    tokens: Seq<Seq<char>>,
) -> (Seq<Seq<char>>, int)
    decreases glyphs.len() - pos,
{
    if pos < 0 || pos >= glyphs.len() {
        (flushed(tokens, word), pos)
    } else {
        let g = glyphs[pos];
        if g.class == CharClass::Space {
            scan_tokens(glyphs, pos + 1, false, Seq::empty(), flushed(tokens, word))
        } else if g.ch == ':' || g.ch == '"' {
            scan_tokens(glyphs, pos + 1, true, word, tokens)
        } else if spec_is_digit(g.ch) || g.ch == '.' || (g.class == CharClass::Letter && naming) {
            scan_tokens(glyphs, pos + 1, naming, word.push(g.ch), tokens)
        } else if g.ch == '-' && word.len() == 0 && operand_expected(tokens) && number_follows(
            glyphs,
            pos,
        ) {
            scan_tokens(glyphs, pos + 1, naming, word.push(g.ch), tokens)
        } else if Operator::spec_from_char(g.ch) is Some || g.ch == '(' || g.ch == ')' {
            scan_tokens(
                glyphs,
                pos + 1,
                false,
                Seq::empty(),
                flushed(tokens, word).push(seq![g.ch]),
            )
        } else {
            (flushed(tokens, word), pos)
        }
    }
}

/// The tokens of the expression that begins at `start`, and the position of
/// the first glyph after it.
pub open spec fn read_tokens(glyphs: Seq<Glyph>, start: int) -> (Seq<Seq<char>>, int) {
    scan_tokens(glyphs, start, false, Seq::empty(), Seq::empty())
}

/// The token reader never goes back, nor beyond the end of the text.
pub proof fn law_reader_advances(
    glyphs: Seq<Glyph>,
    pos: int,
    naming: bool,
    word: Seq<char>,
    tokens: Seq<Seq<char>>,
)
    requires
        0 <= pos <= glyphs.len(),
    ensures
        pos <= scan_tokens(glyphs, pos, naming, word, tokens).1 <= glyphs.len(),
    decreases glyphs.len() - pos,
{
    if pos < glyphs.len() {
        let g = glyphs[pos];
        if g.class == CharClass::Space {
            law_reader_advances(
                glyphs,
                pos + 1,
                false,
                Seq::empty(),
                flushed(tokens, word),
            );
        } else if g.ch == ':' || g.ch == '"' {
            law_reader_advances(glyphs, pos + 1, true, word, tokens);
        } else if spec_is_digit(g.ch) || g.ch == '.' || (g.class == CharClass::Letter && naming) {
            law_reader_advances(glyphs, pos + 1, naming, word.push(g.ch), tokens);
        } else if g.ch == '-' && word.len() == 0 && operand_expected(tokens) && number_follows(
            glyphs,
            pos,
        ) {
            law_reader_advances(glyphs, pos + 1, naming, word.push(g.ch), tokens);
        } else if Operator::spec_from_char(g.ch) is Some || g.ch == '(' || g.ch == ')' {
            law_reader_advances(
                glyphs,
                pos + 1,
                false,
                Seq::empty(),
                flushed(tokens, word).push(seq![g.ch]),
            );
        }
    }
}

/// Whether an operand may begin after the tokens.
fn expects_operand(tokens: &Vec<String>) -> (r: bool)
    ensures
        r == operand_expected(texts(tokens@)),
{
    let n = tokens.len();
    if n == 0 {
        return true;
    }
    let last = tokens[n - 1].as_str();
    assert(texts(tokens@).last() == last@);
    if last.unicode_len() != 1 {
        return false;
    }
    let c = last.get_char(0);
    Operator::from_char(c).is_some() || c == '('
}

/// Appends the word to the tokens, unless it is empty, and empties it.
fn flush(tokens: &mut Vec<String>, word: &mut Vec<char>)
    ensures
        texts(final(tokens)@) == flushed(texts(old(tokens)@), old(word)@),
        final(word)@ == Seq::<char>::empty(),
{
    if word.len() > 0 {
        tokens.push(string_of(word));
        word.clear();
        assert(texts(tokens@) =~= texts(old(tokens)@).push(old(word)@));
    }
    assert(word@ =~= Seq::<char>::empty());
}

/// Reads the tokens of one expression from position `pos` on, and moves
/// `pos` to the first glyph that does not belong to the expression.
pub fn read_expression(glyphs: &Vec<Glyph>, pos: &mut usize) -> (result: Vec<String>)
    ensures
        (texts(result@), *final(pos) as int) == read_tokens(glyphs@, *old(pos) as int),
        *old(pos) <= *final(pos),
        *old(pos) <= glyphs.len() ==> *final(pos) <= glyphs.len(),
{
    let mut reading_variable = false;
    let mut current_symbol: Vec<char> = Vec::new();
    let mut result: Vec<String> = Vec::new();
    let ghost start = *pos as int;
    assert(texts(result@) =~= Seq::<Seq<char>>::empty());
    while *pos < glyphs.len()
        invariant
            start == *old(pos),
            start <= *pos,
            start <= glyphs.len() ==> *pos <= glyphs.len(),
            scan_tokens(glyphs@, *pos as int, reading_variable, current_symbol@, texts(result@))
                == read_tokens(glyphs@, start),
        decreases glyphs.len() - *pos,
    {
        let next_char = glyphs[*pos];
        let ghost word = current_symbol@;
        let ghost tokens = texts(result@);
        if next_char.class == CharClass::Space {
            reading_variable = false;
            flush(&mut result, &mut current_symbol);
        } else if next_char.ch == ':' || next_char.ch == '"' {
            reading_variable = true;
        } else if is_digit(next_char.ch) || next_char.ch == '.' || (next_char.class
            == CharClass::Letter && reading_variable) {
            current_symbol.push(next_char.ch);
        } else if next_char.ch == '-' && current_symbol.len() == 0 && expects_operand(&result)
            && *pos + 1 < glyphs.len() && (is_digit(glyphs[*pos + 1].ch) || glyphs[*pos + 1].ch
            == '.') {
            current_symbol.push(next_char.ch);
        } else if Operator::from_char(next_char.ch).is_some() || next_char.ch == '('
            || next_char.ch == ')' {
            reading_variable = false;
            flush(&mut result, &mut current_symbol);
            let mut sign = String::new();
            sign.push(next_char.ch);
            let ghost shorter = texts(result@);
            result.push(sign);
            assert(texts(result@) =~= shorter.push(seq![next_char.ch]));
        } else {
            flush(&mut result, &mut current_symbol);
            return result;
        }
        *pos = *pos + 1;
    }
    flush(&mut result, &mut current_symbol);
    result
}

/// The command that a word names, among those that take no parameter.
pub open spec fn spec_plain_command(word: Seq<char>) -> Option<CommandType> {
    if word == "clearscreen"@ || word == "cs"@ {
        Some(CommandType::CLEAR_SCREEN)
    } else if word == "penup"@ || word == "pu"@ {
        Some(CommandType::PEN_UP)
    } else if word == "pendown"@ || word == "pd"@ {
        Some(CommandType::PEN_DOWN)
    } else if word == "hideturtle"@ || word == "ht"@ {
        Some(CommandType::HIDE_TURTLE)
    } else if word == "showturtle"@ || word == "st"@ {
        Some(CommandType::SHOW_TURTLE)
    } else if word == "stop"@ {
        Some(CommandType::STOP)
    } else if word == "window"@ {
        Some(CommandType::WINDOW)
    } else {
        None
    }
}

/// The command that a word names, among those that take one parameter.
pub open spec fn spec_parameter_command(word: Seq<char>) -> Option<CommandType> {
    if word == "forward"@ || word == "fd"@ {
        Some(CommandType::FORWARD)
    } else if word == "back"@ || word == "bk"@ {
        Some(CommandType::BACKWARD)
    } else if word == "right"@ || word == "rt"@ {
        Some(CommandType::TURN_RIGHT)
    } else if word == "left"@ || word == "lt"@ {
        Some(CommandType::TURN_LEFT)
    } else if word == "setcolor"@ {
        Some(CommandType::SET_COLOR)
    } else if word == "pick"@ {
        Some(CommandType::PICK)
    } else if word == "random"@ {
        Some(CommandType::RANDOM)
    } else if word == "wait"@ {
        Some(CommandType::WAIT)
    } else if word == "label"@ {
        Some(CommandType::LABEL)
    } else if word == "setlabelheight"@ {
        Some(CommandType::SET_LABEL_HEIGHT)
    } else if word == "setturtle"@ {
        Some(CommandType::SET_TURTLE)
    } else {
        None
    }
}

pub fn plain_command(word: &String) -> (kind: Option<CommandType>)
    ensures
        kind == spec_plain_command(word@),
{
    if spells(word, "clearscreen") || spells(word, "cs") {
        Some(CommandType::CLEAR_SCREEN)
    } else if spells(word, "penup") || spells(word, "pu") {
        Some(CommandType::PEN_UP)
    } else if spells(word, "pendown") || spells(word, "pd") {
        Some(CommandType::PEN_DOWN)
    } else if spells(word, "hideturtle") || spells(word, "ht") {
        Some(CommandType::HIDE_TURTLE)
    } else if spells(word, "showturtle") || spells(word, "st") {
        Some(CommandType::SHOW_TURTLE)
    } else if spells(word, "stop") {
        Some(CommandType::STOP)
    } else if spells(word, "window") {
        Some(CommandType::WINDOW)
    } else {
        None
    }
}

pub fn parameter_command(word: &String) -> (kind: Option<CommandType>)
    ensures
        kind == spec_parameter_command(word@),
{
    if spells(word, "forward") || spells(word, "fd") {
        Some(CommandType::FORWARD)
    } else if spells(word, "back") || spells(word, "bk") {
        Some(CommandType::BACKWARD)
    } else if spells(word, "right") || spells(word, "rt") {
        Some(CommandType::TURN_RIGHT)
    } else if spells(word, "left") || spells(word, "lt") {
        Some(CommandType::TURN_LEFT)
    } else if spells(word, "setcolor") {
        Some(CommandType::SET_COLOR)
    } else if spells(word, "pick") {
        Some(CommandType::PICK)
    } else if spells(word, "random") {
        Some(CommandType::RANDOM)
    } else if spells(word, "wait") {
        Some(CommandType::WAIT)
    } else if spells(word, "label") {
        Some(CommandType::LABEL)
    } else if spells(word, "setlabelheight") {
        Some(CommandType::SET_LABEL_HEIGHT)
    } else if spells(word, "setturtle") {
        Some(CommandType::SET_TURTLE)
    } else {
        None
    }
}

/// What the parser is reading.
#[derive(Clone, Copy, Debug, PartialEq, Eq, Structural)]
pub enum ParserState {
    /// The words of a body.
    ReadingSymbol,
    /// The name after `to`.
    ReadingProcedureName,
    /// The parameters after the name.
    ReadingProcedureParameters,
}

/// The parser between two glyphs.
#[verifier::ext_equal]
pub struct ParserModel {
    pub state: ParserState,
    /// The word that is being read.
    pub word: Seq<char>,
    /// The procedures that are complete.
    pub procedures: Map<Seq<char>, Block>,
    /// The number of parameters of each procedure whose header was read.
    pub headers: Map<Seq<char>, nat>,
    /// The name of the procedure that is being defined.
    pub name: Option<Seq<char>>,
    /// The blocks that are being filled, the outermost first: the top-level
    /// procedure, then the procedure that is being defined, if any, then the
    /// loops and conditionals that are open.
    pub open: Seq<Block>,
}

/// The parser before the first glyph.
pub open spec fn initial_parser() -> ParserModel {
    ParserModel {
        state: ParserState::ReadingSymbol,
        word: Seq::empty(),
        procedures: Map::empty(),
        headers: Map::empty(),
        name: None,
        open: seq![Block { kind: BlockKind::Procedure(Seq::empty()), instructions: Seq::empty() }],
    }
}

/// The open blocks with an instruction appended to the innermost.
pub open spec fn appended(open: Seq<Block>, instruction: Instruction) -> Seq<Block> {
    if open.len() == 0 {
        open
    } else {
        open.update(
            open.len() - 1,
            Block {
                kind: open.last().kind,
                instructions: open.last().instructions.push(instruction),
            },
        )
    }
}

/// The open blocks with a parameter appended to the innermost, where that is
/// a procedure.
pub open spec fn with_parameter(open: Seq<Block>, parameter: Seq<char>) -> Seq<Block> {
    if open.len() > 0 && open.last().kind is Procedure {
        open.update(
            open.len() - 1,
            Block {
                kind: BlockKind::Procedure(open.last().kind->Procedure_0.push(parameter)),
                instructions: open.last().instructions,
            },
        )
    } else {
        open
    }
}

/// The number of parameters of the innermost open block, where that is a
/// procedure.
pub open spec fn parameter_count(open: Seq<Block>) -> nat {
    if open.len() > 0 && open.last().kind is Procedure {
        open.last().kind->Procedure_0.len()
    } else {
        0
    }
}

/// The first `count` arguments of a call, read one expression after the
/// other from `pos` on, and the position after the last.
pub open spec fn read_arguments(glyphs: Seq<Glyph>, pos: int, count: nat) -> Result<
    (Seq<Seq<Symbol>>, int),
    Error,
>
    decreases count,
{
    if count == 0 {
        Ok((Seq::empty(), pos))
    } else {
        match read_arguments(glyphs, pos, (count - 1) as nat) {
            Err(e) => Err(e),
            Ok((arguments, from)) => {
                let (tokens, next) = read_tokens(glyphs, from);
                match compiled(tokens) {
                    Err(e) => Err(e),
                    Ok(e) => Ok((arguments.push(e), next)),
                }
            },
        }
    }
}

/// What the parser does with the word that the white space at `pos` ends.
/// In this order: `to` begins a header, `end` commits the procedure,
/// `repeat` and `if` read an expression and open a block, a command is
/// appended with its parameter, a call of a procedure whose header was read
/// is appended with as many arguments as the header declares, and any other
/// word is dropped. The result is the parser after the word and the
/// position of the glyph that it reads next.
pub open spec fn recognize(m: ParserModel, glyphs: Seq<Glyph>, pos: int) -> Result<
    (ParserModel, int),
    Error,
> {
    let cleared = ParserModel { word: Seq::empty(), ..m };
    if m.word == "to"@ {
        if m.name is None && m.open.len() == 1 {
            Ok((ParserModel { state: ParserState::ReadingProcedureName, ..cleared }, pos + 1))
        } else {
            Err(Error::SyntaxError)
        }
    } else if m.word == "end"@ {
        if m.name is Some && m.open.len() == 2 {
            Ok(
                (
                    ParserModel {
                        procedures: m.procedures.insert(m.name->0, m.open[1]),
                        name: None,
                        open: m.open.take(1),
                        ..cleared
                    },
                    pos + 1,
                ),
            )
        } else {
            Err(Error::SyntaxError)
        }
    } else if m.word == "repeat"@ || m.word == "if"@ {
        let (tokens, next) = read_tokens(glyphs, pos + 1);
        match compiled(tokens) {
            Err(e) => Err(e),
            Ok(e) => Ok(
                (
                    ParserModel {
                        open: m.open.push(
                            Block {
                                kind: if m.word == "repeat"@ {
                                    BlockKind::Loop(e)
                                } else {
                                    BlockKind::If(e)
                                },
                                instructions: Seq::empty(),
                            },
                        ),
                        ..cleared
                    },
                    next,
                ),
            ),
        }
    } else if spec_plain_command(m.word) is Some {
        Ok(
            (
                ParserModel {
                    open: appended(
                        m.open,
                        Instruction::Command {
                            kind: spec_plain_command(m.word)->0,
                            parameter: Seq::empty(),
                        },
                    ),
                    ..cleared
                },
                pos + 1,
            ),
        )
    } else if spec_parameter_command(m.word) is Some {
        let (tokens, next) = read_tokens(glyphs, pos + 1);
        match compiled(tokens) {
            Err(e) => Err(e),
            Ok(e) => Ok(
                (
                    ParserModel {
                        open: appended(
                            m.open,
                            Instruction::Command {
                                kind: spec_parameter_command(m.word)->0,
                                parameter: e,
                            },
                        ),
                        ..cleared
                    },
                    next,
                ),
            ),
        }
    } else if m.headers.contains_key(m.word) {
        match read_arguments(glyphs, pos + 1, m.headers[m.word]) {
            Err(e) => Err(e),
            Ok((arguments, next)) => Ok(
                (
                    ParserModel {
                        open: appended(m.open, Instruction::Call { name: m.word, arguments }),
                        ..cleared
                    },
                    next,
                ),
            ),
        }
    } else {
        Ok((cleared, pos + 1))
    }
}

/// What the parser does with the glyph at `pos` in a body: white space ends
/// a word, which is then recognized; `]` closes the innermost loop or
/// conditional, which becomes an instruction of the block around it; `[` is
/// passed over; any other glyph is taken into the word.
pub open spec fn read_symbol(m: ParserModel, glyphs: Seq<Glyph>, pos: int) -> Result<
    (ParserModel, int),
    Error,
> {
    let g = glyphs[pos];
    if g.class == CharClass::Space {
        recognize(m, glyphs, pos)
    } else if g.ch == ']' {
        if m.open.len() > (if m.name is Some {
            2int
        } else {
            1int
        }) {
            Ok(
                (
                    ParserModel {
                        open: appended(m.open.drop_last(), Instruction::Block(m.open.last())),
                        ..m
                    },
                    pos + 1,
                ),
            )
        } else {
            Err(Error::SyntaxError)
        }
    } else if g.ch == '[' {
        Ok((m, pos + 1))
    } else {
        Ok((ParserModel { word: m.word.push(g.ch), ..m }, pos + 1))
    }
}

/// What the parser does with the glyph at `pos`: the parser after it, and
/// the position of the glyph that it reads next.
///
/// After `to`, the glyphs up to the next white space are the name of the
/// procedure. After the name, each word that begins with `:` is a
/// parameter; the first glyph of any other word ends the header, whose
/// number of parameters is recorded, and is read as the first glyph of the
/// body.
pub open spec fn step(m: ParserModel, glyphs: Seq<Glyph>, pos: int) -> Result<
    (ParserModel, int),
    Error,
> {
    let g = glyphs[pos];
    let longer = ParserModel { word: m.word.push(g.ch), ..m };
    match m.state {
        ParserState::ReadingSymbol => read_symbol(m, glyphs, pos),
        ParserState::ReadingProcedureName => {
            if g.class == CharClass::Space {
                Ok(
                    (
                        ParserModel {
                            state: ParserState::ReadingProcedureParameters,
                            word: Seq::empty(),
                            name: Some(m.word),
                            open: m.open.push(
                                Block {
                                    kind: BlockKind::Procedure(Seq::empty()),
                                    instructions: Seq::empty(),
                                },
                            ),
                            ..m
                        },
                        pos + 1,
                    ),
                )
            } else {
                Ok((longer, pos + 1))
            }
        },
        ParserState::ReadingProcedureParameters => {
            if g.ch == ':' {
                Ok((longer, pos + 1))
            } else if g.class == CharClass::Space {
                if m.word.len() > 0 {
                    Ok(
                        (
                            ParserModel {
                                word: Seq::empty(),
                                open: with_parameter(m.open, m.word.skip(1)),
                                ..m
                            },
                            pos + 1,
                        ),
                    )
                } else {
                    Ok((m, pos + 1))
                }
            } else if m.word.len() > 0 {
                Ok((longer, pos + 1))
            } else {
                read_symbol(
                    ParserModel {
                        state: ParserState::ReadingSymbol,
                        headers: if m.name is Some {
                            m.headers.insert(m.name->0, parameter_count(m.open))
                        } else {
                            m.headers
                        },
                        ..m
                    },
                    glyphs,
                    pos,
                )
            }
        },
    }
}

/// The program that the parser holds at the end of the text: the complete
/// procedures and the top-level procedure under its name. A header or a
/// procedure that is not complete and a block that is still open are syntax
/// errors. A word that no white space has ended is dropped.
pub open spec fn finish(m: ParserModel) -> Result<Map<Seq<char>, Block>, Error> {
    if m.state == ParserState::ReadingSymbol && m.name is None && m.open.len() == 1 {
        Ok(m.procedures.insert(main_name(), m.open[0]))
    } else {
        Err(Error::SyntaxError)
    }
}

/// The parser run from the glyph at `pos` to the end of the text. Every
/// step goes forward (see [`law_parser_advances`]), so the run ends.
pub open spec fn parse_from(m: ParserModel, glyphs: Seq<Glyph>, pos: int) -> Result<
    Map<Seq<char>, Block>,
    Error,
>
    decreases glyphs.len() - pos,
{
    if pos < 0 || pos >= glyphs.len() {
        finish(m)
    } else {
        match step(m, glyphs, pos) {
            Err(e) => Err(e),
            Ok((after, next)) => if pos < next <= glyphs.len() {
                parse_from(after, glyphs, next)
            } else {
                Err(Error::SyntaxError)
            },
        }
    }
}

/// The program that the parser reads from a text, before its calls are
/// checked.
pub open spec fn read_program(glyphs: Seq<Glyph>) -> Result<Map<Seq<char>, Block>, Error> {
    parse_from(initial_parser(), glyphs, 0)
}

/// The program, unless something is wrong with it.
pub open spec fn checked(program: Result<Map<Seq<char>, Block>, Error>) -> Result<
    Map<Seq<char>, Block>,
    Error,
> {
    match program {
        Ok(p) => match program_fault(p) {
            None => Ok(p),
            Some(e) => Err(e),
        },
        Err(e) => Err(e),
    }
}

/// The program that a text spells: what the parser reads from it, where
/// nothing is wrong with the calls of that program.
pub open spec fn parsed(glyphs: Seq<Glyph>) -> Result<Map<Seq<char>, Block>, Error> {
    checked(read_program(glyphs))
}

/// The number of parameters that a list of headers gives for each name.
spec fn counts(entries: Seq<(String, usize)>) -> Map<Seq<char>, nat> {
    Map::new(
        |name: Seq<char>| position(entries, name) is Some,
        |name: Seq<char>| entries[position(entries, name)->0].1 as nat,
    )
}

/// What an optional string spells.
spec fn optional_text(name: Option<String>) -> Option<Seq<char>> {
    match name {
        Some(n) => Some(n@),
        None => None,
    }
}

/// The parser's state while it reads a text.
struct Parser {
    state: ParserState,
    word: Vec<char>,
    procedures: Program,
    headers: Vec<(String, usize)>,
    name: Option<String>,
    open: Vec<CodeBlock>,
}

impl View for Parser {
    type V = ParserModel;

    closed spec fn view(&self) -> ParserModel {
        ParserModel {
            state: self.state,
            word: self.word@,
            procedures: self.procedures@,
            headers: counts(self.headers@),
            name: optional_text(self.name),
            open: blocks(self.open@),
        }
    }
}

/// Reads one expression from `pos` on and compiles it.
fn read_compiled(glyphs: &Vec<Glyph>, pos: &mut usize) -> (r: Result<Expression, Error>)
    requires
        *old(pos) <= glyphs.len(),
    ensures
        *final(pos) == read_tokens(glyphs@, *old(pos) as int).1,
        *old(pos) <= *final(pos) <= glyphs.len(),
        match r {
            Ok(e) => compiled(read_tokens(glyphs@, *old(pos) as int).0) == Ok::<
                Seq<Symbol>,
                Error,
            >(e@),
            Err(e) => compiled(read_tokens(glyphs@, *old(pos) as int).0) == Err::<
                Seq<Symbol>,
                Error,
            >(e),
        },
{
    let tokens = read_expression(glyphs, pos);
    Expression::new(&tokens)
}

/// An error among the first arguments is the error of the whole.
proof fn lemma_read_arguments_error(glyphs: Seq<Glyph>, pos: int, k: nat, count: nat)
    requires
        k <= count,
        read_arguments(glyphs, pos, k) is Err,
    ensures
        read_arguments(glyphs, pos, count) == read_arguments(glyphs, pos, k),
    decreases count - k,
{
    if k < count {
        assert(read_arguments(glyphs, pos, k + 1) == read_arguments(glyphs, pos, k));
        lemma_read_arguments_error(glyphs, pos, k + 1, count);
    }
}

/// Reads the arguments of a call from `pos` on.
fn read_call_arguments(glyphs: &Vec<Glyph>, pos: &mut usize, count: usize) -> (r: Result<
    Vec<Expression>,
    Error,
>)
    requires
        *old(pos) <= glyphs.len(),
    ensures
        match read_arguments(glyphs@, *old(pos) as int, count as nat) {
            Ok((arguments, next)) => r is Ok && expressions(r->Ok_0@) == arguments && *final(pos)
                == next && *old(pos) <= next <= glyphs.len(),
            Err(e) => r == Err::<Vec<Expression>, Error>(e),
        },
{
    let mut call_parameters: Vec<Expression> = Vec::new();
    let mut k: usize = 0;
    let ghost start = *pos as int;
    assert(expressions(call_parameters@) =~= Seq::<Seq<Symbol>>::empty());
    while k < count
        invariant
            k <= count,
            start == *old(pos),
            start <= *pos <= glyphs.len(),
            read_arguments(glyphs@, start, k as nat) == Ok::<(Seq<Seq<Symbol>>, int), Error>(
                (expressions(call_parameters@), *pos as int),
            ),
        decreases count - k,
    {
        let ghost before = expressions(call_parameters@);
        match read_compiled(glyphs, pos) {
            Ok(e) => {
                call_parameters.push(e);
                assert(expressions(call_parameters@) =~= before.push(e@));
            },
            Err(e) => {
                proof {
                    assert(read_arguments(glyphs@, start, (k + 1) as nat) is Err);
                    lemma_read_arguments_error(glyphs@, start, (k + 1) as nat, count as nat);
                }
                return Err(e);
            },
        }
        k = k + 1;
    }
    Ok(call_parameters)
}

/// The word without its first character.
fn tail_of(word: &Vec<char>) -> (tail: String)
    requires
        word@.len() > 0,
    ensures
        tail@ == word@.skip(1),
{
    let mut tail = String::new();
    let mut i: usize = 1;
    assert(tail@ =~= word@.subrange(1, 1));
    while i < word.len()
        invariant
            1 <= i <= word.len(),
            tail@ == word@.subrange(1, i as int),
        decreases word.len() - i,
    {
        tail.push(word[i]);
        i = i + 1;
        assert(tail@ =~= word@.subrange(1, i as int));
    }
    assert(word@.subrange(1, i as int) =~= word@.skip(1));
    tail
}

impl Parser {
    fn new() -> (p: Parser)
        ensures
            p@ == initial_parser(),
            p.open@.len() == 1,
    {
        let mut open: Vec<CodeBlock> = Vec::new();
        open.push(CodeBlock::new(CodeBlockType::PROCEDURE(Procedure::new())));
        let p = Parser {
            state: ParserState::ReadingSymbol,
            word: Vec::new(),
            procedures: Program::new(),
            headers: Vec::new(),
            name: None,
            open,
        };
        proof {
            assert(texts(Seq::<String>::empty()) =~= Seq::<Seq<char>>::empty());
            assert(p@.open =~= initial_parser().open);
            assert(p@.headers =~= initial_parser().headers);
            assert(p@.word =~= initial_parser().word);
        }
        p
    }

    /// Appends an instruction to the innermost open block.
    fn append(&mut self, instruction: ParserSymbol)
        requires
            old(self).open@.len() >= 1,
        ensures
            final(self)@ == (ParserModel {
                open: appended(old(self)@.open, instruction@),
                ..old(self)@
            }),
            final(self).open@.len() == old(self).open@.len(),
    {
        let mut block = self.open.pop().unwrap();
        block.add_instruction(instruction);
        self.open.push(block);
        assert(self@.open =~= appended(old(self)@.open, instruction@));
    }

    /// Opens a block inside the innermost open block.
    fn descend(&mut self, block: CodeBlock)
        ensures
            final(self)@ == (ParserModel { open: old(self)@.open.push(block@), ..old(self)@ }),
            final(self).open@.len() == old(self).open@.len() + 1,
    {
        self.open.push(block);
        assert(self@.open =~= old(self)@.open.push(block@));
    }

    /// Appends a parameter to the innermost open block, where that is a
    /// procedure.
    fn add_parameter(&mut self, parameter: String)
        requires
            old(self).open@.len() >= 1,
        ensures
            final(self)@ == (ParserModel {
                open: with_parameter(old(self)@.open, parameter@),
                ..old(self)@
            }),
            final(self).open@.len() == old(self).open@.len(),
    {
        let block = self.open.pop().unwrap();
        let ghost before = block@;
        let CodeBlock { instructions, code_block_type } = block;
        let kind = match code_block_type {
            CodeBlockType::PROCEDURE(p) => {
                let ghost shorter = texts(p.call_parameters@);
                let mut call_parameters = p.call_parameters;
                call_parameters.push(parameter);
                assert(texts(call_parameters@) =~= shorter.push(parameter@));
                CodeBlockType::PROCEDURE(Procedure { call_parameters })
            },
            other => other,
        };
        let changed = CodeBlock { instructions, code_block_type: kind };
        assert(changed@.instructions =~= before.instructions);
        self.open.push(changed);
        assert(self@.open =~= with_parameter(old(self)@.open, parameter@));
    }

    /// Empties the word.
    fn clear_word(&mut self)
        ensures
            final(self)@ == (ParserModel { word: Seq::empty(), ..old(self)@ }),
            final(self).open@.len() == old(self).open@.len(),
    {
        self.word.clear();
        assert(self@.word =~= Seq::<char>::empty());
    }

    /// Takes a glyph into the word.
    fn push_char(&mut self, ch: char)
        ensures
            final(self)@ == (ParserModel { word: old(self)@.word.push(ch), ..old(self)@ }),
            final(self).open@.len() == old(self).open@.len(),
    {
        self.word.push(ch);
    }

    /// Commits the procedure that is being defined.
    fn commit(&mut self)
        requires
            old(self).name is Some,
            old(self).open@.len() == 2,
        ensures
            final(self)@ == (ParserModel {
                procedures: old(self)@.procedures.insert(old(self)@.name->0, old(self)@.open[1]),
                name: None,
                open: old(self)@.open.take(1),
                ..old(self)@
            }),
            final(self).open@.len() == 1,
    {
        let block = self.open.pop().unwrap();
        let mut name: Option<String> = None;
        core::mem::swap(&mut self.name, &mut name);
        match name {
            Some(n) => {
                self.procedures.insert(n, block);
            },
            None => {},
        }
        assert(self@.open =~= old(self)@.open.take(1));
    }

    /// Records the number of parameters of the procedure that is being
    /// defined.
    fn record_header(&mut self)
        ensures
            final(self)@ == (ParserModel {
                headers: if old(self)@.name is Some {
                    old(self)@.headers.insert(old(self)@.name->0, parameter_count(old(self)@.open))
                } else {
                    old(self)@.headers
                },
                ..old(self)@
            }),
            final(self).open@.len() == old(self).open@.len(),
    {
        let n = self.open.len();
        let count = if n > 0 {
            match &self.open[n - 1].code_block_type {
                CodeBlockType::PROCEDURE(p) => p.call_parameters.len(),
                _ => 0,
            }
        } else {
            0
        };
        assert(count == parameter_count(self@.open));
        match &self.name {
            Some(name) => {
                let ghost before = self.headers@;
                self.headers.push((name.clone(), count));
                proof {
                    let after = self.headers@;
                    assert(after.drop_last() =~= before);
                    let target = counts(before).insert(name@, count as nat);
                    assert forall|k: Seq<char>| #[trigger]
                        counts(after).contains_key(k) == target.contains_key(k) by {}
                    assert forall|k: Seq<char>| counts(after).contains_key(k) implies #[trigger] counts(
                        after,
                    )[k] == target[k] by {
                        if k != name@ {
                            lemma_position_found(before, k);
                        }
                    }
                    assert(counts(after) =~= target);
                }
            },
            None => {},
        }
    }

    /// Recognizes the word that the white space at `pos` ends.
    fn recognize(&mut self, glyphs: &Vec<Glyph>, pos: usize) -> (r: Result<usize, Error>)
        requires
            pos < glyphs.len(),
            old(self).open@.len() >= 1,
        ensures
            match recognize(old(self)@, glyphs@, pos as int) {
                Ok((m, next)) => r == Ok::<usize, Error>(next as usize) && final(self)@ == m && pos
                    < next <= glyphs.len() && final(self).open@.len() >= 1,
                Err(e) => r == Err::<usize, Error>(e),
            },
    {
        let word = string_of(&self.word);
        let mut next: usize = pos + 1;
        self.clear_word();
        if spells(&word, "to") {
            if self.name.is_none() && self.open.len() == 1 {
                self.state = ParserState::ReadingProcedureName;
                Ok(next)
            } else {
                Err(Error::SyntaxError)
            }
        } else if spells(&word, "end") {
            if self.name.is_some() && self.open.len() == 2 {
                self.commit();
                Ok(next)
            } else {
                Err(Error::SyntaxError)
            }
        } else if spells(&word, "repeat") {
            match read_compiled(glyphs, &mut next) {
                Ok(e) => {
                    self.descend(CodeBlock::new(CodeBlockType::LOOP(Loop::new(e))));
                    Ok(next)
                },
                Err(e) => Err(e),
            }
        } else if spells(&word, "if") {
            match read_compiled(glyphs, &mut next) {
                Ok(e) => {
                    self.descend(CodeBlock::new(CodeBlockType::IF(If::new(e))));
                    Ok(next)
                },
                Err(e) => Err(e),
            }
        } else if let Some(kind) = plain_command(&word) {
            self.append(ParserSymbol::COMMAND(Command::new(kind, Expression::empty())));
            Ok(next)
        } else if let Some(kind) = parameter_command(&word) {
            match read_compiled(glyphs, &mut next) {
                Ok(e) => {
                    self.append(ParserSymbol::COMMAND(Command::new(kind, e)));
                    Ok(next)
                },
                Err(e) => Err(e),
            }
        } else if let Some(i) = find(&self.headers, &word) {
            let count = self.headers[i].1;
            match read_call_arguments(glyphs, &mut next, count) {
                Ok(arguments) => {
                    self.append(ParserSymbol::PROCEDURE_CALL(ProcedureCall::new(word, arguments)));
                    Ok(next)
                },
                Err(e) => Err(e),
            }
        } else {
            Ok(next)
        }
    }

    /// Reads the glyph at `pos` in a body.
    fn read_symbol(&mut self, glyphs: &Vec<Glyph>, pos: usize) -> (r: Result<usize, Error>)
        requires
            pos < glyphs.len(),
            old(self).open@.len() >= 1,
        ensures
            match read_symbol(old(self)@, glyphs@, pos as int) {
                Ok((m, next)) => r == Ok::<usize, Error>(next as usize) && final(self)@ == m && pos
                    < next <= glyphs.len() && final(self).open@.len() >= 1,
                Err(e) => r == Err::<usize, Error>(e),
            },
    {
        let g = glyphs[pos];
        if g.class == CharClass::Space {
            self.recognize(glyphs, pos)
        } else if g.ch == ']' {
            let base: usize = if self.name.is_some() {
                2
            } else {
                1
            };
            if self.open.len() > base {
                let inner = self.open.pop().unwrap();
                assert(self@.open =~= old(self)@.open.drop_last());
                self.append(ParserSymbol::CODE_BLOCK(inner));
                Ok(pos + 1)
            } else {
                Err(Error::SyntaxError)
            }
        } else if g.ch == '[' {
            Ok(pos + 1)
        } else {
            self.push_char(g.ch);
            Ok(pos + 1)
        }
    }

    /// Reads the glyph at `pos`.
    fn step(&mut self, glyphs: &Vec<Glyph>, pos: usize) -> (r: Result<usize, Error>)
        requires
            pos < glyphs.len(),
            old(self).open@.len() >= 1,
        ensures
            match step(old(self)@, glyphs@, pos as int) {
                Ok((m, next)) => r == Ok::<usize, Error>(next as usize) && final(self)@ == m && pos
                    < next <= glyphs.len() && final(self).open@.len() >= 1,
                Err(e) => r == Err::<usize, Error>(e),
            },
    {
        let g = glyphs[pos];
        match self.state {
            ParserState::ReadingSymbol => self.read_symbol(glyphs, pos),
            ParserState::ReadingProcedureName => {
                if g.class == CharClass::Space {
                    let name = string_of(&self.word);
                    self.clear_word();
                    self.name = Some(name);
                    self.state = ParserState::ReadingProcedureParameters;
                    self.descend(CodeBlock::new(CodeBlockType::PROCEDURE(Procedure::new())));
                    proof {
                        assert(texts(Seq::<String>::empty()) =~= Seq::<Seq<char>>::empty());
                    }
                    Ok(pos + 1)
                } else {
                    self.push_char(g.ch);
                    Ok(pos + 1)
                }
            },
            ParserState::ReadingProcedureParameters => {
                if g.ch == ':' {
                    self.push_char(g.ch);
                    Ok(pos + 1)
                } else if g.class == CharClass::Space {
                    if self.word.len() > 0 {
                        let parameter = tail_of(&self.word);
                        self.clear_word();
                        self.add_parameter(parameter);
                    }
                    Ok(pos + 1)
                } else if self.word.len() > 0 {
                    self.push_char(g.ch);
                    Ok(pos + 1)
                } else {
                    self.record_header();
                    self.state = ParserState::ReadingSymbol;
                    self.read_symbol(glyphs, pos)
                }
            },
        }
    }

    /// The program at the end of the text.
    fn finish(self) -> (r: Result<Program, Error>)
        requires
            self.open@.len() >= 1,
        ensures
            match r {
                Ok(p) => finish(self@) == Ok::<Map<Seq<char>, Block>, Error>(p@),
                Err(e) => finish(self@) == Err::<Map<Seq<char>, Block>, Error>(e),
            },
    {
        let Parser { state, word, procedures, headers, name, open } = self;
        let mut procedures = procedures;
        let mut open = open;
        match state {
            ParserState::ReadingSymbol => {},
            _ => {
                return Err(Error::SyntaxError);
            },
        }
        if name.is_some() || open.len() != 1 {
            return Err(Error::SyntaxError);
        }
        let main = open.pop().unwrap();
        let main_procedure_name = String::from_str("_");
        proof {
            reveal_strlit("_");
            assert(main_procedure_name@ =~= main_name());
        }
        procedures.insert(main_procedure_name, main);
        Ok(procedures)
    }
}

/// Parses a program from its glyphs.
pub fn parse_glyphs(glyphs: &Vec<Glyph>) -> (r: Result<Program, Error>)
    ensures
        match r {
            Ok(p) => parsed(glyphs@) == Ok::<Map<Seq<char>, Block>, Error>(p@),
            Err(e) => parsed(glyphs@) == Err::<Map<Seq<char>, Block>, Error>(e),
        },
{
    let mut parser = Parser::new();
    let mut pos: usize = 0;
    while pos < glyphs.len()
        invariant
            pos <= glyphs.len(),
            parser.open@.len() >= 1,
            parse_from(parser@, glyphs@, pos as int) == read_program(glyphs@),
        decreases glyphs.len() - pos,
    {
        match parser.step(glyphs, pos) {
            Ok(next) => {
                pos = next;
            },
            Err(e) => {
                return Err(e);
            },
        }
    }
    match parser.finish() {
        Ok(program) => match program.check() {
            None => Ok(program),
            Some(e) => Err(e),
        },
        Err(e) => Err(e),
    }
}

/// Parses a program text.
pub fn parse_logo_code(code: &str) -> (r: Result<Program, Error>)
    ensures
        match r {
            Ok(p) => parsed(glyphs_of(code@)) == Ok::<Map<Seq<char>, Block>, Error>(p@),
            Err(e) => parsed(glyphs_of(code@)) == Err::<Map<Seq<char>, Block>, Error>(e),
        },
{
    let chars = chars_of(code);
    let text = glyphs(&chars);
    parse_glyphs(&text)
}

/// The arguments of a call are read forward, within the text.
proof fn lemma_read_arguments_advances(glyphs: Seq<Glyph>, pos: int, count: nat)
    requires
        0 <= pos <= glyphs.len(),
    ensures
        read_arguments(glyphs, pos, count) matches Ok((_, next)) ==> pos <= next <= glyphs.len(),
    decreases count,
{
    if count > 0 {
        lemma_read_arguments_advances(glyphs, pos, (count - 1) as nat);
        match read_arguments(glyphs, pos, (count - 1) as nat) {
            Ok((_, from)) => {
                law_reader_advances(glyphs, from, false, Seq::empty(), Seq::empty());
            },
            Err(_) => {},
        }
    }
}

/// The parser reads forward: each step ends after the glyph that it began
/// with, and within the text. So the parser reads every text to its end.
pub proof fn law_parser_advances(m: ParserModel, glyphs: Seq<Glyph>, pos: int)
    requires
        0 <= pos < glyphs.len(),
    ensures
        step(m, glyphs, pos) matches Ok((_, next)) ==> pos < next <= glyphs.len(),
{
    law_reader_advances(glyphs, pos + 1, false, Seq::empty(), Seq::empty());
    let switched = ParserModel {
        state: ParserState::ReadingSymbol,
        headers: if m.name is Some {
            m.headers.insert(m.name->0, parameter_count(m.open))
        } else {
            m.headers
        },
        ..m
    };
    if m.headers.contains_key(m.word) {
        lemma_read_arguments_advances(glyphs, pos + 1, m.headers[m.word]);
    }
    if switched.headers.contains_key(switched.word) {
        lemma_read_arguments_advances(glyphs, pos + 1, switched.headers[switched.word]);
    }
}

} // verus!
