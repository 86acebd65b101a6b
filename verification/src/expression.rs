//! Arithmetic expressions: from the tokens of an infix expression to a
//! postfix sequence, and from a postfix sequence and the values of its
//! variables to the computation that gives its value.
use vstd::prelude::*;
use crate::environment::Environment;
use crate::error::Error;
use crate::number::decimal_of;
use crate::number::is_digit;
use crate::number::spec_is_digit;
use crate::number::Decimal;
use crate::number::Number;
use crate::number::Operator;
use crate::number::Term;
use crate::text::chars_of;
use crate::text::spells;
use crate::text::texts;

verus! {

/// The built-in functions. An expression that begins with one of them is
/// kept in the order in which it was written.
#[derive(Clone, Copy, Debug, PartialEq, Eq, Structural)]
pub enum Function {
    /// Picks one of the names that follow it.
    Pick,
    /// Draws a whole number below the literal that follows it.
    Random,
}

/// One symbol of an expression.
#[derive(Debug, PartialEq, Eq)]
pub enum ExpressionSymbol {
    Variable(String),
    Constant(Decimal),
    Operator(Operator),
    BracketOpening,
    BracketClosing,
    FunctionCommand(Function),
}

/// What an [`ExpressionSymbol`] stands for.
pub enum Symbol {
    Variable(Seq<char>),
    Constant(Decimal),
    Operator(Operator),
    BracketOpening,
    BracketClosing,
    FunctionCommand(Function),
}

impl View for ExpressionSymbol {
    type V = Symbol;

    open spec fn view(&self) -> Symbol {
        match self {
            ExpressionSymbol::Variable(name) => Symbol::Variable(name@),
            ExpressionSymbol::Constant(d) => Symbol::Constant(*d),
            ExpressionSymbol::Operator(op) => Symbol::Operator(*op),
            ExpressionSymbol::BracketOpening => Symbol::BracketOpening,
            ExpressionSymbol::BracketClosing => Symbol::BracketClosing,
            ExpressionSymbol::FunctionCommand(f) => Symbol::FunctionCommand(*f),
        }
    }
}

impl Clone for ExpressionSymbol {
    fn clone(&self) -> (copy: ExpressionSymbol)
        ensures
            copy@ == self@,
    {
        match self {
            ExpressionSymbol::Variable(name) => ExpressionSymbol::Variable(name.clone()),
            ExpressionSymbol::Constant(d) => ExpressionSymbol::Constant(*d),
            ExpressionSymbol::Operator(op) => ExpressionSymbol::Operator(*op),
            ExpressionSymbol::BracketOpening => ExpressionSymbol::BracketOpening,
            ExpressionSymbol::BracketClosing => ExpressionSymbol::BracketClosing,
            ExpressionSymbol::FunctionCommand(f) => ExpressionSymbol::FunctionCommand(*f),
        }
    }
}

/// What each symbol of a sequence stands for.
pub open spec fn symbols(list: Seq<ExpressionSymbol>) -> Seq<Symbol> {
    list.map_values(|s: ExpressionSymbol| s@)
}

/// Whether every character of the token is a digit, a decimal point or a
/// minus sign: such a token is taken for a numeric literal.
pub open spec fn numeric_shape(token: Seq<char>) -> bool {
    forall|i: int|
        0 <= i < token.len() ==> spec_is_digit(#[trigger] token[i]) || token[i] == '.' || token[i]
            == '-'
}

/// The symbol that a token spells: an operator, a bracket, a numeric
/// literal, the name of a built-in function, and a variable otherwise. A
/// token in the shape of a numeric literal that spells no number is a syntax
/// error.
pub open spec fn symbol_of(token: Seq<char>) -> Result<Symbol, Error> {
    if token.len() == 1 && Operator::spec_from_char(token[0]) is Some {
        Ok(Symbol::Operator(Operator::spec_from_char(token[0])->0))
    } else if token.len() == 1 && token[0] == '(' {
        Ok(Symbol::BracketOpening)
    } else if token.len() == 1 && token[0] == ')' {
        Ok(Symbol::BracketClosing)
    } else if numeric_shape(token) {
        match decimal_of(token) {
            Some(d) => Ok(Symbol::Constant(d)),
            None => Err(Error::SyntaxError),
        }
    } else if token == "pick"@ {
        Ok(Symbol::FunctionCommand(Function::Pick))
    } else if token == "random"@ {
        Ok(Symbol::FunctionCommand(Function::Random))
    } else {
        Ok(Symbol::Variable(token))
    }
}

/// The symbols that the tokens spell, in order, or the error of the first
/// token that spells none.
pub open spec fn symbols_of(tokens: Seq<Seq<char>>) -> Result<Seq<Symbol>, Error>
    decreases tokens.len(),
{
    if tokens.len() == 0 {
        Ok(Seq::empty())
    } else {
        match symbols_of(tokens.drop_last()) {
            Err(e) => Err(e),
            Ok(front) => match symbol_of(tokens.last()) {
                Err(e) => Err(e),
                Ok(s) => Ok(front.push(s)),
            },
        }
    }
}

/// The operator stack of the conversion holds operators and opening
/// brackets; `None` stands for a bracket.
pub type Stacked = Option<Operator>;

/// A closing bracket moves the operators above the nearest opening bracket
/// to the output and drops that bracket. `None` where the stack holds no
/// opening bracket.
pub open spec fn close_bracket(stack: Seq<Stacked>, output: Seq<Symbol>) -> Option<
    (Seq<Stacked>, Seq<Symbol>),
>
    decreases stack.len(),
{
    if stack.len() == 0 {
        None
    } else {
        match stack.last() {
            None => Some((stack.drop_last(), output)),
            Some(op) => close_bracket(stack.drop_last(), output.push(Symbol::Operator(op))),
        }
    }
}

/// Before an operator is pushed, the operators on top of the stack that bind
/// at least as tightly move to the output: operators of one precedence are
/// applied from left to right.
pub open spec fn make_way(op: Operator, stack: Seq<Stacked>, output: Seq<Symbol>) -> (
    Seq<Stacked>,
    Seq<Symbol>,
)
    decreases stack.len(),
{
    if stack.len() > 0 && stack.last() is Some && op.spec_precedence()
        <= stack.last()->0.spec_precedence() {
        make_way(op, stack.drop_last(), output.push(Symbol::Operator(stack.last()->0)))
    } else {
        (stack, output)
    }
}

/// At the end the stack is emptied onto the output, top first. An opening
/// bracket that is still there was never closed.
pub open spec fn drain(stack: Seq<Stacked>, output: Seq<Symbol>) -> Result<Seq<Symbol>, Error>
    decreases stack.len(),
{
    if stack.len() == 0 {
        Ok(output)
    } else {
        match stack.last() {
            None => Err(Error::SyntaxError),
            Some(op) => drain(stack.drop_last(), output.push(Symbol::Operator(op))),
        }
    }
}

/// The conversion of an infix sequence to postfix, from position `at` on,
/// with the operator stack and the output as they stand.
pub open spec fn shunt(infix: Seq<Symbol>, at: int, stack: Seq<Stacked>, output: Seq<Symbol>)
    -> Result<Seq<Symbol>, Error>
    decreases infix.len() - at,
{
    if at < 0 || at >= infix.len() {
        drain(stack, output)
    } else {
        match infix[at] {
            Symbol::Variable(_) | Symbol::Constant(_) => shunt(
                infix,
                at + 1,
                stack,
                output.push(infix[at]),
            ),
            Symbol::BracketOpening => shunt(infix, at + 1, stack.push(None), output),
            Symbol::BracketClosing => match close_bracket(stack, output) {
                Some((rest, longer)) => shunt(infix, at + 1, rest, longer),
                None => Err(Error::SyntaxError),
            },
            Symbol::Operator(op) => {
                let (rest, longer) = make_way(op, stack, output);
                shunt(infix, at + 1, rest.push(Some(op)), longer)
            },
            Symbol::FunctionCommand(_) => Err(Error::SyntaxError),
        }
    }
}

/// The postfix form of an infix sequence of symbols. Brackets that do not
/// match and a function name that does not stand first are syntax errors.
pub open spec fn postfix_of(infix: Seq<Symbol>) -> Result<Seq<Symbol>, Error> {
    shunt(infix, 0, Seq::empty(), Seq::empty())
}

/// What the tokens of an expression compile to: nothing for no tokens, the
/// symbols as written where the first names a built-in function, and the
/// postfix form of the symbols otherwise.
pub open spec fn compiled(tokens: Seq<Seq<char>>) -> Result<Seq<Symbol>, Error> {
    match symbols_of(tokens) {
        Err(e) => Err(e),
        Ok(list) => if list.len() > 0 && list[0] is FunctionCommand {
            Ok(list)
        } else {
            postfix_of(list)
        },
    }
}

/// The evaluation of a postfix sequence from position `at` on, with the
/// operand stack as it stands. A literal and the value of a variable are
/// pushed; an operator takes the two topmost operands, the left one pushed
/// first, and pushes the term that applies it to them. The result is the one
/// term that is left at the end.
pub open spec fn fold_postfix(
    postfix: Seq<Symbol>,
    at: int,
    variables: Map<Seq<char>, Number>,
    stack: Seq<Term>,
) -> Result<Term, Error>
    decreases postfix.len() - at,
{
    if at < 0 || at >= postfix.len() {
        if stack.len() == 1 {
            Ok(stack[0])
        } else {
            Err(Error::MalformedExpression)
        }
    } else {
        match postfix[at] {
            Symbol::Constant(d) => fold_postfix(
                postfix,
                at + 1,
                variables,
                stack.push(Term::Literal(d)),
            ),
            Symbol::Variable(name) => if variables.contains_key(name) {
                fold_postfix(postfix, at + 1, variables, stack.push(Term::Value(variables[name])))
            } else {
                Err(Error::UndefinedVariable)
            },
            Symbol::Operator(op) => if stack.len() < 2 {
                Err(Error::MalformedExpression)
            } else {
                let y = stack[stack.len() - 1];
                let x = stack[stack.len() - 2];
                fold_postfix(
                    postfix,
                    at + 1,
                    variables,
                    stack.take(stack.len() - 2).push(
                        Term::Binary(op, Box::new(x), Box::new(y)),
                    ),
                )
            },
            _ => Err(Error::MalformedExpression),
        }
    }
}

/// Whether the expression is a call of `random`.
pub open spec fn is_random(expression: Seq<Symbol>) -> bool {
    expression.len() > 0 && expression[0] == Symbol::FunctionCommand(Function::Random)
}

/// The bound of a call of `random`: the whole part of the one literal that
/// follows the name, at most the largest `i32`. Zero where the expression
/// is no such call or the literal is negative.
pub open spec fn random_bound(expression: Seq<Symbol>) -> int {
    if is_random(expression) && expression.len() == 2 && expression[1] is Constant
        && !expression[1]->Constant_0.negative {
        let whole = expression[1]->Constant_0.spec_whole();
        if whole <= i32::MAX {
            whole as int
        } else {
            i32::MAX as int
        }
    } else {
        0
    }
}

/// The computation that gives the value of a compiled expression. `draw` is
/// the number drawn for a call of `random`, which needs a bound above zero.
/// A call of `pick` has no numeric value.
pub open spec fn term_of(expression: Seq<Symbol>, variables: Map<Seq<char>, Number>, draw: int)
    -> Result<Term, Error> {
    if expression.len() > 0 && expression[0] is FunctionCommand {
        if random_bound(expression) > 0 {
            Ok(Term::Integer(draw as i32))
        } else {
            Err(Error::MalformedExpression)
        }
    } else {
        fold_postfix(expression, 0, variables, Seq::empty())
    }
}

/// Whether the expression is a call of `pick` with at least one name to pick
/// from.
pub open spec fn is_pick(expression: Seq<Symbol>) -> bool {
    expression.len() >= 2 && expression[0] == Symbol::FunctionCommand(Function::Pick)
}

/// The name that a call of `pick` gives when `index` was drawn: that of the
/// symbol at position `index + 1`, which must be a name.
pub open spec fn picked(expression: Seq<Symbol>, index: int) -> Result<Seq<char>, Error> {
    if is_pick(expression) && 0 <= index < expression.len() - 1 && expression[index + 1]
        is Variable {
        Ok(expression[index + 1]->Variable_0)
    } else {
        Err(Error::MalformedExpression)
    }
}

/// What a result that holds a string spells.
pub open spec fn spelled(r: Result<String, Error>) -> Result<Seq<char>, Error> {
    match r {
        Ok(name) => Ok(name@),
        Err(e) => Err(e),
    }
}

/// `Rng::gen_range` of the crate rand, on the generator that
/// `rand::thread_rng` hands out, for the range from zero up to `bound`: some
/// number of that range. Which one is left open: two calls may differ.
/// `gen_range` panics on an empty range, hence the `requires`.
#[verifier::external_body]
fn draw_below(bound: u64) -> (drawn: u64)
    requires
        bound > 0,
    ensures
        drawn < bound,
{
    rand::Rng::gen_range(&mut rand::thread_rng(), 0..bound)
}

/// A compiled expression: a postfix sequence of symbols, or a call of a
/// built-in function as it was written.
#[derive(Debug, PartialEq, Eq)]
pub struct Expression {
    postfix_symbol_list: Vec<ExpressionSymbol>,
}

impl View for Expression {
    type V = Seq<Symbol>;

    closed spec fn view(&self) -> Seq<Symbol> {
        symbols(self.postfix_symbol_list@)
    }
}

impl Clone for Expression {
    fn clone(&self) -> (copy: Expression)
        ensures
            copy@ == self@,
    {
        let mut list: Vec<ExpressionSymbol> = Vec::new();
        let mut i: usize = 0;
        assert(symbols(list@) =~= symbols(self.postfix_symbol_list@.take(0)));
        while i < self.postfix_symbol_list.len()
            invariant
                i <= self.postfix_symbol_list.len(),
                list@.len() == i,
                symbols(list@) == symbols(self.postfix_symbol_list@.take(i as int)),
            decreases self.postfix_symbol_list.len() - i,
        {
            let ghost before = symbols(list@);
            list.push(self.postfix_symbol_list[i].clone());
            i = i + 1;
            assert(symbols(list@) =~= before.push(self.postfix_symbol_list@[i - 1]@));
            assert(symbols(self.postfix_symbol_list@.take(i as int)) =~= before.push(
                self.postfix_symbol_list@[i - 1]@,
            ));
        }
        assert(self.postfix_symbol_list@.take(i as int) =~= self.postfix_symbol_list@);
        Expression { postfix_symbol_list: list }
    }
}

/// Whether the token has the shape of a numeric literal.
fn has_numeric_shape(token: &Vec<char>) -> (r: bool)
    ensures
        r == numeric_shape(token@),
{
    let mut i: usize = 0;
    while i < token.len()
        invariant
            i <= token.len(),
            forall|k: int|
                0 <= k < i ==> spec_is_digit(#[trigger] token@[k]) || token@[k] == '.' || token@[k]
                    == '-',
        decreases token.len() - i,
    {
        let c = token[i];
        if !(is_digit(c) || c == '.' || c == '-') {
            return false;
        }
        i = i + 1;
    }
    true
}

/// The symbol that one token spells.
fn symbol_from(token: &String) -> (r: Result<ExpressionSymbol, Error>)
    ensures
        match r {
            Ok(s) => symbol_of(token@) == Ok::<Symbol, Error>(s@),
            Err(e) => symbol_of(token@) == Err::<Symbol, Error>(e),
        },
{
    let chars = chars_of(token.as_str());
    if chars.len() == 1 {
        let c = chars[0];
        match Operator::from_char(c) {
            Some(op) => {
                return Ok(ExpressionSymbol::Operator(op));
            },
            None => {},
        }
        if c == '(' {
            return Ok(ExpressionSymbol::BracketOpening);
        }
        if c == ')' {
            return Ok(ExpressionSymbol::BracketClosing);
        }
    }
    if has_numeric_shape(&chars) {
        match Decimal::parse(&chars) {
            Some(d) => Ok(ExpressionSymbol::Constant(d)),
            None => Err(Error::SyntaxError),
        }
    } else if spells(token, "pick") {
        Ok(ExpressionSymbol::FunctionCommand(Function::Pick))
    } else if spells(token, "random") {
        Ok(ExpressionSymbol::FunctionCommand(Function::Random))
    } else {
        Ok(ExpressionSymbol::Variable(token.clone()))
    }
}

impl Expression {
    /// Compiles the tokens of an expression.
    pub fn new(expression_str: &Vec<String>) -> (r: Result<Expression, Error>)
        ensures
            match r {
                Ok(e) => compiled(texts(expression_str@)) == Ok::<Seq<Symbol>, Error>(e@),
                Err(e) => compiled(texts(expression_str@)) == Err::<Seq<Symbol>, Error>(e),
            },
    {
        let infix = match Expression::create_list_of_expression_symbols(expression_str) {
            Ok(list) => list,
            Err(e) => {
                return Err(e);
            },
        };
        let is_function_command = infix.len() > 0 && match &infix[0] {
            ExpressionSymbol::FunctionCommand(_) => true,
            _ => false,
        };
        if is_function_command {
            Ok(Expression { postfix_symbol_list: infix })
        } else {
            match Expression::infix_to_postfix(&infix) {
                Ok(postfix) => Ok(Expression { postfix_symbol_list: postfix }),
                Err(e) => Err(e),
            }
        }
    }

    /// An expression of no symbols: the parameter of a command that takes
    /// none.
    pub fn empty() -> (e: Expression)
        ensures
            e@ == Seq::<Symbol>::empty(),
    {
        let e = Expression { postfix_symbol_list: Vec::new() };
        assert(e@ =~= Seq::<Symbol>::empty());
        e
    }

    /// The symbols that the tokens spell.
    fn create_list_of_expression_symbols(expression_str: &Vec<String>) -> (r: Result<
        Vec<ExpressionSymbol>,
        Error,
    >)
        ensures
            match r {
                Ok(list) => symbols_of(texts(expression_str@)) == Ok::<Seq<Symbol>, Error>(
                    symbols(list@),
                ),
                Err(e) => symbols_of(texts(expression_str@)) == Err::<Seq<Symbol>, Error>(e),
            },
    {
        let mut result: Vec<ExpressionSymbol> = Vec::new();
        let mut i: usize = 0;
        let ghost tokens = texts(expression_str@);
        assert(tokens.take(0) =~= Seq::<Seq<char>>::empty());
        assert(symbols(result@) =~= Seq::<Symbol>::empty());
        while i < expression_str.len()
            invariant
                i <= expression_str.len(),
                tokens == texts(expression_str@),
                symbols_of(tokens.take(i as int)) == Ok::<Seq<Symbol>, Error>(symbols(result@)),
            decreases expression_str.len() - i,
        {
            proof {
                assert(tokens.take(i + 1).drop_last() =~= tokens.take(i as int));
                assert(tokens.take(i + 1).last() == expression_str@[i as int]@);
            }
            match symbol_from(&expression_str[i]) {
                Ok(s) => {
                    let ghost before = symbols(result@);
                    result.push(s);
                    assert(symbols(result@) =~= before.push(s@));
                },
                Err(e) => {
                    proof {
                        lemma_symbols_of_error(tokens, i + 1);
                    }
                    return Err(e);
                },
            }
            i = i + 1;
        }
        assert(tokens.take(i as int) =~= tokens);
        Ok(result)
    }

    /// The postfix form of an infix list of symbols.
    fn infix_to_postfix(infix: &Vec<ExpressionSymbol>) -> (r: Result<Vec<ExpressionSymbol>, Error>)
        ensures
            match r {
                Ok(postfix) => postfix_of(symbols(infix@)) == Ok::<Seq<Symbol>, Error>(
                    symbols(postfix@),
                ),
                Err(e) => postfix_of(symbols(infix@)) == Err::<Seq<Symbol>, Error>(e),
            },
    {
        let mut postfix: Vec<ExpressionSymbol> = Vec::new();
        let mut stack: Vec<Stacked> = Vec::new();
        let ghost model = symbols(infix@);
        let mut i: usize = 0;
        assert(symbols(postfix@) =~= Seq::<Symbol>::empty());
        while i < infix.len()
            invariant
                i <= infix.len(),
                model == symbols(infix@),
                shunt(model, i as int, stack@, symbols(postfix@)) == postfix_of(model),
            decreases infix.len() - i,
        {
            let ghost output = symbols(postfix@);
            match &infix[i] {
                ExpressionSymbol::Constant(_) | ExpressionSymbol::Variable(_) => {
                    postfix.push(infix[i].clone());
                    assert(symbols(postfix@) =~= output.push(model[i as int]));
                },
                ExpressionSymbol::BracketOpening => {
                    stack.push(None);
                },
                ExpressionSymbol::BracketClosing => {
                    if !pop_to_bracket(&mut stack, &mut postfix) {
                        return Err(Error::SyntaxError);
                    }
                },
                ExpressionSymbol::Operator(op) => {
                    pop_tighter(*op, &mut stack, &mut postfix);
                    stack.push(Some(*op));
                },
                ExpressionSymbol::FunctionCommand(_) => {
                    return Err(Error::SyntaxError);
                },
            }
            i = i + 1;
        }
        if pop_all(&mut stack, &mut postfix) {
            Ok(postfix)
        } else {
            Err(Error::SyntaxError)
        }
    }
}

/// Moves the operators above the nearest opening bracket to the output and
/// drops the bracket. Tells whether there was one.
fn pop_to_bracket(stack: &mut Vec<Stacked>, postfix: &mut Vec<ExpressionSymbol>) -> (found: bool)
    ensures
        match close_bracket(old(stack)@, symbols(old(postfix)@)) {
            Some((rest, longer)) => found && final(stack)@ == rest && symbols(final(postfix)@)
                == longer,
            None => !found,
        },
{
    loop
        invariant
            close_bracket(stack@, symbols(postfix@)) == close_bracket(
                old(stack)@,
                symbols(old(postfix)@),
            ),
        decreases stack.len(),
    {
        let ghost longer = symbols(postfix@);
        match stack.pop() {
            None => {
                return false;
            },
            Some(None) => {
                return true;
            },
            Some(Some(op)) => {
                postfix.push(ExpressionSymbol::Operator(op));
                assert(symbols(postfix@) =~= longer.push(Symbol::Operator(op)));
            },
        }
    }
}

/// Moves the operators on top of the stack that bind at least as tightly as
/// `op` to the output.
fn pop_tighter(op: Operator, stack: &mut Vec<Stacked>, postfix: &mut Vec<ExpressionSymbol>)
    ensures
        (final(stack)@, symbols(final(postfix)@)) == make_way(
            op,
            old(stack)@,
            symbols(old(postfix)@),
        ),
{
    loop
        invariant
            make_way(op, stack@, symbols(postfix@)) == make_way(
                op,
                old(stack)@,
                symbols(old(postfix)@),
            ),
        decreases stack.len(),
    {
        let n = stack.len();
        if n == 0 {
            return ;
        }
        match stack[n - 1] {
            Some(top) => {
                if op.precedence() <= top.precedence() {
                    let ghost longer = symbols(postfix@);
                    stack.pop();
                    postfix.push(ExpressionSymbol::Operator(top));
                    assert(symbols(postfix@) =~= longer.push(Symbol::Operator(top)));
                } else {
                    return ;
                }
            },
            None => {
                return ;
            },
        }
    }
}

/// Moves what is left on the stack to the output. Tells whether it held
/// operators only.
fn pop_all(stack: &mut Vec<Stacked>, postfix: &mut Vec<ExpressionSymbol>) -> (clean: bool)
    ensures
        match drain(old(stack)@, symbols(old(postfix)@)) {
            Ok(all) => clean && symbols(final(postfix)@) == all,
            Err(e) => !clean && e == Error::SyntaxError,
        },
{
    loop
        invariant
            drain(stack@, symbols(postfix@)) == drain(old(stack)@, symbols(old(postfix)@)),
        decreases stack.len(),
    {
        let ghost longer = symbols(postfix@);
        match stack.pop() {
            None => {
                return true;
            },
            Some(None) => {
                return false;
            },
            Some(Some(op)) => {
                postfix.push(ExpressionSymbol::Operator(op));
                assert(symbols(postfix@) =~= longer.push(Symbol::Operator(op)));
            },
        }
    }
}

/// An error among the first tokens is the error of the whole.
proof fn lemma_symbols_of_error(tokens: Seq<Seq<char>>, n: int)
    requires
        0 <= n <= tokens.len(),
        symbols_of(tokens.take(n)) is Err,
    ensures
        symbols_of(tokens) == symbols_of(tokens.take(n)),
    decreases tokens.len() - n,
{
    if n < tokens.len() {
        assert(tokens.take(n + 1).drop_last() =~= tokens.take(n));
        lemma_symbols_of_error(tokens, n + 1);
    } else {
        assert(tokens.take(n) =~= tokens);
    }
}

impl Expression {
    /// The symbols, in order.
    pub fn symbols(&self) -> (list: &Vec<ExpressionSymbol>)
        ensures
            symbols(list@) == self@,
    {
        &self.postfix_symbol_list
    }

    /// The number of symbols.
    pub fn len(&self) -> (n: usize)
        ensures
            n == self@.len(),
    {
        self.postfix_symbol_list.len()
    }

    /// The bound of a call of `random`, and zero for any other expression.
    pub fn random_bound(&self) -> (bound: i32)
        ensures
            bound == random_bound(self@),
    {
        if self.postfix_symbol_list.len() != 2 {
            return 0;
        }
        match &self.postfix_symbol_list[0] {
            ExpressionSymbol::FunctionCommand(Function::Random) => {},
            _ => {
                return 0;
            },
        }
        match &self.postfix_symbol_list[1] {
            ExpressionSymbol::Constant(d) => {
                if d.negative {
                    0
                } else {
                    d.whole()
                }
            },
            _ => 0,
        }
    }

    /// The computation that gives the value of the expression, where `draw`
    /// is the number drawn for a call of `random`.
    pub fn evaluate_drawn(&self, variables: &Environment, draw: i32) -> (r: Result<Term, Error>)
        ensures
            r == term_of(self@, variables@, draw as int),
    {
        let n = self.postfix_symbol_list.len();
        if n > 0 {
            match &self.postfix_symbol_list[0] {
                ExpressionSymbol::FunctionCommand(_) => {
                    if self.random_bound() > 0 {
                        return Ok(Term::Integer(draw));
                    } else {
                        return Err(Error::MalformedExpression);
                    }
                },
                _ => {},
            }
        }
        let mut stack: Vec<Term> = Vec::new();
        let mut i: usize = 0;
        while i < n
            invariant
                i <= n,
                n == self.postfix_symbol_list.len(),
                term_of(self@, variables@, draw as int) == fold_postfix(
                    self@,
                    0,
                    variables@,
                    Seq::empty(),
                ),
                fold_postfix(self@, i as int, variables@, stack@) == fold_postfix(
                    self@,
                    0,
                    variables@,
                    Seq::empty(),
                ),
            decreases n - i,
        {
            assert(self@[i as int] == self.postfix_symbol_list@[i as int]@);
            match &self.postfix_symbol_list[i] {
                ExpressionSymbol::Constant(d) => {
                    stack.push(Term::Literal(*d));
                },
                ExpressionSymbol::Variable(name) => {
                    match variables.get(name) {
                        Some(value) => {
                            stack.push(Term::Value(value));
                        },
                        None => {
                            return Err(Error::UndefinedVariable);
                        },
                    }
                },
                ExpressionSymbol::Operator(op) => {
                    if stack.len() < 2 {
                        return Err(Error::MalformedExpression);
                    }
                    let ghost before = stack@;
                    let y = stack.pop().unwrap();
                    let x = stack.pop().unwrap();
                    assert(stack@ =~= before.take(before.len() - 2));
                    stack.push(Term::Binary(*op, Box::new(x), Box::new(y)));
                },
                _ => {
                    return Err(Error::MalformedExpression);
                },
            }
            i = i + 1;
        }
        if stack.len() == 1 {
            Ok(stack.pop().unwrap())
        } else {
            Err(Error::MalformedExpression)
        }
    }

    /// The computation that gives the value of the expression. For a call of
    /// `random` with a bound above zero a number is drawn, at least zero and
    /// below the bound. Every other expression gives the same result
    /// whenever it is evaluated with the same variables.
    pub fn evaluate(&self, variables: &Environment) -> (r: Result<Term, Error>)
        ensures
            random_bound(self@) > 0 ==> (r matches Ok(Term::Integer(k)) && 0 <= k < random_bound(
                self@,
            )),
            random_bound(self@) <= 0 ==> r == term_of(self@, variables@, 0),
    {
        let bound = self.random_bound();
        if bound > 0 {
            let drawn = draw_below(bound as u64) as i32;
            let r = self.evaluate_drawn(variables, drawn);
            r
        } else {
            self.evaluate_drawn(variables, 0)
        }
    }

    /// The name that a call of `pick` gives when `index` was drawn.
    pub fn evaluate_setcolor_drawn(&self, index: usize) -> (r: Result<String, Error>)
        ensures
            spelled(r) == picked(self@, index as int),
    {
        let n = self.postfix_symbol_list.len();
        if n < 2 || index >= n - 1 {
            return Err(Error::MalformedExpression);
        }
        match &self.postfix_symbol_list[0] {
            ExpressionSymbol::FunctionCommand(Function::Pick) => {},
            _ => {
                return Err(Error::MalformedExpression);
            },
        }
        match &self.postfix_symbol_list[index + 1] {
            ExpressionSymbol::Variable(name) => Ok(name.clone()),
            _ => Err(Error::MalformedExpression),
        }
    }

    /// One of the names of a call of `pick`, drawn at random. An expression
    /// that is no call of `pick` with at least one name is malformed, and so
    /// is the call where the symbol drawn is no name.
    pub fn evaluate_setcolor(&self) -> (r: Result<String, Error>)
        ensures
            is_pick(self@) ==> exists|k: int|
                0 <= k < self@.len() - 1 && spelled(r) == #[trigger] picked(self@, k),
            !is_pick(self@) ==> r == Err::<String, Error>(Error::MalformedExpression),
    {
        let n = self.postfix_symbol_list.len();
        if n < 2 {
            return Err(Error::MalformedExpression);
        }
        let high_bound = n - 1;
        let picked_idx = draw_below(high_bound as u64) as usize;
        let r = self.evaluate_setcolor_drawn(picked_idx);
        proof {
            if is_pick(self@) {
                assert(0 <= picked_idx < self@.len() - 1 && spelled(r) == picked(
                    self@,
                    picked_idx as int,
                ));
            }
        }
        r
    }

    /// The name that the expression begins with, for a command whose
    /// parameter is a text and no number. Empty where the expression does not
    /// begin with a name.
    pub fn text_literal(&self) -> (text: String)
        ensures
            text@ == if self@.len() > 0 && self@[0] is Variable {
                self@[0]->Variable_0
            } else {
                Seq::<char>::empty()
            },
    {
        if self.postfix_symbol_list.len() > 0 {
            match &self.postfix_symbol_list[0] {
                ExpressionSymbol::Variable(text) => {
                    return text.clone();
                },
                _ => {},
            }
        }
        String::new()
    }
}

/// Whether the expression names no variable and calls no function.
pub open spec fn is_constant(expression: Seq<Symbol>) -> bool {
    forall|i: int|
        0 <= i < expression.len() ==> !((#[trigger] expression[i]) is Variable) && !(expression[i]
            is FunctionCommand)
}

/// The evaluation of symbols that name no variable does not look at the
/// variables.
proof fn lemma_fold_without_variables(
    postfix: Seq<Symbol>,
    at: int,
    first: Map<Seq<char>, Number>,
    second: Map<Seq<char>, Number>,
    stack: Seq<Term>,
)
    requires
        is_constant(postfix),
        0 <= at,
    ensures
        fold_postfix(postfix, at, first, stack) == fold_postfix(postfix, at, second, stack),
    decreases postfix.len() - at,
{
    if at < postfix.len() {
        assert(!(postfix[at] is Variable));
        match postfix[at] {
            Symbol::Constant(d) => {
                lemma_fold_without_variables(
                    postfix,
                    at + 1,
                    first,
                    second,
                    stack.push(Term::Literal(d)),
                );
            },
            Symbol::Operator(op) => {
                if stack.len() >= 2 {
                    let y = stack[stack.len() - 1];
                    let x = stack[stack.len() - 2];
                    lemma_fold_without_variables(
                        postfix,
                        at + 1,
                        first,
                        second,
                        stack.take(stack.len() - 2).push(
                            Term::Binary(op, Box::new(x), Box::new(y)),
                        ),
                    );
                }
            },
            _ => {},
        }
    }
}

/// An expression that names no variable and calls no function has one
/// value: whatever the variables hold and whatever is drawn, its evaluation
/// gives the same result.
pub proof fn law_constant_expression(
    expression: Seq<Symbol>,
    first: Map<Seq<char>, Number>,
    second: Map<Seq<char>, Number>,
    first_draw: int,
    second_draw: int,
)
    requires
        is_constant(expression),
    ensures
        term_of(expression, first, first_draw) == term_of(expression, second, second_draw),
{
    if expression.len() > 0 {
        assert(!(expression[0] is FunctionCommand));
    }
    lemma_fold_without_variables(expression, 0, first, second, Seq::empty());
}

/// Only a call of `random` depends on what is drawn: any other expression,
/// evaluated with the same variables, gives the same result every time.
pub proof fn law_evaluation_repeats(
    expression: Seq<Symbol>,
    variables: Map<Seq<char>, Number>,
    first_draw: int,
    second_draw: int,
)
    requires
        !is_random(expression),
    ensures
        term_of(expression, variables, first_draw) == term_of(expression, variables, second_draw),
{
}

} // verus!
