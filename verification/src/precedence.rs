//! What an infix expression without brackets means, and the proof that the
//! compiler and the evaluator agree with it.
use vstd::prelude::*;
use crate::error::Error;
use crate::expression::compiled;
use crate::expression::drain;
use crate::expression::fold_postfix;
use crate::expression::make_way;
use crate::expression::postfix_of;
use crate::expression::shunt;
use crate::expression::symbols_of;
use crate::expression::term_of;
use crate::expression::Stacked;
use crate::expression::Symbol;
use crate::number::Number;
use crate::number::Term;

verus! {

/// Whether the symbol is a literal or a variable.
pub open spec fn is_operand(symbol: Symbol) -> bool {
    symbol is Variable || symbol is Constant
}

/// Whether the symbols are an infix expression without brackets: operands
/// and operators in turn, with an operand at both ends.
pub open spec fn simple(s: Seq<Symbol>) -> bool {
    &&& s.len() % 2 == 1
    &&& forall|j: int|
        0 <= j < s.len() ==> if j % 2 == 0 {
            is_operand(#[trigger] s[j])
        } else {
            s[j] is Operator
        }
}

/// The precedence of the operator at a position.
pub open spec fn strength(s: Seq<Symbol>, at: int) -> int {
    s[at]->Operator_0.spec_precedence() as int
}

/// The position of the weakest operator among those at the odd positions up
/// to `upto`; of several that are equally weak, the last.
pub open spec fn weakest(s: Seq<Symbol>, upto: int) -> int
    decreases upto,
{
    if upto <= 1 {
        1
    } else {
        let before = weakest(s, upto - 2);
        if strength(s, upto) <= strength(s, before) {
            upto
        } else {
            before
        }
    }
}

/// The position of the operator that is applied last: the weakest, and of
/// several that are equally weak the last, since operators of one
/// precedence are applied from left to right.
pub open spec fn pivot(s: Seq<Symbol>) -> int {
    weakest(s, s.len() - 2)
}

/// The value of an operand.
pub open spec fn operand_term(symbol: Symbol, variables: Map<Seq<char>, Number>) -> Result<
    Term,
    Error,
> {
    match symbol {
        Symbol::Constant(d) => Ok(Term::Literal(d)),
        Symbol::Variable(name) => if variables.contains_key(name) {
            Ok(Term::Value(variables[name]))
        } else {
            Err(Error::UndefinedVariable)
        },
        _ => Err(Error::MalformedExpression),
    }
}

/// What an infix expression without brackets means: a single operand means
/// its value; otherwise the operator that is applied last is applied to
/// what stands left of it and what stands right of it. A variable without a
/// value makes the whole undefined, the leftmost such variable first.
pub open spec fn meaning(s: Seq<Symbol>, variables: Map<Seq<char>, Number>) -> Result<Term, Error>
    decreases s.len(),
{
    if s.len() == 0 {
        Err(Error::MalformedExpression)
    } else if s.len() == 1 {
        operand_term(s[0], variables)
    } else {
        let k = pivot(s);
        if 0 < k < s.len() - 1 {
            match meaning(s.take(k), variables) {
                Err(e) => Err(e),
                Ok(left) => match meaning(s.skip(k + 1), variables) {
                    Err(e) => Err(e),
                    Ok(right) => Ok(
                        Term::Binary(s[k]->Operator_0, Box::new(left), Box::new(right)),
                    ),
                },
            }
        } else {
            Err(Error::MalformedExpression)
        }
    }
}

/// The postfix order of an infix expression without brackets: what stands
/// left of the operator that is applied last, then what stands right of it,
/// then the operator.
pub open spec fn reading(s: Seq<Symbol>) -> Seq<Symbol>
    decreases s.len(),
{
    if s.len() <= 1 {
        s
    } else {
        let k = pivot(s);
        if 0 < k < s.len() - 1 {
            reading(s.take(k)) + reading(s.skip(k + 1)) + seq![s[k]]
        } else {
            s
        }
    }
}

/// The weakest operator is at an odd position, no operator up to `upto` is
/// weaker, and those after it are stronger.
proof fn lemma_weakest(s: Seq<Symbol>, upto: int)
    requires
        1 <= upto,
        upto % 2 == 1,
    ensures
        1 <= weakest(s, upto) <= upto,
        weakest(s, upto) % 2 == 1,
        forall|j: int|
            1 <= j <= upto && j % 2 == 1 ==> strength(s, weakest(s, upto)) <= #[trigger] strength(
                s,
                j,
            ),
        forall|j: int|
            weakest(s, upto) < j <= upto && j % 2 == 1 ==> strength(s, weakest(s, upto))
                < #[trigger] strength(s, j),
    decreases upto,
{
    if upto > 1 {
        lemma_weakest(s, upto - 2);
    }
}

/// The two sides of the operator that is applied last are infix expressions
/// again.
proof fn lemma_sides(s: Seq<Symbol>)
    requires
        simple(s),
        s.len() >= 3,
    ensures
        0 < pivot(s) < s.len() - 1,
        pivot(s) % 2 == 1,
        s[pivot(s)] is Operator,
        simple(s.take(pivot(s))),
        simple(s.skip(pivot(s) + 1)),
        forall|j: int|
            0 <= j < s.len() && j % 2 == 1 ==> strength(s, pivot(s)) <= #[trigger] strength(s, j),
        forall|j: int|
            pivot(s) < j < s.len() && j % 2 == 1 ==> strength(s, pivot(s)) < #[trigger] strength(
                s,
                j,
            ),
{
    let k = pivot(s);
    lemma_weakest(s, s.len() - 2);
    let left = s.take(k);
    let right = s.skip(k + 1);
    assert forall|j: int| 0 <= j < left.len() implies if j % 2 == 0 {
        is_operand(#[trigger] left[j])
    } else {
        left[j] is Operator
    } by {
        assert(left[j] == s[j]);
    }
    assert forall|j: int| 0 <= j < right.len() implies if j % 2 == 0 {
        is_operand(#[trigger] right[j])
    } else {
        right[j] is Operator
    } by {
        assert(right[j] == s[j + k + 1]);
    }
}

/// The postfix order holds every symbol once.
proof fn lemma_reading_len(s: Seq<Symbol>)
    requires
        simple(s),
    ensures
        reading(s).len() == s.len(),
    decreases s.len(),
{
    if s.len() >= 3 {
        lemma_sides(s);
        lemma_reading_len(s.take(pivot(s)));
        lemma_reading_len(s.skip(pivot(s) + 1));
    }
}

/// Whether no operator of a part is weaker than `bound`.
#[verifier::opaque]
spec fn none_weaker(full: Seq<Symbol>, from: int, n: int, bound: int) -> bool {
    forall|j: int| 0 <= j < n && j % 2 == 1 ==> bound <= #[trigger] strength(full, from + j)
}

/// Whether every operator of a part is stronger than `bound`.
#[verifier::opaque]
spec fn all_stronger(full: Seq<Symbol>, from: int, n: int, bound: int) -> bool {
    forall|j: int| 0 <= j < n && j % 2 == 1 ==> bound < #[trigger] strength(full, from + j)
}

/// What holds of the operators of a part holds of those of its two sides.
proof fn lemma_narrow(full: Seq<Symbol>, from: int, n: int, k: int, bound: int)
    requires
        0 < k < n - 1,
        k % 2 == 1,
    ensures
        none_weaker(full, from, n, bound) ==> none_weaker(full, from, k, bound) && none_weaker(
            full,
            from + k + 1,
            n - k - 1,
            bound,
        ) && bound <= strength(full, from + k),
        all_stronger(full, from, n, bound) ==> all_stronger(full, from, k, bound) && all_stronger(
            full,
            from + k + 1,
            n - k - 1,
            bound,
        ) && bound < strength(full, from + k),
{
    reveal(none_weaker);
    reveal(all_stronger);
    if none_weaker(full, from, n, bound) {
        assert forall|j: int| 0 <= j < n - k - 1 && j % 2 == 1 implies bound <= #[trigger] strength(
            full,
            from + k + 1 + j,
        ) by {
            assert(bound <= strength(full, from + (k + 1 + j)));
        }
        assert(bound <= strength(full, from + k));
    }
    if all_stronger(full, from, n, bound) {
        assert forall|j: int| 0 <= j < n - k - 1 && j % 2 == 1 implies bound < #[trigger] strength(
            full,
            from + k + 1 + j,
        ) by {
            assert(bound < strength(full, from + (k + 1 + j)));
        }
        assert(bound < strength(full, from + k));
    }
}

/// The two sides of the operator that is applied last in a part of an
/// infix sequence.
proof fn lemma_split(full: Seq<Symbol>, from: int, n: int)
    requires
        0 <= from,
        3 <= n,
        from + n <= full.len(),
        simple(full.subrange(from, from + n)),
    ensures
        ({
            let s = full.subrange(from, from + n);
            let k = pivot(s);
            &&& 0 < k < n - 1
            &&& k % 2 == 1
            &&& full[from + k] is Operator
            &&& s[k] == full[from + k]
            &&& s.take(k) == full.subrange(from, from + k)
            &&& s.skip(k + 1) == full.subrange(from + k + 1, from + n)
            &&& simple(full.subrange(from, from + k))
            &&& simple(full.subrange(from + k + 1, from + n))
            &&& none_weaker(full, from, k, strength(full, from + k))
            &&& all_stronger(full, from + k + 1, n - k - 1, strength(full, from + k))
        }),
{
    let s = full.subrange(from, from + n);
    let k = pivot(s);
    lemma_sides(s);
    assert(s.take(k) =~= full.subrange(from, from + k));
    assert(s.skip(k + 1) =~= full.subrange(from + k + 1, from + n));
    assert(s[k] == full[from + k]);
    reveal(none_weaker);
    reveal(all_stronger);
    assert forall|j: int| 0 <= j < k && j % 2 == 1 implies strength(full, from + k)
        <= #[trigger] strength(full, from + j) by {
        assert(s[j] == full[from + j]);
        assert(strength(s, k) <= strength(s, j));
    }
    assert forall|j: int| 0 <= j < n - k - 1 && j % 2 == 1 implies strength(full, from + k)
        < #[trigger] strength(full, from + k + 1 + j) by {
        assert(s[k + 1 + j] == full[from + k + 1 + j]);
        assert(strength(s, k) < strength(s, k + 1 + j));
    }
}

/// An operator on top of the stack moves to the output where the end
/// follows, or an operator that is no stronger.
proof fn lemma_flush(
    full: Seq<Symbol>,
    at: int,
    stack: Seq<Stacked>,
    op: crate::number::Operator,
    output: Seq<Symbol>,
)
    requires
        0 <= at <= full.len(),
        at == full.len() || (full[at] is Operator && strength(full, at)
            <= op.spec_precedence() as int),
    ensures
        shunt(full, at, stack.push(Some(op)), output) == shunt(
            full,
            at,
            stack,
            output.push(Symbol::Operator(op)),
        ),
{
    let pushed = stack.push(Some(op));
    assert(pushed.drop_last() =~= stack);
    if at < full.len() {
        let next = full[at]->Operator_0;
        assert(make_way(next, pushed, output) == make_way(
            next,
            stack,
            output.push(Symbol::Operator(op)),
        ));
    } else {
        assert(drain(pushed, output) == drain(stack, output.push(Symbol::Operator(op))));
    }
}

/// An operator is pushed, and nothing moves, where the stack is empty or
/// its top is a bracket or a weaker operator.
proof fn lemma_push(
    full: Seq<Symbol>,
    at: int,
    stack: Seq<Stacked>,
    output: Seq<Symbol>,
)
    requires
        0 <= at < full.len(),
        full[at] is Operator,
        stack.len() == 0 || stack.last() is None || (stack.last()->0.spec_precedence() as int)
            < strength(full, at),
    ensures
        shunt(full, at, stack, output) == shunt(
            full,
            at + 1,
            stack.push(Some(full[at]->Operator_0)),
            output,
        ),
{
    let op = full[at]->Operator_0;
    assert(make_way(op, stack, output) == (stack, output));
}

/// The conversion reads a part of an infix sequence that is an expression
/// without brackets as that expression's postfix order, where the part is
/// followed by the end or by an operator that is no stronger than any of
/// its own, and where the operator on top of the stack, if there is one, is
/// weaker than all of them.
proof fn lemma_part(full: Seq<Symbol>, from: int, n: int, stack: Seq<Stacked>, output: Seq<Symbol>)
    requires
        0 <= from,
        1 <= n,
        from + n <= full.len(),
        simple(full.subrange(from, from + n)),
        from + n == full.len() || (full[from + n] is Operator && none_weaker(
            full,
            from,
            n,
            strength(full, from + n),
        )),
        stack.len() == 0 || stack.last() is None || all_stronger(
            full,
            from,
            n,
            stack.last()->0.spec_precedence() as int,
        ),
    ensures
        shunt(full, from, stack, output) == shunt(
            full,
            from + n,
            stack,
            output + reading(full.subrange(from, from + n)),
        ),
    decreases n,
{
    let s = full.subrange(from, from + n);
    if n == 1 {
        assert(is_operand(s[0]));
        assert(s[0] == full[from]);
        assert(output + reading(s) =~= output.push(full[from]));
    } else {
        assert(n >= 3) by {
            assert(s.len() % 2 == 1);
        }
        lemma_split(full, from, n);
        let k = pivot(s);
        let op = full[from + k]->Operator_0;
        let weak = strength(full, from + k);
        let left = full.subrange(from, from + k);
        let right = full.subrange(from + k + 1, from + n);
        let output1 = output + reading(left);
        let output2 = output1 + reading(right);
        let pushed = stack.push(Some(op));
        if stack.len() > 0 && stack.last() is Some {
            lemma_narrow(full, from, n, k, stack.last()->0.spec_precedence() as int);
        }
        if from + n < full.len() {
            lemma_narrow(full, from, n, k, strength(full, from + n));
        }
        lemma_part(full, from, k, stack, output);
        lemma_push(full, from + k, stack, output1);
        lemma_part(full, from + k + 1, n - k - 1, pushed, output1);
        lemma_flush(full, from + n, stack, op, output2);
        assert(output2.push(Symbol::Operator(op)) =~= output + reading(s));
    }
}

/// The evaluation of a postfix sequence takes the postfix order of an infix
/// expression for the meaning of that expression.
proof fn lemma_fold(
    s: Seq<Symbol>,
    postfix: Seq<Symbol>,
    at: int,
    variables: Map<Seq<char>, Number>,
    stack: Seq<Term>,
)
    requires
        simple(s),
        0 <= at,
        at + s.len() <= postfix.len(),
        postfix.subrange(at, at + s.len()) == reading(s),
    ensures
        fold_postfix(postfix, at, variables, stack) == match meaning(s, variables) {
            Ok(term) => fold_postfix(postfix, at + s.len(), variables, stack.push(term)),
            Err(e) => Err(e),
        },
    decreases s.len(),
{
    let r = reading(s);
    lemma_reading_len(s);
    if s.len() == 1 {
        assert(postfix[at] == r[0]);
        assert(is_operand(s[0]));
    } else {
        assert(s.len() >= 3);
        lemma_sides(s);
        let k = pivot(s);
        let left = s.take(k);
        let right = s.skip(k + 1);
        lemma_reading_len(left);
        lemma_reading_len(right);
        assert(postfix.subrange(at, at + k) =~= reading(left)) by {
            assert(r.subrange(0, k) =~= reading(left));
            assert(postfix.subrange(at, at + k) =~= r.subrange(0, k));
        }
        lemma_fold(left, postfix, at, variables, stack);
        match meaning(left, variables) {
            Err(_) => {},
            Ok(l) => {
                assert(postfix.subrange(at + k, at + k + right.len()) =~= reading(right)) by {
                    assert(r.subrange(k, k + right.len()) =~= reading(right));
                    assert(postfix.subrange(at + k, at + k + right.len()) =~= r.subrange(
                        k,
                        k + right.len(),
                    ));
                }
                lemma_fold(right, postfix, at + k, variables, stack.push(l));
                match meaning(right, variables) {
                    Err(_) => {},
                    Ok(rt) => {
                        let last = at + s.len() - 1;
                        assert(postfix[last] == r[s.len() - 1]);
                        assert(r[s.len() - 1] == s[k]);
                        let both = stack.push(l).push(rt);
                        assert(both.take(both.len() - 2) =~= stack);
                    },
                }
            },
        }
    }
}

/// Compiling and evaluating an infix expression without brackets gives
/// what the expression means when its operators are applied by precedence,
/// and from left to right where the precedence is the same.
pub proof fn law_compile_then_evaluate(
    tokens: Seq<Seq<char>>,
    infix: Seq<Symbol>,
    variables: Map<Seq<char>, Number>,
    draw: int,
)
    requires
        symbols_of(tokens) == Ok::<Seq<Symbol>, Error>(infix),
        simple(infix),
    ensures
        compiled(tokens) == Ok::<Seq<Symbol>, Error>(reading(infix)),
        term_of(reading(infix), variables, draw) == meaning(infix, variables),
{
    let r = reading(infix);
    lemma_reading_len(infix);
    assert(is_operand(infix[0]));
    assert(infix.subrange(0, infix.len() as int) =~= infix);
    lemma_part(infix, 0, infix.len() as int, Seq::empty(), Seq::empty());
    assert(Seq::<Symbol>::empty() + r =~= r);
    assert(postfix_of(infix) == Ok::<Seq<Symbol>, Error>(r));
    assert(r.subrange(0, infix.len() as int) =~= r);
    lemma_fold(infix, r, 0, variables, Seq::empty());
    lemma_reading_starts_with_operand(infix);
    match meaning(infix, variables) {
        Ok(term) => {
            assert(Seq::<Term>::empty().push(term).len() == 1);
        },
        Err(_) => {},
    }
}

/// The postfix order of an infix expression begins with an operand.
proof fn lemma_reading_starts_with_operand(s: Seq<Symbol>)
    requires
        simple(s),
    ensures
        reading(s).len() > 0,
        is_operand(reading(s)[0]),
    decreases s.len(),
{
    lemma_reading_len(s);
    if s.len() == 1 {
        assert(is_operand(s[0]));
    } else {
        assert(s.len() >= 3);
        lemma_sides(s);
        let left = s.take(pivot(s));
        lemma_reading_starts_with_operand(left);
        lemma_reading_len(left);
        assert(reading(s)[0] == reading(left)[0]);
    }
}

} // verus!
