//! Well-formed expressions evaluate.
//!
//! An expression is well formed when its parentheses are balanced and its
//! operands and operators alternate as in ordinary infix notation. The
//! library defers this validation to evaluation time; the theorem at the
//! bottom of this module shows that the deferral loses nothing: on every
//! well-formed expression the shunting yard succeeds, and the reduction
//! of its output reaches a single value whenever the caller keeps
//! supplying operator results.

use vstd::prelude::*;

use crate::expression::ExpressionComponent;
use crate::operator::Operator;
use crate::rpn::{
    spec_close_parenthesis, spec_drain, spec_push_operator, spec_rpn_outcome, spec_shunt,
    spec_to_rpn,
};

verus! {

/// Whether a component is a number.
pub open spec fn is_number(c: ExpressionComponent) -> bool {
    c is Number
}

/// Whether a component is an arithmetic operator.
pub open spec fn is_arithmetic(c: ExpressionComponent) -> bool {
    c matches ExpressionComponent::Operator(Operator::ArithmeticOperator(_))
}

/// How a component changes the size of the reduction's value stack: a
/// number adds a value, an arithmetic operator replaces two by one, a
/// parenthesis would do neither.
pub open spec fn delta(c: ExpressionComponent) -> int {
    if is_number(c) {
        1
    } else if is_arithmetic(c) {
        -1
    } else {
        0
    }
}

/// The net change of the value stack's size over a sequence.
pub open spec fn balance(s: Seq<ExpressionComponent>) -> int
    decreases s.len(),
{
    if s.len() == 0 {
        0
    } else {
        balance(s.drop_last()) + delta(s.last())
    }
}

/// No parenthesis survives in the sequence.
pub open spec fn no_parens(s: Seq<ExpressionComponent>) -> bool {
    forall|i: int| 0 <= i < s.len() ==> (is_number(s[i]) || is_arithmetic(s[i]))
}

/// A postfix sequence on which the reduction cannot fail: no parenthesis,
/// two operands on the stack before every operator, one value at the end.
pub open spec fn valid_rpn(s: Seq<ExpressionComponent>) -> bool {
    &&& no_parens(s)
    &&& forall|i: int| 0 <= i < s.len() && is_arithmetic(s[i]) ==> balance(s.take(i)) >= 2
    &&& balance(s) == 1
}

/// How many arithmetic operators a stack holds.
pub open spec fn stack_operators(s: Seq<Operator>) -> int
    decreases s.len(),
{
    if s.len() == 0 {
        0
    } else {
        stack_operators(s.drop_last()) + (if s.last() matches Operator::ArithmeticOperator(_) {
            1int
        } else {
            0
        })
    }
}

/// How many opening parentheses a stack holds.
pub open spec fn stack_parens(s: Seq<Operator>) -> int
    decreases s.len(),
{
    if s.len() == 0 {
        0
    } else {
        stack_parens(s.drop_last()) + (if s.last() == Operator::LeftParenthesis {
            1int
        } else {
            0
        })
    }
}

/// The operator stack never holds a closing parenthesis.
pub open spec fn stack_ok(s: Seq<Operator>) -> bool {
    forall|i: int| 0 <= i < s.len() ==> s[i] != Operator::RightParenthesis
}

/// Whether `c` continues a well-formed expression: `depth` parentheses
/// are open, and an operand (`expecting_operand`) or an operator comes
/// next. A whole expression starts at depth zero expecting an operand.
pub open spec fn spec_wellformed_from(
    c: Seq<ExpressionComponent>,
    depth: int,
    expecting_operand: bool,
) -> bool
    decreases c.len(),
{
    if c.len() == 0 {
        !expecting_operand && depth == 0
    } else {
        match c[0] {
            ExpressionComponent::Number(_) => expecting_operand && spec_wellformed_from(
                c.drop_first(),
                depth,
                false,
            ),
            ExpressionComponent::Operator(Operator::ArithmeticOperator(_)) => !expecting_operand
                && spec_wellformed_from(c.drop_first(), depth, true),
            ExpressionComponent::Operator(Operator::LeftParenthesis) => expecting_operand
                && spec_wellformed_from(c.drop_first(), depth + 1, true),
            ExpressionComponent::Operator(Operator::RightParenthesis) => !expecting_operand && depth
                > 0 && spec_wellformed_from(c.drop_first(), depth - 1, false),
        }
    }
}

/// A well-formed expression: balanced parentheses, operands and binary
/// operators alternating, at least one operand.
pub open spec fn spec_wellformed(c: Seq<ExpressionComponent>) -> bool {
    spec_wellformed_from(c, 0, true)
}

/// `balance` unfolded at the front instead of the back.
proof fn lemma_balance_front(s: Seq<ExpressionComponent>)
    requires
        s.len() > 0,
    ensures
        balance(s) == delta(s[0]) + balance(s.drop_first()),
    decreases s.len(),
{
    if s.len() == 1 {
        assert(s.drop_last() =~= Seq::<ExpressionComponent>::empty());
        assert(s.drop_first() =~= Seq::<ExpressionComponent>::empty());
    } else {
        lemma_balance_front(s.drop_last());
        assert(s.drop_last().drop_first() =~= s.drop_first().drop_last());
        assert(s.drop_last()[0] == s[0]);
        assert(s.drop_first().last() == s.last());
    }
}

/// A sequence on which every operator finds its operands, and which adds
/// `values.len() + balance` to an empty stack, reduces to a single value
/// when that sum is one and enough results are supplied.
proof fn lemma_valid_rpn_reduces(
    rpn: Seq<ExpressionComponent>,
    values: Seq<u64>,
    supplied: Seq<u64>,
)
    requires
        no_parens(rpn),
        forall|i: int|
            0 <= i < rpn.len() && is_arithmetic(rpn[i]) ==> values.len() + balance(rpn.take(i))
                >= 2,
        values.len() + balance(rpn) == 1,
        supplied.len() >= rpn.len(),
    ensures
        spec_rpn_outcome(rpn, values, supplied) is Ok,
    decreases rpn.len(),
{
    if rpn.len() == 0 {
        assert(values.len() == 1);
    } else {
        lemma_balance_front(rpn);
        let rest = rpn.drop_first();
        assert forall|i: int|
            0 <= i < rest.len() implies (is_number(rest[i]) || is_arithmetic(
            #[trigger] rest[i],
        )) by {
            assert(rest[i] == rpn[i + 1]);
        }
        assert forall|i: int| 0 <= i < rest.len() && is_arithmetic(rest[i]) implies (values.len()
            + delta(rpn[0])) + balance(rest.take(i)) >= 2 by {
            assert(rest[i] == rpn[i + 1]);
            assert(rpn.take(i + 1).drop_first() =~= rest.take(i));
            assert(rpn.take(i + 1)[0] == rpn[0]);
            lemma_balance_front(rpn.take(i + 1));
            assert(values.len() + balance(rpn.take(i + 1)) >= 2);
        }
        match rpn[0] {
            ExpressionComponent::Number(n) => {
                lemma_valid_rpn_reduces(rest, values.push(n), supplied);
            },
            ExpressionComponent::Operator(Operator::ArithmeticOperator(_)) => {
                assert(values.len() + balance(rpn.take(0)) >= 2);
                assert(rpn.take(0) =~= Seq::<ExpressionComponent>::empty());
                assert(values.len() >= 2);
                let values2 = values.take(values.len() - 2).push(supplied[0]);
                lemma_valid_rpn_reduces(rest, values2, supplied.drop_first());
            },
            ExpressionComponent::Operator(_) => {
                assert(is_number(rpn[0]) || is_arithmetic(rpn[0]));
                assert(false);
            },
        }
    }
}

/// Sequences only grow at the back during the shunting yard, so earlier
/// prefixes are untouched.
proof fn lemma_push_keeps_prefixes(s: Seq<ExpressionComponent>, x: ExpressionComponent)
    ensures
        forall|i: int| 0 <= i <= s.len() ==> #[trigger] s.push(x).take(i) =~= s.take(i),
        s.push(x).drop_last() == s,
        s.push(x).last() == x,
{
    assert(s.push(x).drop_last() =~= s);
    assert forall|i: int| 0 <= i <= s.len() implies #[trigger] s.push(x).take(i) =~= s.take(
        i,
    ) by {}
}

/// Emitting one operator from the stack onto a prefix-valid output with
/// balance at least two keeps the output prefix-valid.
proof fn lemma_emit_operator(output: Seq<ExpressionComponent>, op: Operator)
    requires
        op matches Operator::ArithmeticOperator(_),
        no_parens(output),
        forall|i: int|
            0 <= i < output.len() && is_arithmetic(output[i]) ==> balance(output.take(i)) >= 2,
        balance(output) >= 2,
    ensures
        ({
            let output2 = output.push(ExpressionComponent::Operator(op));
            &&& no_parens(output2)
            &&& forall|i: int|
                0 <= i < output2.len() && is_arithmetic(output2[i]) ==> balance(output2.take(i))
                    >= 2
            &&& balance(output2) == balance(output) - 1
        }),
{
    let x = ExpressionComponent::Operator(op);
    let output2 = output.push(x);
    lemma_push_keeps_prefixes(output, x);
    assert(output2.take(output.len() as int) =~= output);
    assert forall|i: int| 0 <= i < output2.len() && is_arithmetic(output2[i]) implies balance(
        output2.take(i),
    ) >= 2 by {
        if i < output.len() {
            assert(output2[i] == output[i]);
            assert(output2.take(i) =~= output.take(i));
        } else {
            assert(output2.take(i) =~= output);
        }
    }
}

/// An arriving arithmetic operator leaves the stack and output sound:
/// higher-bound operators move to the output, the operator takes their
/// place, and the output expects an operand again.
proof fn lemma_push_operator_valid(
    stack: Seq<Operator>,
    output: Seq<ExpressionComponent>,
    incoming: crate::operator::ArithmeticOperator,
)
    requires
        stack_ok(stack),
        no_parens(output),
        forall|i: int|
            0 <= i < output.len() && is_arithmetic(output[i]) ==> balance(output.take(i)) >= 2,
        balance(output) == 1 + stack_operators(stack),
    ensures
        ({
            let (stack2, output2) = spec_push_operator(stack, output, incoming);
            &&& stack_ok(stack2)
            &&& no_parens(output2)
            &&& forall|i: int|
                0 <= i < output2.len() && is_arithmetic(output2[i]) ==> balance(output2.take(i))
                    >= 2
            &&& balance(output2) == stack_operators(stack2)
            &&& stack_parens(stack2) == stack_parens(stack)
        }),
    decreases stack.len(),
{
    if stack.len() > 0 && (stack.last() matches Operator::ArithmeticOperator(top)
        && crate::rpn::spec_pops_before(top, incoming)) {
        assert(stack_operators(stack) >= 1) by {
            assert(stack_operators(stack.drop_last()) >= 0) by {
                lemma_stack_counts_nonnegative(stack.drop_last());
            }
        }
        lemma_emit_operator(output, stack.last());
        lemma_push_operator_valid(
            stack.drop_last(),
            output.push(ExpressionComponent::Operator(stack.last())),
            incoming,
        );
    } else {
        let stack2 = stack.push(Operator::ArithmeticOperator(incoming));
        assert(stack2.drop_last() =~= stack);
        assert(forall|i: int| 0 <= i < stack.len() ==> stack2[i] == #[trigger] stack[i]);
    }
}

/// Operator and parenthesis counts of a stack are not negative.
proof fn lemma_stack_counts_nonnegative(stack: Seq<Operator>)
    ensures
        stack_operators(stack) >= 0,
        stack_parens(stack) >= 0,
    decreases stack.len(),
{
    if stack.len() > 0 {
        lemma_stack_counts_nonnegative(stack.drop_last());
    }
}

/// A closing parenthesis finds its opening one whenever the stack holds
/// any, and leaves the stack and output sound.
proof fn lemma_close_paren_valid(stack: Seq<Operator>, output: Seq<ExpressionComponent>)
    requires
        stack_ok(stack),
        stack_parens(stack) >= 1,
        no_parens(output),
        forall|i: int|
            0 <= i < output.len() && is_arithmetic(output[i]) ==> balance(output.take(i)) >= 2,
        balance(output) == 1 + stack_operators(stack),
    ensures
        ({
            let closed = spec_close_parenthesis(stack, output);
            &&& closed is Some
            &&& stack_ok(closed.unwrap().0)
            &&& no_parens(closed.unwrap().1)
            &&& forall|i: int|
                0 <= i < closed.unwrap().1.len() && is_arithmetic(closed.unwrap().1[i])
                    ==> balance(closed.unwrap().1.take(i)) >= 2
            &&& balance(closed.unwrap().1) == 1 + stack_operators(closed.unwrap().0)
            &&& stack_parens(closed.unwrap().0) == stack_parens(stack) - 1
        }),
    decreases stack.len(),
{
    assert(stack.len() > 0);
    assert(forall|i: int| 0 <= i < stack.len() - 1 ==> stack.drop_last()[i] == #[trigger] stack[i]);
    if stack.last() == Operator::LeftParenthesis {
    } else {
        assert(stack.last() matches Operator::ArithmeticOperator(_));
        assert(stack_operators(stack) >= 1) by {
            lemma_stack_counts_nonnegative(stack.drop_last());
        }
        lemma_emit_operator(output, stack.last());
        lemma_close_paren_valid(
            stack.drop_last(),
            output.push(ExpressionComponent::Operator(stack.last())),
        );
    }
}

/// Draining a parenthesis-free stack onto a sound output yields a valid
/// postfix sequence.
proof fn lemma_drain_valid(stack: Seq<Operator>, output: Seq<ExpressionComponent>)
    requires
        stack_ok(stack),
        stack_parens(stack) == 0,
        no_parens(output),
        forall|i: int|
            0 <= i < output.len() && is_arithmetic(output[i]) ==> balance(output.take(i)) >= 2,
        balance(output) == 1 + stack_operators(stack),
    ensures
        valid_rpn(spec_drain(stack, output)),
    decreases stack.len(),
{
    if stack.len() == 0 {
    } else {
        assert(forall|i: int|
            0 <= i < stack.len() - 1 ==> stack.drop_last()[i] == #[trigger] stack[i]);
        lemma_stack_counts_nonnegative(stack.drop_last());
        assert(stack.last() != Operator::LeftParenthesis);
        assert(stack.last() matches Operator::ArithmeticOperator(_));
        lemma_emit_operator(output, stack.last());
        lemma_drain_valid(stack.drop_last(), output.push(ExpressionComponent::Operator(stack.last())));
    }
}

/// The shunting yard succeeds on every well-formed remainder and yields a
/// valid postfix sequence.
proof fn lemma_shunt_wellformed(
    components: Seq<ExpressionComponent>,
    stack: Seq<Operator>,
    output: Seq<ExpressionComponent>,
    depth: int,
    expecting_operand: bool,
)
    requires
        spec_wellformed_from(components, depth, expecting_operand),
        stack_ok(stack),
        stack_parens(stack) == depth,
        no_parens(output),
        forall|i: int|
            0 <= i < output.len() && is_arithmetic(output[i]) ==> balance(output.take(i)) >= 2,
        balance(output) == (if expecting_operand {
            stack_operators(stack)
        } else {
            1 + stack_operators(stack)
        }),
    ensures
        spec_shunt(components, stack, output) is Some,
        valid_rpn(spec_shunt(components, stack, output).unwrap()),
    decreases components.len(),
{
    if components.len() == 0 {
        lemma_drain_valid(stack, output);
    } else {
        match components[0] {
            ExpressionComponent::Number(n) => {
                let x = ExpressionComponent::Number(n);
                lemma_push_keeps_prefixes(output, x);
                let output2 = output.push(x);
                assert forall|i: int|
                    0 <= i < output2.len() && is_arithmetic(output2[i]) implies balance(
                    output2.take(i),
                ) >= 2 by {
                    if i < output.len() {
                        assert(output2[i] == output[i]);
                        assert(output2.take(i) =~= output.take(i));
                    }
                }
                lemma_shunt_wellformed(components.drop_first(), stack, output2, depth, false);
            },
            ExpressionComponent::Operator(Operator::ArithmeticOperator(a)) => {
                lemma_push_operator_valid(stack, output, a);
                let (stack2, output2) = spec_push_operator(stack, output, a);
                lemma_shunt_wellformed(components.drop_first(), stack2, output2, depth, true);
            },
            ExpressionComponent::Operator(Operator::LeftParenthesis) => {
                let stack2 = stack.push(Operator::LeftParenthesis);
                assert(stack2.drop_last() =~= stack);
                assert(forall|i: int| 0 <= i < stack.len() ==> stack2[i] == #[trigger] stack[i]);
                lemma_shunt_wellformed(components.drop_first(), stack2, output, depth + 1, true);
            },
            ExpressionComponent::Operator(Operator::RightParenthesis) => {
                lemma_close_paren_valid(stack, output);
                let (stack2, output2) = spec_close_parenthesis(stack, output).unwrap();
                lemma_shunt_wellformed(components.drop_first(), stack2, output2, depth - 1, false);
            },
        }
    }
}

/// On a well-formed expression — balanced parentheses, operands and
/// operators alternating — evaluation cannot fail: the shunting yard
/// succeeds, and the reduction of its output reaches a single value
/// whenever at least one result per postfix component is supplied.
pub proof fn lemma_wellformed_expression_evaluates(
    components: Seq<ExpressionComponent>,
    supplied: Seq<u64>,
)
    requires
        spec_wellformed(components),
    ensures
        spec_to_rpn(components) is Some,
        supplied.len() >= spec_to_rpn(components).unwrap().len() ==> spec_rpn_outcome(
            spec_to_rpn(components).unwrap(),
            Seq::empty(),
            supplied,
        ) is Ok,
{
    lemma_shunt_wellformed(components, Seq::empty(), Seq::empty(), 0, true);
    let rpn = spec_to_rpn(components).unwrap();
    if supplied.len() >= rpn.len() {
        assert forall|i: int| 0 <= i < rpn.len() && is_arithmetic(rpn[i]) implies Seq::<
            u64,
        >::empty().len() + balance(rpn.take(i)) >= 2 by {}
        lemma_valid_rpn_reduces(rpn, Seq::empty(), supplied);
    }
}

} // verus!
