//! Infix-to-postfix reordering (shunting yard) and postfix reduction.
//!
//! [`Expression::to_rpn`] reorders an expression's components into
//! postfix (Reverse Polish Notation) order, enforcing precedence and
//! associativity and detecting unmatched closing parentheses. The postfix
//! sequence is then reduced by [`RpnEvaluation`], a stepped stack machine:
//! the machine performs every structural decision itself, and hands each
//! pending arithmetic operation to the caller, who computes it on the
//! decoded doubles and supplies the result's bit pattern back.

use vstd::prelude::*;

use crate::expression::{Expression, ExpressionCalculationError, ExpressionComponent};
use crate::operator::{
    spec_associativity, spec_precedence, ArithmeticOperator, Associativity, Operator,
};

verus! {

/// Whether the operator `top`, atop the stack, leaves the stack before
/// `incoming` is pushed: it does when it binds stronger, or equally
/// strong while `incoming` groups to the left.
pub open spec fn spec_pops_before(top: ArithmeticOperator, incoming: ArithmeticOperator) -> bool {
    spec_precedence(top) > spec_precedence(incoming) || (spec_precedence(top) == spec_precedence(
        incoming,
    ) && spec_associativity(incoming) == Associativity::Left)
}

/// The stack and output after an arithmetic operator arrives: operators
/// that pop before it move to the output in pop order, then it is pushed.
pub open spec fn spec_push_operator(
    stack: Seq<Operator>,
    output: Seq<ExpressionComponent>,
    incoming: ArithmeticOperator,
) -> (Seq<Operator>, Seq<ExpressionComponent>)
    decreases stack.len(),
{
    if stack.len() > 0 && (stack.last() matches Operator::ArithmeticOperator(top)
        && spec_pops_before(top, incoming)) {
        spec_push_operator(
            stack.drop_last(),
            output.push(ExpressionComponent::Operator(stack.last())),
            incoming,
        )
    } else {
        (stack.push(Operator::ArithmeticOperator(incoming)), output)
    }
}

/// The stack and output after a closing parenthesis arrives: operators
/// move to the output until an opening parenthesis is found and
/// discarded; `None` when the stack empties first.
pub open spec fn spec_close_parenthesis(
    stack: Seq<Operator>,
    output: Seq<ExpressionComponent>,
) -> Option<(Seq<Operator>, Seq<ExpressionComponent>)>
    decreases stack.len(),
{
    if stack.len() == 0 {
        None
    } else if stack.last() == Operator::LeftParenthesis {
        Some((stack.drop_last(), output))
    } else {
        spec_close_parenthesis(
            stack.drop_last(),
            output.push(ExpressionComponent::Operator(stack.last())),
        )
    }
}

/// The output after the pass ends: the remaining stack is flushed onto
/// the output in pop order, opening parentheses included.
pub open spec fn spec_drain(stack: Seq<Operator>, output: Seq<ExpressionComponent>) -> Seq<
    ExpressionComponent,
>
    decreases stack.len(),
{
    if stack.len() == 0 {
        output
    } else {
        spec_drain(stack.drop_last(), output.push(ExpressionComponent::Operator(stack.last())))
    }
}

/// One step of the shunting yard: how one component changes the stack
/// and the output; `None` on an unmatched closing parenthesis.
pub open spec fn spec_shunt_step(
    stack: Seq<Operator>,
    output: Seq<ExpressionComponent>,
    component: ExpressionComponent,
) -> Option<(Seq<Operator>, Seq<ExpressionComponent>)> {
    match component {
        ExpressionComponent::Number(_) => Some((stack, output.push(component))),
        ExpressionComponent::Operator(op) => match op {
            Operator::ArithmeticOperator(a) => Some(spec_push_operator(stack, output, a)),
            Operator::LeftParenthesis => Some((stack.push(op), output)),
            Operator::RightParenthesis => spec_close_parenthesis(stack, output),
        },
    }
}

/// The postfix order of `components`, processed left to right from the
/// given stack and output; `None` on an unmatched closing parenthesis.
pub open spec fn spec_shunt(
    components: Seq<ExpressionComponent>,
    stack: Seq<Operator>,
    output: Seq<ExpressionComponent>,
) -> Option<Seq<ExpressionComponent>>
    decreases components.len(),
{
    if components.len() == 0 {
        Some(spec_drain(stack, output))
    } else {
        match spec_shunt_step(stack, output, components[0]) {
            Some(so) => spec_shunt(components.drop_first(), so.0, so.1),
            None => None,
        }
    }
}

/// The postfix order of an expression's components, or `None` when an
/// unmatched closing parenthesis is met.
pub open spec fn spec_to_rpn(components: Seq<ExpressionComponent>) -> Option<
    Seq<ExpressionComponent>,
> {
    spec_shunt(components, Seq::empty(), Seq::empty())
}

impl Expression {
    /// Reorder the components from infix to postfix order with the
    /// shunting-yard algorithm. Returns `MismatchedParenthesis` exactly
    /// when a closing parenthesis finds no opening one; an unmatched
    /// opening parenthesis is flushed into the output instead and is
    /// rejected only by the reduction.
    pub fn to_rpn(&self) -> (r: Result<Vec<ExpressionComponent>, ExpressionCalculationError>)
        ensures
            match r {
                Ok(rpn) => spec_to_rpn(self@) == Some(rpn@),
                Err(e) => spec_to_rpn(self@) is None && e
                    == ExpressionCalculationError::MismatchedParenthesis,
            },
    {
        let mut rpn_components: Vec<ExpressionComponent> = Vec::new();
        let mut operator_stack: Vec<Operator> = Vec::new();
        let n = self.components.len();
        let mut i: usize = 0;
        proof {
            assert(self@.skip(0) =~= self@);
        }
        while i < n
            invariant
                i <= n,
                n == self@.len(),
                spec_shunt(self@.skip(i as int), operator_stack@, rpn_components@) == spec_to_rpn(
                    self@,
                ),
                forall|k: int|
                    0 <= k < operator_stack@.len() ==> operator_stack@[k]
                        != Operator::RightParenthesis,
            decreases n - i,
        {
            proof {
                assert(self@.skip(i as int)[0] == self@[i as int]);
                assert(self@.skip(i as int).drop_first() =~= self@.skip(i as int + 1));
            }
            let component = self.components[i];
            match component {
                ExpressionComponent::Number(_) => rpn_components.push(component),
                ExpressionComponent::Operator(operator) => match operator {
                    Operator::ArithmeticOperator(arithmetic_operator) => {
                        let ghost entry_stack = operator_stack@;
                        let ghost entry_output = rpn_components@;
                        loop
                            invariant
                                spec_push_operator(
                                    operator_stack@,
                                    rpn_components@,
                                    arithmetic_operator,
                                ) == spec_push_operator(
                                    entry_stack,
                                    entry_output,
                                    arithmetic_operator,
                                ),
                                forall|k: int|
                                    0 <= k < operator_stack@.len() ==> operator_stack@[k]
                                        != Operator::RightParenthesis,
                            ensures
                                spec_push_operator(
                                    entry_stack,
                                    entry_output,
                                    arithmetic_operator,
                                ) == (
                                    operator_stack@.push(
                                        Operator::ArithmeticOperator(arithmetic_operator),
                                    ),
                                    rpn_components@,
                                ),
                                forall|k: int|
                                    0 <= k < operator_stack@.len() ==> operator_stack@[k]
                                        != Operator::RightParenthesis,
                            decreases operator_stack@.len(),
                        {
                            if operator_stack.len() == 0 {
                                break ;
                            }
                            let last_operator = operator_stack[operator_stack.len() - 1];
                            if last_operator == Operator::LeftParenthesis {
                                break ;
                            }
                            let last_arithmetic_operator = match last_operator {
                                Operator::ArithmeticOperator(a) => a,
                                _ => {
                                    // The stack never holds a closing parenthesis.
                                    proof {
                                        assert(false);
                                    }
                                    return Err(ExpressionCalculationError::MismatchedParenthesis);
                                },
                            };
                            let pop = last_arithmetic_operator.precedence()
                                > arithmetic_operator.precedence() || (
                            last_arithmetic_operator.precedence()
                                == arithmetic_operator.precedence()
                                && arithmetic_operator.associativity() == Associativity::Left);
                            if !pop {
                                break ;
                            }
                            let popped = operator_stack.pop().unwrap();
                            rpn_components.push(ExpressionComponent::Operator(popped));
                        }
                        operator_stack.push(operator);
                    },
                    Operator::RightParenthesis => {
                        let ghost entry_stack = operator_stack@;
                        let ghost entry_output = rpn_components@;
                        let mut mismatched = false;
                        loop
                            invariant_except_break
                                !mismatched,
                                spec_close_parenthesis(operator_stack@, rpn_components@)
                                    == spec_close_parenthesis(entry_stack, entry_output),
                                forall|k: int|
                                    0 <= k < operator_stack@.len() ==> operator_stack@[k]
                                        != Operator::RightParenthesis,
                            ensures
                                forall|k: int|
                                    0 <= k < operator_stack@.len() ==> operator_stack@[k]
                                        != Operator::RightParenthesis,
                                (if mismatched {
                                    spec_close_parenthesis(entry_stack, entry_output) is None
                                } else {
                                    spec_close_parenthesis(entry_stack, entry_output) == Some(
                                        (operator_stack@, rpn_components@),
                                    )
                                }),
                            decreases operator_stack@.len(),
                        {
                            if operator_stack.len() == 0 {
                                mismatched = true;
                                break ;
                            }
                            let last_operator = operator_stack[operator_stack.len() - 1];
                            if last_operator == Operator::LeftParenthesis {
                                operator_stack.pop().unwrap();
                                break ;
                            }
                            let popped = operator_stack.pop().unwrap();
                            rpn_components.push(ExpressionComponent::Operator(popped));
                        }
                        if mismatched {
                            return Err(ExpressionCalculationError::MismatchedParenthesis);
                        }
                    },
                    Operator::LeftParenthesis => operator_stack.push(operator),
                },
            }
            i += 1;
        }
        proof {
            assert(self@.skip(n as int) =~= Seq::empty());
        }
        let ghost entry_stack = operator_stack@;
        let ghost entry_output = rpn_components@;
        while operator_stack.len() != 0
            invariant
                spec_drain(operator_stack@, rpn_components@) == spec_drain(
                    entry_stack,
                    entry_output,
                ),
            decreases operator_stack@.len(),
        {
            let popped = operator_stack.pop().unwrap();
            rpn_components.push(ExpressionComponent::Operator(popped));
        }
        Ok(rpn_components)
    }
}

/// What one advance of the evaluation machine reports.
#[derive(Clone, Copy, Debug, PartialEq, Eq, Structural)]
pub enum EvalStep {
    /// A number moved onto the value stack.
    Proceed,
    /// Two operands were popped for the operator; the caller must compute
    /// the operation on them and hand the result to
    /// [`RpnEvaluation::supply`]. The first operand is the left-hand one.
    Apply(ArithmeticOperator, u64, u64),
    /// Every component is consumed and exactly one value remains: the
    /// expression's result.
    Done(u64),
    /// The postfix sequence is structurally invalid.
    Error(ExpressionCalculationError),
}

/// What the next advance does from a machine state: which step it
/// reports, and the position, value stack and pending flag it leaves.
pub open spec fn spec_transition(
    rpn: Seq<ExpressionComponent>,
    position: int,
    values: Seq<u64>,
) -> (int, Seq<u64>, bool, EvalStep) {
    if position == rpn.len() {
        if values.len() == 1 {
            (position, values, false, EvalStep::Done(values[0]))
        } else {
            (
                position,
                values,
                false,
                EvalStep::Error(ExpressionCalculationError::RPNCalculation),
            )
        }
    } else {
        match rpn[position] {
            ExpressionComponent::Number(n) => (
                position + 1,
                values.push(n),
                false,
                EvalStep::Proceed,
            ),
            ExpressionComponent::Operator(Operator::ArithmeticOperator(op)) => if values.len()
                >= 2 {
                (
                    position + 1,
                    values.take(values.len() - 2),
                    true,
                    EvalStep::Apply(
                        op,
                        values[values.len() - 2],
                        values[values.len() - 1],
                    ),
                )
            } else {
                (
                    position,
                    values,
                    false,
                    EvalStep::Error(ExpressionCalculationError::RPNCalculation),
                )
            },
            ExpressionComponent::Operator(_) => (
                position,
                values,
                false,
                EvalStep::Error(ExpressionCalculationError::RPNCalculation),
            ),
        }
    }
}

/// The stack machine that reduces a postfix sequence to one value.
///
/// The caller alternates [`advance`](RpnEvaluation::advance) with, after
/// each [`EvalStep::Apply`], one [`supply`](RpnEvaluation::supply) of the
/// computed result. Every transition is an exact function of the state,
/// so the machine keeps no hidden state across steps.
pub struct RpnEvaluation {
    rpn: Vec<ExpressionComponent>,
    position: usize,
    values: Vec<u64>,
    awaiting: bool,
}

impl RpnEvaluation {
    /// The postfix sequence under reduction.
    pub closed spec fn rpn_seq(&self) -> Seq<ExpressionComponent> {
        self.rpn@
    }

    /// How many components are consumed.
    pub closed spec fn pos(&self) -> int {
        self.position as int
    }

    /// The value stack, bottom first.
    pub closed spec fn value_stack(&self) -> Seq<u64> {
        self.values@
    }

    /// Whether an `Apply` step is pending its `supply`.
    pub closed spec fn awaiting_result(&self) -> bool {
        self.awaiting
    }

    pub open spec fn wf(&self) -> bool {
        0 <= self.pos() <= self.rpn_seq().len()
    }

    /// A fresh machine over a postfix sequence.
    pub fn new(rpn: Vec<ExpressionComponent>) -> (m: Self)
        ensures
            m.wf(),
            m.rpn_seq() == rpn@,
            m.pos() == 0,
            m.value_stack() == Seq::<u64>::empty(),
            !m.awaiting_result(),
    {
        RpnEvaluation { rpn, position: 0, values: Vec::new(), awaiting: false }
    }

    /// Whether the machine waits for a result before it can advance.
    pub fn is_awaiting(&self) -> (b: bool)
        ensures
            b == self.awaiting_result(),
    {
        self.awaiting
    }

    /// Consume the next component, or report the outcome: exactly the
    /// transition [`spec_transition`] describes.
    pub fn advance(&mut self) -> (step: EvalStep)
        requires
            old(self).wf(),
            !old(self).awaiting_result(),
        ensures
            final(self).wf(),
            final(self).rpn_seq() == old(self).rpn_seq(),
            (final(self).pos(), final(self).value_stack(), final(self).awaiting_result(), step)
                == spec_transition(old(self).rpn_seq(), old(self).pos(), old(self).value_stack()),
    {
        if self.position == self.rpn.len() {
            if self.values.len() == 1 {
                EvalStep::Done(self.values[0])
            } else {
                EvalStep::Error(ExpressionCalculationError::RPNCalculation)
            }
        } else {
            let component = self.rpn[self.position];
            match component {
                ExpressionComponent::Number(n) => {
                    self.position += 1;
                    self.values.push(n);
                    EvalStep::Proceed
                },
                ExpressionComponent::Operator(Operator::ArithmeticOperator(op)) => {
                    if self.values.len() >= 2 {
                        let second = self.values.pop().unwrap();
                        let first = self.values.pop().unwrap();
                        proof {
                            assert(self.values@ =~= old(self).value_stack().take(
                                old(self).value_stack().len() - 2,
                            ));
                        }
                        self.position += 1;
                        self.awaiting = true;
                        EvalStep::Apply(op, first, second)
                    } else {
                        EvalStep::Error(ExpressionCalculationError::RPNCalculation)
                    }
                },
                ExpressionComponent::Operator(_) => EvalStep::Error(
                    ExpressionCalculationError::RPNCalculation,
                ),
            }
        }
    }

    /// Hand back the result of the pending operation; it moves onto the
    /// value stack.
    pub fn supply(&mut self, result: u64)
        requires
            old(self).wf(),
            old(self).awaiting_result(),
        ensures
            final(self).wf(),
            final(self).rpn_seq() == old(self).rpn_seq(),
            final(self).pos() == old(self).pos(),
            final(self).value_stack() == old(self).value_stack().push(result),
            !final(self).awaiting_result(),
    {
        self.values.push(result);
        self.awaiting = false;
    }
}

/// The outcome of reducing `rpn` from the value stack `values` when the
/// caller hands back `supplied` as the operator results, in order: the
/// single value left at the end, or `RPNCalculation` when an operator
/// misses an operand, a parenthesis survives into the postfix sequence,
/// or the final stack does not hold exactly one value.
pub open spec fn spec_rpn_outcome(
    rpn: Seq<ExpressionComponent>,
    values: Seq<u64>,
    supplied: Seq<u64>,
) -> Result<u64, ExpressionCalculationError>
    decreases rpn.len(),
{
    if rpn.len() == 0 {
        if values.len() == 1 {
            Ok(values[0])
        } else {
            Err(ExpressionCalculationError::RPNCalculation)
        }
    } else {
        match rpn[0] {
            ExpressionComponent::Number(n) => spec_rpn_outcome(
                rpn.drop_first(),
                values.push(n),
                supplied,
            ),
            ExpressionComponent::Operator(Operator::ArithmeticOperator(_)) => if values.len() >= 2
                && supplied.len() >= 1 {
                spec_rpn_outcome(
                    rpn.drop_first(),
                    values.take(values.len() - 2).push(supplied[0]),
                    supplied.drop_first(),
                )
            } else {
                Err(ExpressionCalculationError::RPNCalculation)
            },
            ExpressionComponent::Operator(_) => Err(ExpressionCalculationError::RPNCalculation),
        }
    }
}

/// Each machine transition preserves the reduction's outcome: a step of
/// [`RpnEvaluation::advance`] — followed, after an `Apply`, by the
/// [`RpnEvaluation::supply`] of its result — reduces what is left to the
/// outcome [`spec_rpn_outcome`] gives for what was there before.
pub proof fn lemma_transition_preserves_outcome(
    rpn: Seq<ExpressionComponent>,
    position: int,
    values: Seq<u64>,
    supplied: Seq<u64>,
)
    requires
        0 <= position <= rpn.len(),
    ensures
        ({
            let (new_position, new_values, awaiting, step) = spec_transition(
                rpn,
                position,
                values,
            );
            match step {
                EvalStep::Proceed => spec_rpn_outcome(rpn.skip(position), values, supplied)
                    == spec_rpn_outcome(rpn.skip(new_position), new_values, supplied),
                EvalStep::Apply(op, a, b) => supplied.len() >= 1 ==> spec_rpn_outcome(
                    rpn.skip(position),
                    values,
                    supplied,
                ) == spec_rpn_outcome(
                    rpn.skip(new_position),
                    new_values.push(supplied[0]),
                    supplied.drop_first(),
                ),
                EvalStep::Done(v) => spec_rpn_outcome(rpn.skip(position), values, supplied)
                    == Ok::<u64, ExpressionCalculationError>(v),
                EvalStep::Error(e) => spec_rpn_outcome(rpn.skip(position), values, supplied)
                    == Err::<u64, ExpressionCalculationError>(e),
            }
        }),
{
    if position < rpn.len() {
        assert(rpn.skip(position)[0] == rpn[position]);
        assert(rpn.skip(position).drop_first() =~= rpn.skip(position + 1));
    } else {
        assert(rpn.skip(position) =~= Seq::<ExpressionComponent>::empty());
    }
}

/// Evaluation keeps no hidden state: the postfix order is a function of
/// the components alone, and the reduction's outcome is a function of the
/// postfix sequence and the operator results handed back alone — so
/// evaluating the same expression twice, with the same results supplied,
/// yields identical outcomes.
pub proof fn lemma_evaluation_deterministic(
    components1: Seq<ExpressionComponent>,
    supplied1: Seq<u64>,
    components2: Seq<ExpressionComponent>,
    supplied2: Seq<u64>,
)
    requires
        components1 == components2,
        supplied1 == supplied2,
    ensures
        spec_to_rpn(components1) == spec_to_rpn(components2),
        (match (spec_to_rpn(components1), spec_to_rpn(components2)) {
            (Some(rpn1), Some(rpn2)) => spec_rpn_outcome(rpn1, Seq::empty(), supplied1)
                == spec_rpn_outcome(rpn2, Seq::empty(), supplied2),
            (None, None) => true,
            _ => false,
        }),
{
}

} // verus!
