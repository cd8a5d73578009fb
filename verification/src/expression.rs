//! Expressions: token sequences parsed from text.
//!
//! A raw input line is split on single spaces; each substring, after
//! trimming, is either one of the seven operator tokens or a numeric
//! literal. The library cannot read a numeral's floating-point value
//! itself, so the caller decodes each trimmed token beforehand (`None`
//! when the token is not a valid literal) and hands the decoded bit
//! patterns to [`Expression::from_tokens`] alongside the tokens; decodings
//! of operator tokens are ignored. Which component each token becomes —
//! and which token, if any, is rejected — is fully specified here.

use vstd::prelude::*;

use crate::operator::{operator_of_char, spec_operator_of_char, Operator};
use crate::text::{lemma_split_at_space, lemma_split_no_space, spec_split, spec_trim, trim_token};
use vstd::string::StrSliceExecFns;

verus! {

/// The trimmed tokens of an input line: the line splits on single
/// spaces, and each substring is trimmed of surrounding whitespace.
pub open spec fn spec_tokenize(input: Seq<char>) -> Seq<Seq<char>> {
    spec_split(input).map_values(|t: Seq<char>| spec_trim(t))
}

/// One element of an expression: a number, carried as the bit pattern of
/// an IEEE-754 double, or an operator.
#[derive(Clone, Copy, Debug, PartialEq, Eq, Structural)]
pub enum ExpressionComponent {
    Number(u64),
    Operator(Operator),
}

/// A parsed expression: an ordered sequence of components, in the infix
/// order of the input. The sequence is not validated for well-formedness
/// here; a malformed sequence surfaces as an error during evaluation.
#[derive(Debug)]
pub struct Expression {
    pub components: Vec<ExpressionComponent>,
}

impl View for Expression {
    type V = Seq<ExpressionComponent>;

    open spec fn view(&self) -> Seq<ExpressionComponent> {
        self.components@
    }
}

/// Why evaluating an expression failed.
#[derive(Clone, Copy, Debug, PartialEq, Eq, Structural)]
pub enum ExpressionCalculationError {
    /// An unmatched closing parenthesis was met while reordering.
    MismatchedParenthesis,
    /// The postfix sequence was structurally invalid: an operator missing
    /// an operand, a stray parenthesis, or a final stack without exactly
    /// one value.
    RPNCalculation,
}

/// Why converting text into an [`Expression`] failed.
#[derive(Clone, Debug, PartialEq, Eq)]
pub enum ExpressionConversionError {
    /// A token is neither an operator symbol nor a valid numeric literal;
    /// the offending (trimmed) token is carried along.
    IllegalArgument(String),
}

/// The component a trimmed token denotes, given the caller's decoding of
/// the token as a numeric literal: a single operator character is that
/// operator; any other token is a number exactly when it decodes.
pub open spec fn spec_classify(token: Seq<char>, decoded: Option<u64>) -> Option<
    ExpressionComponent,
> {
    let op = if token.len() == 1 {
        spec_operator_of_char(token[0])
    } else {
        None
    };
    match op {
        Some(o) => Some(ExpressionComponent::Operator(o)),
        None => match decoded {
            Some(bits) => Some(ExpressionComponent::Number(bits)),
            None => None,
        },
    }
}

/// The component sequence of a token sequence, or the first token that
/// classifies as neither operator nor number.
pub open spec fn spec_from_tokens(tokens: Seq<Seq<char>>, decoded: Seq<Option<u64>>) -> Result<
    Seq<ExpressionComponent>,
    Seq<char>,
>
    decreases tokens.len(),
{
    if tokens.len() == 0 {
        Ok(Seq::empty())
    } else {
        match spec_classify(tokens[0], decoded[0]) {
            None => Err(tokens[0]),
            Some(c) => match spec_from_tokens(tokens.drop_first(), decoded.drop_first()) {
                Ok(rest) => Ok(seq![c] + rest),
                Err(bad) => Err(bad),
            },
        }
    }
}

/// Split an input line on single spaces and trim each substring: the
/// token list that [`Expression::from_tokens`] consumes.
pub fn tokenize(input: &str) -> (tokens: Vec<String>)
    ensures
        tokens@.len() == spec_tokenize(input@).len(),
        forall|i: int| 0 <= i < tokens@.len() ==> tokens@[i]@ == spec_tokenize(input@)[i],
{
    let n = input.unicode_len();
    let mut tokens: Vec<String> = Vec::new();
    let mut start: usize = 0;
    let ghost mut raw_done: Seq<Seq<char>> = Seq::empty();
    proof {
        assert(input@.skip(0) =~= input@);
        assert(Seq::<Seq<char>>::empty() + spec_split(input@) =~= spec_split(input@));
    }
    loop
        invariant_except_break
            start <= n,
            n == input@.len(),
            spec_split(input@) == raw_done + spec_split(input@.skip(start as int)),
            tokens@.len() == raw_done.len(),
            forall|i: int| 0 <= i < raw_done.len() ==> tokens@[i]@ == spec_trim(raw_done[i]),
        ensures
            tokens@.len() == spec_tokenize(input@).len(),
            forall|i: int| 0 <= i < tokens@.len() ==> tokens@[i]@ == spec_tokenize(input@)[i],
        decreases n - start,
    {
        let mut end: usize = start;
        while end < n && input.get_char(end) != ' '
            invariant
                start <= end <= n,
                n == input@.len(),
                forall|k: int| start <= k < end ==> input@[k] != ' ',
            decreases n - end,
        {
            end = end + 1;
        }
        let t = trim_token(input, start, end);
        tokens.push(t);
        proof {
            let raw = input@.subrange(start as int, end as int);
            let tail = input@.skip(start as int);
            assert(forall|k: int| 0 <= k < end - start ==> tail[k] != ' ');
            if end < n {
                lemma_split_at_space(tail, end - start);
                assert(tail.take(end - start) =~= raw);
                assert(tail.skip(end - start + 1) =~= input@.skip(end as int + 1));
            } else {
                lemma_split_no_space(tail);
                assert(tail =~= raw);
            }
            let prev_done = raw_done;
            raw_done = raw_done.push(raw);
            if end < n {
                assert(prev_done + (seq![raw] + spec_split(input@.skip(end as int + 1)))
                    =~= raw_done + spec_split(input@.skip(end as int + 1)));
            } else {
                assert(prev_done + seq![raw] =~= raw_done);
                assert(spec_split(input@) == raw_done);
            }
        }
        if end == n {
            proof {
                assert(spec_tokenize(input@).len() == raw_done.len());
                assert(forall|i: int| 0 <= i < raw_done.len() ==> spec_tokenize(input@)[i]
                    == spec_trim(raw_done[i]));
            }
            break ;
        }
        start = end + 1;
    }
    tokens
}

impl Expression {
    /// Build an expression from trimmed tokens and the caller's decoding
    /// of each token as a numeric literal. Fails with `IllegalArgument`,
    /// carrying the first offending token, exactly when some token is
    /// neither an operator symbol nor a decoded number.
    #[verifier::loop_isolation(false)]
    pub fn from_tokens(tokens: &Vec<String>, decoded: &Vec<Option<u64>>) -> (r: Result<
        Expression,
        ExpressionConversionError,
    >)
        requires
            tokens@.len() == decoded@.len(),
        ensures
            ({
                let toks = tokens@.map_values(|t: String| t@);
                match spec_from_tokens(toks, decoded@) {
                    Ok(cs) => r matches Ok(e) && e@ == cs,
                    Err(bad) => r matches Err(ExpressionConversionError::IllegalArgument(s))
                        && s@ == bad,
                }
            }),
    {
        let ghost toks = tokens@.map_values(|t: String| t@);
        let mut components: Vec<ExpressionComponent> = Vec::new();
        let mut i: usize = 0;
        proof {
            assert(toks.skip(0) =~= toks);
            assert(decoded@.skip(0) =~= decoded@);
            match spec_from_tokens(toks, decoded@) {
                Ok(rest) => {
                    assert(Seq::<ExpressionComponent>::empty() + rest =~= rest);
                },
                Err(_) => {},
            }
        }
        while i < tokens.len()
            invariant
                i <= tokens@.len(),
                tokens@.len() == decoded@.len(),
                toks == tokens@.map_values(|t: String| t@),
                components@.len() == i,
                (match spec_from_tokens(toks.skip(i as int), decoded@.skip(i as int)) {
                    Ok(rest) => spec_from_tokens(toks, decoded@) == Ok::<_, Seq<char>>(
                        components@ + rest,
                    ),
                    Err(bad) => spec_from_tokens(toks, decoded@) == Err::<
                        Seq<ExpressionComponent>,
                        _,
                    >(bad),
                }),
            decreases tokens@.len() - i,
        {
            let token = &tokens[i];
            let ghost prev_components = components@;
            proof {
                assert(toks[i as int] == token@);
                assert(toks.skip(i as int)[0] == toks[i as int]);
                assert(toks.skip(i as int).drop_first() =~= toks.skip(i as int + 1));
                assert(decoded@.skip(i as int)[0] == decoded@[i as int]);
                assert(decoded@.skip(i as int).drop_first() =~= decoded@.skip(i as int + 1));
            }
            let op = if token.unicode_len() == 1 {
                operator_of_char(token.get_char(0))
            } else {
                None
            };
            match op {
                Some(o) => components.push(ExpressionComponent::Operator(o)),
                None => match decoded[i] {
                    Some(bits) => components.push(ExpressionComponent::Number(bits)),
                    None => {
                        return Err(ExpressionConversionError::IllegalArgument(token.clone()));
                    },
                },
            }
            proof {
                match spec_classify(toks[i as int], decoded@[i as int]) {
                    Some(c) => {
                        assert(components@ =~= prev_components.push(c));
                        match spec_from_tokens(toks.skip(i as int + 1), decoded@.skip(i as int + 1)) {
                            Ok(rest) => {
                                assert(prev_components + (seq![c] + rest) =~= components@ + rest);
                            },
                            Err(_) => {},
                        }
                    },
                    None => {
                        assert(false);
                    },
                }
            }
            i += 1;
        }
        proof {
            assert(toks.skip(i as int) =~= Seq::empty());
            assert(decoded@.skip(i as int) =~= Seq::empty());
            assert(components@ + Seq::<ExpressionComponent>::empty() =~= components@);
        }
        Ok(Expression { components })
    }
}

} // verus!
