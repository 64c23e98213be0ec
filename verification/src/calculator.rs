//! Reordering to postfix and stack evaluation.
//!
//! [`shunting_yard`] turns the lexer's infix token stream into postfix
//! (reverse Polish) order with one auxiliary operator stack; [`calculate`]
//! folds a postfix stream with one numeric stack; [`evaluate`] chains the
//! lexer and the two.  The numeric work itself — reading a literal and
//! applying an operator — is supplied by the caller through the
//! [`Arithmetic`] trait, so the reordering and the stack discipline are
//! verified for any arithmetic whatever.

use vstd::multiset::Multiset;
use vstd::prelude::*;

use crate::error::{Error, SpecError};
use crate::lexer::{spec_tokenize, tokenize};
use crate::token::{
    associativity_of, is_operator_kind, precedence_of, Associativity, SpecToken, Token, TokenType,
};

verus! {

/// The numeric side of the evaluator: how a numeric lexeme becomes a value
/// and what an operator does to two values.  The library states nothing
/// about the results; a caller working in IEEE-754 implements the trait
/// over its own number type.
pub trait Arithmetic: Sized {
    /// The value a numeric lexeme denotes.  `calculate` only passes
    /// lexemes that match the numeric grammar of
    /// [`crate::token::is_number_lexeme`].
    fn from_lexeme(lexeme: &str) -> Self;

    /// The value of `left op right`.  `calculate` only passes operator
    /// kinds, in the sense of [`crate::token::is_operator_kind`].
    fn apply(op: TokenType, left: Self, right: Self) -> Self;
}

/// The shunting-yard pop rule: an incoming operator sends the stack's top
/// to the output while the top binds more tightly, or equally tightly and
/// groups to the left.  A parenthesis on the stack ranks zero, so an
/// operator never pops it.
pub open spec fn stack_should_pop(top: SpecToken, incoming: SpecToken) -> bool {
    ||| precedence_of(top.kind) > precedence_of(incoming.kind)
    ||| (precedence_of(top.kind) == precedence_of(incoming.kind) && associativity_of(top.kind)
        == Associativity::Left)
}

/// The postfix tokens still to be produced from the remaining `input` and
/// the current operator `stack`.  Numbers pass straight through; an
/// operator first pops by [`stack_should_pop`]; a closing parenthesis pops
/// down to its opening partner and the pair vanishes; at the end of the
/// input the stack drains, and an opening parenthesis met then was never
/// closed.
pub open spec fn spec_shunt(input: Seq<SpecToken>, stack: Seq<SpecToken>) -> Result<
    Seq<SpecToken>,
    SpecError,
>
    decreases input.len(), stack.len(),
{
    if input.len() == 0 {
        if stack.len() == 0 {
            Ok(Seq::empty())
        } else if stack.last().kind == TokenType::OpeningParen {
            Err(SpecError::UnmatchedOpeningParen)
        } else {
            match spec_shunt(input, stack.drop_last()) {
                Ok(out) => Ok(seq![stack.last()] + out),
                Err(e) => Err(e),
            }
        }
    } else {
        let t = input[0];
        let rest = input.drop_first();
        if t.kind == TokenType::Number {
            match spec_shunt(rest, stack) {
                Ok(out) => Ok(seq![t] + out),
                Err(e) => Err(e),
            }
        } else if t.kind == TokenType::OpeningParen {
            spec_shunt(rest, stack.push(t))
        } else if t.kind == TokenType::ClosingParen {
            if stack.len() == 0 {
                Err(SpecError::UnmatchedClosingParen)
            } else if stack.last().kind == TokenType::OpeningParen {
                spec_shunt(rest, stack.drop_last())
            } else {
                match spec_shunt(input, stack.drop_last()) {
                    Ok(out) => Ok(seq![stack.last()] + out),
                    Err(e) => Err(e),
                }
            }
        } else {
            if stack.len() > 0 && stack_should_pop(stack.last(), t) {
                match spec_shunt(input, stack.drop_last()) {
                    Ok(out) => Ok(seq![stack.last()] + out),
                    Err(e) => Err(e),
                }
            } else {
                spec_shunt(rest, stack.push(t))
            }
        }
    }
}

/// Reorders an infix token stream into postfix order, exactly as
/// [`spec_shunt`] from an empty stack describes it.
pub fn shunting_yard(tokens: &Vec<Token>) -> (r: Result<Vec<Token>, Error>)
    ensures
        match r {
            Ok(v) => spec_shunt(tokens.deep_view(), Seq::empty()) == Ok::<
                Seq<SpecToken>,
                SpecError,
            >(v.deep_view()),
            Err(e) => spec_shunt(tokens.deep_view(), Seq::empty()) == Err::<
                Seq<SpecToken>,
                SpecError,
            >(e@),
        },
{
    let ghost input = tokens.deep_view();
    let mut reverse_notation: Vec<Token> = Vec::new();
    let mut stack: Vec<Token> = Vec::new();
    let mut i: usize = 0;
    proof {
        assert(input.skip(0) =~= input);
        assert(reverse_notation.deep_view() =~= Seq::<SpecToken>::empty());
        assert(stack.deep_view() =~= Seq::<SpecToken>::empty());
    }
    while i < tokens.len()
        invariant
            i <= tokens.len(),
            input == tokens.deep_view(),
            match spec_shunt(input.skip(i as int), stack.deep_view()) {
                Ok(rest) => spec_shunt(input, Seq::empty()) == Ok::<Seq<SpecToken>, SpecError>(
                    reverse_notation.deep_view() + rest,
                ),
                Err(e) => spec_shunt(input, Seq::empty()) == Err::<Seq<SpecToken>, SpecError>(e),
            },
        decreases tokens.len() - i,
    {
        let ghost remaining = input.skip(i as int);
        let t = &tokens[i];
        proof {
            assert(remaining.len() > 0);
            assert(remaining[0] == t.deep_view());
            assert(remaining.drop_first() =~= input.skip(i as int + 1));
        }
        let tt = t.get_type();
        if tt == TokenType::Number {
            let ghost prefix = reverse_notation.deep_view();
            reverse_notation.push(t.clone());
            proof {
                assert(reverse_notation.deep_view() =~= prefix.push(t@));
                if let Ok(rest) = spec_shunt(input.skip(i as int + 1), stack.deep_view()) {
                    assert(prefix.push(t@) + rest =~= prefix + (seq![t@] + rest));
                }
            }
        } else if tt == TokenType::OpeningParen {
            let ghost st = stack.deep_view();
            stack.push(t.clone());
            proof {
                assert(stack.deep_view() =~= st.push(t@));
            }
        } else if tt == TokenType::ClosingParen {
            while stack.len() > 0 && stack[stack.len() - 1].get_type() != TokenType::OpeningParen
                invariant
                    i < tokens.len(),
                    input == tokens.deep_view(),
                    input.skip(i as int)[0].kind == TokenType::ClosingParen,
                    match spec_shunt(input.skip(i as int), stack.deep_view()) {
                        Ok(rest) => spec_shunt(input, Seq::empty()) == Ok::<
                            Seq<SpecToken>,
                            SpecError,
                        >(reverse_notation.deep_view() + rest),
                        Err(e) => spec_shunt(input, Seq::empty()) == Err::<
                            Seq<SpecToken>,
                            SpecError,
                        >(e),
                    },
                decreases stack.len(),
            {
                let ghost st = stack.deep_view();
                let ghost prefix = reverse_notation.deep_view();
                let popped = stack.pop().unwrap();
                reverse_notation.push(popped);
                proof {
                    assert(stack.deep_view() =~= st.drop_last());
                    assert(reverse_notation.deep_view() =~= prefix.push(st.last()));
                    if let Ok(rest) = spec_shunt(input.skip(i as int), stack.deep_view()) {
                        assert(prefix.push(st.last()) + rest =~= prefix + (seq![st.last()]
                            + rest));
                    }
                }
            }
            if stack.len() == 0 {
                return Err(Error::UnmatchedClosingParen);
            }
            let ghost st = stack.deep_view();
            let ghost remaining2 = input.skip(i as int);
            proof {
                assert(remaining2.drop_first() =~= input.skip(i as int + 1));
            }
            stack.pop();
            proof {
                assert(stack.deep_view() =~= st.drop_last());
            }
        } else {
            while stack.len() > 0 && (stack[stack.len() - 1].get_precedence()
                > t.get_precedence() || (stack[stack.len() - 1].get_precedence()
                == t.get_precedence() && stack[stack.len() - 1].get_associativity()
                == Associativity::Left))
                invariant
                    i < tokens.len(),
                    input == tokens.deep_view(),
                    input.skip(i as int)[0] == t.deep_view(),
                    is_operator_kind(t@.kind),
                    match spec_shunt(input.skip(i as int), stack.deep_view()) {
                        Ok(rest) => spec_shunt(input, Seq::empty()) == Ok::<
                            Seq<SpecToken>,
                            SpecError,
                        >(reverse_notation.deep_view() + rest),
                        Err(e) => spec_shunt(input, Seq::empty()) == Err::<
                            Seq<SpecToken>,
                            SpecError,
                        >(e),
                    },
                decreases stack.len(),
            {
                let ghost st = stack.deep_view();
                let ghost prefix = reverse_notation.deep_view();
                let popped = stack.pop().unwrap();
                reverse_notation.push(popped);
                proof {
                    assert(stack.deep_view() =~= st.drop_last());
                    assert(reverse_notation.deep_view() =~= prefix.push(st.last()));
                    if let Ok(rest) = spec_shunt(input.skip(i as int), stack.deep_view()) {
                        assert(prefix.push(st.last()) + rest =~= prefix + (seq![st.last()]
                            + rest));
                    }
                }
            }
            let ghost st = stack.deep_view();
            let ghost remaining2 = input.skip(i as int);
            proof {
                assert(remaining2.drop_first() =~= input.skip(i as int + 1));
            }
            stack.push(t.clone());
            proof {
                assert(stack.deep_view() =~= st.push(t@));
            }
        }
        i = i + 1;
    }
    proof {
        assert(input.skip(tokens.len() as int) =~= Seq::<SpecToken>::empty());
    }
    while stack.len() > 0
        invariant
            input == tokens.deep_view(),
            match spec_shunt(Seq::empty(), stack.deep_view()) {
                Ok(rest) => spec_shunt(input, Seq::empty()) == Ok::<Seq<SpecToken>, SpecError>(
                    reverse_notation.deep_view() + rest,
                ),
                Err(e) => spec_shunt(input, Seq::empty()) == Err::<Seq<SpecToken>, SpecError>(e),
            },
        decreases stack.len(),
    {
        let top_type = stack[stack.len() - 1].get_type();
        if top_type == TokenType::OpeningParen {
            return Err(Error::UnmatchedOpeningParen);
        }
        let ghost st = stack.deep_view();
        let ghost prefix = reverse_notation.deep_view();
        let popped = stack.pop().unwrap();
        reverse_notation.push(popped);
        proof {
            assert(stack.deep_view() =~= st.drop_last());
            assert(reverse_notation.deep_view() =~= prefix.push(st.last()));
            if let Ok(rest) = spec_shunt(Seq::empty(), stack.deep_view()) {
                assert(prefix.push(st.last()) + rest =~= prefix + (seq![st.last()] + rest));
            }
        }
    }
    proof {
        assert(reverse_notation.deep_view() + Seq::<SpecToken>::empty()
            =~= reverse_notation.deep_view());
    }
    Ok(reverse_notation)
}

/// The `Number` tokens of a stream, in stream order.
pub open spec fn numbers_of(ts: Seq<SpecToken>) -> Seq<SpecToken>
    decreases ts.len(),
{
    if ts.len() == 0 {
        Seq::empty()
    } else if ts[0].kind == TokenType::Number {
        seq![ts[0]] + numbers_of(ts.drop_first())
    } else {
        numbers_of(ts.drop_first())
    }
}

/// The operator tokens of a stream, in stream order.
pub open spec fn operators_of(ts: Seq<SpecToken>) -> Seq<SpecToken>
    decreases ts.len(),
{
    if ts.len() == 0 {
        Seq::empty()
    } else if is_operator_kind(ts[0].kind) {
        seq![ts[0]] + operators_of(ts.drop_first())
    } else {
        operators_of(ts.drop_first())
    }
}

/// Appending one token on the right keeps the operators already selected
/// and adds the token itself exactly when it is an operator.
proof fn lemma_operators_of_snoc(ts: Seq<SpecToken>, x: SpecToken)
    ensures
        operators_of(ts + seq![x]) == (if is_operator_kind(x.kind) {
            operators_of(ts) + seq![x]
        } else {
            operators_of(ts)
        }),
    decreases ts.len(),
{
    if ts.len() == 0 {
        assert(ts + seq![x] =~= seq![x]);
        assert(seq![x].drop_first() =~= Seq::<SpecToken>::empty());
        assert(operators_of(Seq::<SpecToken>::empty()) == Seq::<SpecToken>::empty());
        if is_operator_kind(x.kind) {
            assert(operators_of(seq![x]) == seq![x] + Seq::<SpecToken>::empty());
            assert(seq![x] + Seq::<SpecToken>::empty() =~= seq![x]);
            assert(operators_of(ts) + seq![x] =~= seq![x]);
        }
    } else {
        assert((ts + seq![x])[0] == ts[0]);
        assert((ts + seq![x]).drop_first() =~= ts.drop_first() + seq![x]);
        lemma_operators_of_snoc(ts.drop_first(), x);
        if is_operator_kind(ts[0].kind) && is_operator_kind(x.kind) {
            assert(seq![ts[0]] + (operators_of(ts.drop_first()) + seq![x]) =~= (seq![ts[0]]
                + operators_of(ts.drop_first())) + seq![x]);
        }
    }
}

/// An empty sequence holds the empty multiset.
proof fn lemma_empty_to_multiset()
    ensures
        Seq::<SpecToken>::empty().to_multiset() == Multiset::<SpecToken>::empty(),
{
    broadcast use vstd::seq_lib::group_to_multiset_ensures;
    broadcast use vstd::multiset::group_multiset_axioms;

    assert forall|a: SpecToken| Seq::<SpecToken>::empty().to_multiset().count(a) == 0 by {
        assert(!Seq::<SpecToken>::empty().contains(a));
    }
    assert(Seq::<SpecToken>::empty().to_multiset() =~= Multiset::<SpecToken>::empty());
}

/// A one-token sequence holds the one-token multiset.
proof fn lemma_singleton_to_multiset(x: SpecToken)
    ensures
        seq![x].to_multiset() == Multiset::<SpecToken>::empty().insert(x),
{
    broadcast use vstd::seq_lib::group_to_multiset_ensures;
    broadcast use vstd::multiset::group_multiset_axioms;

    assert(seq![x] =~= Seq::<SpecToken>::empty().push(x));
    lemma_empty_to_multiset();
    assert(seq![x].to_multiset() =~= Multiset::<SpecToken>::empty().insert(x));
}

/// Rearranging one insertion around a union of multisets.
proof fn lemma_ms_insert_add(a: Multiset<SpecToken>, b: Multiset<SpecToken>, x: SpecToken)
    ensures
        a.add(b.insert(x)) == a.add(b).insert(x),
        a.insert(x).add(b) == a.add(b).insert(x),
        a.add(Multiset::<SpecToken>::empty().insert(x)) == a.insert(x),
        Multiset::<SpecToken>::empty().insert(x).add(a) == a.insert(x),
{
    broadcast use vstd::multiset::group_multiset_axioms;

    assert(a.add(b.insert(x)) =~= a.add(b).insert(x));
    assert(a.insert(x).add(b) =~= a.add(b).insert(x));
    assert(a.add(Multiset::<SpecToken>::empty().insert(x)) =~= a.insert(x));
    assert(Multiset::<SpecToken>::empty().insert(x).add(a) =~= a.insert(x));
}

/// Putting one token in front of a sequence inserts it into the multiset.
proof fn lemma_cons_to_multiset(x: SpecToken, s: Seq<SpecToken>)
    ensures
        (seq![x] + s).to_multiset() == s.to_multiset().insert(x),
{
    broadcast use vstd::multiset::group_multiset_axioms;

    vstd::seq_lib::lemma_multiset_commutative(seq![x], s);
    lemma_singleton_to_multiset(x);
    lemma_ms_insert_add(s.to_multiset(), s.to_multiset(), x);
    assert((seq![x] + s).to_multiset() =~= s.to_multiset().insert(x));
}

/// The generalisation behind [`lemma_shunt_structure`], over any stack
/// that holds only what the algorithm ever pushes: operators and opening
/// parentheses.
proof fn lemma_shunt_structure_general(
    input: Seq<SpecToken>,
    stack: Seq<SpecToken>,
    out: Seq<SpecToken>,
)
    requires
        spec_shunt(input, stack) == Ok::<Seq<SpecToken>, SpecError>(out),
        forall|j: int|
            0 <= j < stack.len() ==> (#[trigger] stack[j]).kind != TokenType::Number && stack[j].kind
                != TokenType::ClosingParen,
    ensures
        forall|j: int|
            0 <= j < out.len() ==> is_operator_kind((#[trigger] out[j]).kind) || out[j].kind
                == TokenType::Number,
        numbers_of(out) == numbers_of(input),
        operators_of(out).to_multiset() == operators_of(input).to_multiset().add(
            operators_of(stack).to_multiset(),
        ),
    decreases input.len(), stack.len(),
{
    broadcast use vstd::multiset::group_multiset_axioms;

    if input.len() == 0 {
        if stack.len() == 0 {
            assert(out =~= Seq::<SpecToken>::empty());
            lemma_empty_to_multiset();
            assert(operators_of(out).to_multiset() =~= operators_of(input).to_multiset().add(
                operators_of(stack).to_multiset(),
            ));
        } else {
            let top = stack.last();
            match spec_shunt(input, stack.drop_last()) {
                Ok(out2) => {
                    lemma_shunt_structure_general(input, stack.drop_last(), out2);
                    assert(out =~= seq![top] + out2);
                    assert(is_operator_kind(top.kind));
                    assert(out.drop_first() =~= out2);
                    assert(stack =~= stack.drop_last() + seq![top]);
                    lemma_operators_of_snoc(stack.drop_last(), top);
                    assert(operators_of(out) == seq![top] + operators_of(out2));
                    lemma_cons_to_multiset(top, operators_of(out2));
                    vstd::seq_lib::lemma_multiset_commutative(
                        operators_of(stack.drop_last()),
                        seq![top],
                    );
                    lemma_singleton_to_multiset(top);
                    lemma_ms_insert_add(
                        operators_of(input).to_multiset(),
                        operators_of(stack.drop_last()).to_multiset(),
                        top,
                    );
                    lemma_ms_insert_add(
                        operators_of(stack.drop_last()).to_multiset(),
                        operators_of(out2).to_multiset(),
                        top,
                    );
                    assert(operators_of(stack).to_multiset() == operators_of(
                        stack.drop_last(),
                    ).to_multiset().insert(top));
                    assert(operators_of(out).to_multiset() == operators_of(input)
                        .to_multiset().add(operators_of(stack).to_multiset()));
                },
                Err(_) => {},
            }
        }
    } else {
        let t = input[0];
        let rest = input.drop_first();
        if t.kind == TokenType::Number {
            match spec_shunt(rest, stack) {
                Ok(out2) => {
                    lemma_shunt_structure_general(rest, stack, out2);
                    assert(out =~= seq![t] + out2);
                    assert(out.drop_first() =~= out2);
                    assert(numbers_of(out) == seq![t] + numbers_of(out2));
                    assert(numbers_of(input) == seq![t] + numbers_of(rest));
                },
                Err(_) => {},
            }
        } else if t.kind == TokenType::OpeningParen {
            assert(forall|j: int|
                0 <= j < stack.push(t).len() ==> (#[trigger] stack.push(t)[j]).kind
                    != TokenType::Number && stack.push(t)[j].kind != TokenType::ClosingParen);
            lemma_shunt_structure_general(rest, stack.push(t), out);
            assert(stack.push(t) =~= stack + seq![t]);
            lemma_operators_of_snoc(stack, t);
        } else if t.kind == TokenType::ClosingParen {
            if stack.len() == 0 {
                // the conversion fails here, against the premise
            } else if stack.last().kind == TokenType::OpeningParen {
                lemma_shunt_structure_general(rest, stack.drop_last(), out);
                assert(stack =~= stack.drop_last() + seq![stack.last()]);
                lemma_operators_of_snoc(stack.drop_last(), stack.last());
            } else {
                let top = stack.last();
                match spec_shunt(input, stack.drop_last()) {
                    Ok(out2) => {
                        lemma_shunt_structure_general(input, stack.drop_last(), out2);
                        assert(out =~= seq![top] + out2);
                        assert(is_operator_kind(top.kind));
                        assert(out.drop_first() =~= out2);
                        assert(stack =~= stack.drop_last() + seq![top]);
                        lemma_operators_of_snoc(stack.drop_last(), top);
                        assert(operators_of(out) == seq![top] + operators_of(out2));
                        lemma_cons_to_multiset(top, operators_of(out2));
                        vstd::seq_lib::lemma_multiset_commutative(
                            operators_of(stack.drop_last()),
                            seq![top],
                        );
                        lemma_singleton_to_multiset(top);
                        lemma_ms_insert_add(
                            operators_of(input).to_multiset(),
                            operators_of(stack.drop_last()).to_multiset(),
                            top,
                        );
                        lemma_ms_insert_add(
                            operators_of(stack.drop_last()).to_multiset(),
                            operators_of(out2).to_multiset(),
                            top,
                        );
                        assert(operators_of(stack).to_multiset() == operators_of(
                            stack.drop_last(),
                        ).to_multiset().insert(top));
                        assert(operators_of(out).to_multiset() == operators_of(input)
                            .to_multiset().add(operators_of(stack).to_multiset()));
                    },
                    Err(_) => {},
                }
            }
        } else {
            assert(is_operator_kind(t.kind));
            if stack.len() > 0 && stack_should_pop(stack.last(), t) {
                let top = stack.last();
                match spec_shunt(input, stack.drop_last()) {
                    Ok(out2) => {
                        lemma_shunt_structure_general(input, stack.drop_last(), out2);
                        assert(out =~= seq![top] + out2);
                        assert(is_operator_kind(top.kind));
                        assert(out.drop_first() =~= out2);
                        assert(stack =~= stack.drop_last() + seq![top]);
                        lemma_operators_of_snoc(stack.drop_last(), top);
                        assert(operators_of(out) == seq![top] + operators_of(out2));
                        lemma_cons_to_multiset(top, operators_of(out2));
                        vstd::seq_lib::lemma_multiset_commutative(
                            operators_of(stack.drop_last()),
                            seq![top],
                        );
                        lemma_singleton_to_multiset(top);
                        lemma_ms_insert_add(
                            operators_of(input).to_multiset(),
                            operators_of(stack.drop_last()).to_multiset(),
                            top,
                        );
                        lemma_ms_insert_add(
                            operators_of(stack.drop_last()).to_multiset(),
                            operators_of(out2).to_multiset(),
                            top,
                        );
                        assert(operators_of(stack).to_multiset() == operators_of(
                            stack.drop_last(),
                        ).to_multiset().insert(top));
                        assert(operators_of(out).to_multiset() == operators_of(input)
                            .to_multiset().add(operators_of(stack).to_multiset()));
                    },
                    Err(_) => {},
                }
            } else {
                assert(forall|j: int|
                    0 <= j < stack.push(t).len() ==> (#[trigger] stack.push(t)[j]).kind
                        != TokenType::Number && stack.push(t)[j].kind
                        != TokenType::ClosingParen);
                lemma_shunt_structure_general(rest, stack.push(t), out);
                assert(stack.push(t) =~= stack + seq![t]);
                lemma_operators_of_snoc(stack, t);
                vstd::seq_lib::lemma_multiset_commutative(
                    operators_of(stack),
                    seq![t],
                );
                lemma_singleton_to_multiset(t);
                lemma_cons_to_multiset(t, operators_of(rest));
                assert(operators_of(input) == seq![t] + operators_of(rest));
                lemma_ms_insert_add(
                    operators_of(rest).to_multiset(),
                    operators_of(stack).to_multiset(),
                    t,
                );
                lemma_ms_insert_add(
                    operators_of(stack).to_multiset(),
                    operators_of(rest).to_multiset(),
                    t,
                );
                assert(operators_of(stack.push(t)).to_multiset() == operators_of(
                    stack,
                ).to_multiset().insert(t));
                assert(operators_of(out).to_multiset() == operators_of(input).to_multiset().add(
                    operators_of(stack).to_multiset(),
                ));
            }
        }
    }
}

/// What a successful conversion preserves.  Every parenthesis of the
/// input has been matched away — the output holds numbers and operators
/// only — the numbers survive in their original order, and the operators
/// are exactly the input's operators, neither lost nor invented.
pub proof fn lemma_shunt_structure(input: Seq<SpecToken>, out: Seq<SpecToken>)
    requires
        spec_shunt(input, Seq::empty()) == Ok::<Seq<SpecToken>, SpecError>(out),
    ensures
        forall|j: int|
            0 <= j < out.len() ==> is_operator_kind((#[trigger] out[j]).kind) || out[j].kind
                == TokenType::Number,
        numbers_of(out) == numbers_of(input),
        operators_of(out).to_multiset() == operators_of(input).to_multiset(),
{
    broadcast use vstd::multiset::group_multiset_axioms;

    lemma_shunt_structure_general(input, Seq::empty(), out);
    lemma_empty_to_multiset();
    assert(operators_of(out).to_multiset() =~= operators_of(input).to_multiset());
}

/// The depth of the numeric stack after feeding `tokens` to a stack that
/// already holds `depth` values: a number pushes one, an operator pops two
/// and pushes one, and anything else — a parenthesis can never reach a
/// postfix stream — is malformed.
pub open spec fn spec_rpn_depth(tokens: Seq<SpecToken>, depth: nat) -> Result<nat, SpecError>
    decreases tokens.len(),
{
    if tokens.len() == 0 {
        Ok(depth)
    } else {
        let t = tokens[0];
        if t.kind == TokenType::Number {
            spec_rpn_depth(tokens.drop_first(), depth + 1)
        } else if is_operator_kind(t.kind) {
            if depth < 2 {
                Err(SpecError::InsufficientOperands)
            } else {
                spec_rpn_depth(tokens.drop_first(), (depth - 1) as nat)
            }
        } else {
            Err(SpecError::MalformedExpression)
        }
    }
}

/// Whether a postfix stream evaluates cleanly: every operator finds its
/// two operands, and exactly one value is left at the end.
pub open spec fn spec_calculate(tokens: Seq<SpecToken>) -> Result<(), SpecError> {
    match spec_rpn_depth(tokens, 0) {
        Ok(d) => if d == 1 {
            Ok(())
        } else {
            Err(SpecError::MalformedExpression)
        },
        Err(e) => Err(e),
    }
}

/// Folds a postfix token stream with one numeric stack.  Success and
/// every error are exactly as [`spec_calculate`] describes them; the value
/// itself is whatever the [`Arithmetic`] implementation computes, with the
/// right operand of each operator popped first.
pub fn calculate<V: Arithmetic>(tokens: &Vec<Token>) -> (r: Result<V, Error>)
    ensures
        match r {
            Ok(_) => spec_calculate(tokens.deep_view()) == Ok::<(), SpecError>(()),
            Err(e) => spec_calculate(tokens.deep_view()) == Err::<(), SpecError>(e@),
        },
{
    let ghost input = tokens.deep_view();
    let mut processing_numbers: Vec<V> = Vec::new();
    let mut i: usize = 0;
    proof {
        assert(input.skip(0) =~= input);
    }
    while i < tokens.len()
        invariant
            i <= tokens.len(),
            input == tokens.deep_view(),
            spec_rpn_depth(input.skip(i as int), processing_numbers@.len() as nat)
                == spec_rpn_depth(input, 0),
        decreases tokens.len() - i,
    {
        let ghost remaining = input.skip(i as int);
        let t = &tokens[i];
        proof {
            assert(remaining.len() > 0);
            assert(remaining[0] == t.deep_view());
            assert(remaining.drop_first() =~= input.skip(i as int + 1));
        }
        let tt = t.get_type();
        if tt == TokenType::Number {
            processing_numbers.push(V::from_lexeme(t.get_value()));
        } else if t.is_operator() {
            if processing_numbers.len() < 2 {
                return Err(Error::InsufficientOperands);
            }
            let r_operand = processing_numbers.pop().unwrap();
            let l_operand = processing_numbers.pop().unwrap();
            processing_numbers.push(V::apply(tt, l_operand, r_operand));
        } else {
            return Err(Error::MalformedExpression);
        }
        i = i + 1;
    }
    proof {
        assert(input.skip(tokens.len() as int) =~= Seq::<SpecToken>::empty());
    }
    if processing_numbers.len() == 1 {
        Ok(processing_numbers.pop().unwrap())
    } else {
        Err(Error::MalformedExpression)
    }
}

/// The outcome of the whole pipeline on a text: the first error met in
/// lexing, reordering or evaluation, or success.  This is a function of
/// the text alone, so whether `evaluate` succeeds, and with which error it
/// fails, is the same on every call.
pub open spec fn spec_evaluate(s: Seq<char>) -> Result<(), SpecError> {
    match spec_tokenize(s) {
        Ok(ts) => match spec_shunt(ts, Seq::empty()) {
            Ok(ps) => spec_calculate(ps),
            Err(e) => Err(e),
        },
        Err(e) => Err(e),
    }
}

/// Evaluates an infix arithmetic expression: lexes it, reorders it to
/// postfix, and folds it to a single value of the caller's number type.
/// Success and every error are exactly as [`spec_evaluate`] describes
/// them.
pub fn evaluate<V: Arithmetic>(expression: &String) -> (r: Result<V, Error>)
    ensures
        match r {
            Ok(_) => spec_evaluate(expression@) == Ok::<(), SpecError>(()),
            Err(e) => spec_evaluate(expression@) == Err::<(), SpecError>(e@),
        },
{
    match tokenize(expression) {
        Ok(v) => match shunting_yard(&v) {
            Ok(s) => calculate::<V>(&s),
            Err(x) => Err(x),
        },
        Err(e) => Err(e),
    }
}

} // verus!
