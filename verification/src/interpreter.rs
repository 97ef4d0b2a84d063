//! The evaluator: walks the expression tree, resolves symbols through the
//! scope chain, dispatches special forms, and produces a value or an error.
//!
//! Evaluation is given first as a mathematical function, [`eval_spec`]; the
//! executable evaluator is proved to return exactly what it says, to leave
//! the environment chain as it found it, and to append exactly the lines
//! that the print primitive produces.

use vstd::prelude::*;

use crate::lsymc::{chars_string, join_render, join_render_spec, sym_seq, Lsymc, SymV};
use crate::store::{store_find, Store, StoreV};

verus! {

/// An evaluation-time failure. Structural errors carry no context; value
/// errors carry the offending value, symbol errors the unresolved name.
#[derive(Debug, PartialEq)]
pub enum EvalError {
    /// An identifier that no scope in the chain binds.
    UnboundSymbol(String),
    /// The length primitive was applied to a value that is not a list.
    NotAList(Lsymc),
    /// The emptiness primitive was applied to a value that is not a list.
    NotANullableList(Lsymc),
    /// A binding form without both a bindings list and a body.
    InvalidDefStatement,
    /// A binding form whose bindings are not given as a list.
    InvalidDefBinds,
    /// A single binding that is not a two-element list headed by a name.
    InvalidDefBinding,
    /// A list whose head is not an applicable form.
    UnknownKeyword,
    /// An operator applied to the wrong number of operands.
    ArityMismatch,
    /// A division whose divisor evaluated to zero.
    DivisionByZero,
    /// An operand of an arithmetic or comparison operator evaluated to a
    /// floating-point literal; this library does no floating-point
    /// arithmetic, so such operands are rejected rather than computed.
    FloatOperand,
    /// An operand of an arithmetic or comparison operator that is not
    /// numeric.
    NotANumber(Lsymc),
}

/// The model of an evaluation failure.
pub enum ErrV {
    UnboundSymbol(Seq<char>),
    NotAList(SymV),
    NotANullableList(SymV),
    InvalidDefStatement,
    InvalidDefBinds,
    InvalidDefBinding,
    UnknownKeyword,
    ArityMismatch,
    DivisionByZero,
    FloatOperand,
    NotANumber(SymV),
}

impl View for EvalError {
    type V = ErrV;

    open spec fn view(&self) -> ErrV {
        match self {
            EvalError::UnboundSymbol(s) => ErrV::UnboundSymbol(s@),
            EvalError::NotAList(v) => ErrV::NotAList(v@),
            EvalError::NotANullableList(v) => ErrV::NotANullableList(v@),
            EvalError::InvalidDefStatement => ErrV::InvalidDefStatement,
            EvalError::InvalidDefBinds => ErrV::InvalidDefBinds,
            EvalError::InvalidDefBinding => ErrV::InvalidDefBinding,
            EvalError::UnknownKeyword => ErrV::UnknownKeyword,
            EvalError::ArityMismatch => ErrV::ArityMismatch,
            EvalError::DivisionByZero => ErrV::DivisionByZero,
            EvalError::FloatOperand => ErrV::FloatOperand,
            EvalError::NotANumber(v) => ErrV::NotANumber(v@),
        }
    }
}

/// The views of a sequence of output lines.
pub open spec fn lines_of(v: Seq<String>) -> Seq<Seq<char>> {
    v.map_values(|s: String| s@)
}

/// Whether an executable outcome is exactly a modelled outcome.
pub open spec fn outcome_matches(r: Result<Lsymc, EvalError>, res: Result<SymV, ErrV>) -> bool {
    match (r, res) {
        (Ok(v), Ok(m)) => v@ == m,
        (Err(e), Err(m)) => e@ == m,
        _ => false,
    }
}

/// One arithmetic step on two evaluated operands. Integer arithmetic wraps
/// around on overflow; division truncates toward zero and rejects a zero
/// divisor. A floating-point operand is rejected, as is any value that is
/// not a number.
pub open spec fn arith_step_spec(op: SymV, a: SymV, b: SymV) -> Result<SymV, ErrV> {
    match (a, b) {
        (SymV::Int(x), SymV::Int(y)) => match op {
            SymV::Plus => Ok(SymV::Int(vstd::wrapping::i64_specs::wrapping_add(x, y))),
            SymV::Minus => Ok(SymV::Int(vstd::wrapping::i64_specs::wrapping_sub(x, y))),
            SymV::Astrisk => Ok(SymV::Int(vstd::wrapping::i64_specs::wrapping_mul(x, y))),
            _ => if y == 0 {
                Err(ErrV::DivisionByZero)
            } else if x == i64::MIN && y == -1 {
                Ok(SymV::Int(i64::MIN))
            } else {
                Ok(SymV::Int(x.checked_div(y).unwrap()))
            },
        },
        (SymV::Float(_), _) => Err(ErrV::FloatOperand),
        (_, SymV::Float(_)) => Err(ErrV::FloatOperand),
        (SymV::Int(_), bad) => Err(ErrV::NotANumber(bad)),
        (bad, _) => Err(ErrV::NotANumber(bad)),
    }
}

/// A left fold of one arithmetic operator over the evaluated operands: the
/// first operand seeds the fold and each further operand is combined by
/// [`arith_step_spec`]. No operand at all is an arity error; a single
/// operand must itself be a number and is then the result.
pub open spec fn arith_fold_spec(op: SymV, vals: Seq<SymV>) -> Result<SymV, ErrV>
    decreases vals.len(),
{
    if vals.len() == 0 {
        Err(ErrV::ArityMismatch)
    } else if vals.len() == 1 {
        match vals[0] {
            SymV::Int(x) => Ok(SymV::Int(x)),
            SymV::Float(_) => Err(ErrV::FloatOperand),
            bad => Err(ErrV::NotANumber(bad)),
        }
    } else {
        match arith_fold_spec(op, vals.drop_last()) {
            Ok(acc) => arith_step_spec(op, acc, vals.last()),
            Err(e) => Err(e),
        }
    }
}

/// One comparison of two evaluated operands, both of which must be
/// integers; a floating-point operand is rejected.
pub open spec fn cmp_spec(op: SymV, a: SymV, b: SymV) -> Result<SymV, ErrV> {
    match (a, b) {
        (SymV::Int(x), SymV::Int(y)) => match op {
            SymV::LT => Ok(SymV::Bool(x < y)),
            SymV::GT => Ok(SymV::Bool(x > y)),
            SymV::Equal => Ok(SymV::Bool(x == y)),
            _ => Ok(SymV::Bool(x != y)),
        },
        (SymV::Float(_), _) => Err(ErrV::FloatOperand),
        (_, SymV::Float(_)) => Err(ErrV::FloatOperand),
        (SymV::Int(_), bad) => Err(ErrV::NotANumber(bad)),
        (bad, _) => Err(ErrV::NotANumber(bad)),
    }
}

/// The result of an identifier in expression position. The three reserved
/// literal names evaluate to their fixed values before any lookup, so no
/// binding can shadow them; any other name resolves through the chain and
/// is unbound if no scope binds it.
pub open spec fn eval_ident_spec(s: Seq<char>, env: StoreV) -> Result<SymV, ErrV> {
    if s == "#true"@ {
        Ok(SymV::Bool(true))
    } else if s == "#false"@ {
        Ok(SymV::Bool(false))
    } else if s == "#nil"@ {
        Ok(SymV::Nil)
    } else {
        match store_find(env, s) {
            Some(v) => Ok(v),
            None => Err(ErrV::UnboundSymbol(s)),
        }
    }
}

/// Evaluates an expression in an environment chain. The first component is
/// the resulting value or the first error met; the second is the sequence
/// of lines the print primitive produced along the way, in order.
///
/// Atoms are self-evaluating; identifiers resolve as [`eval_ident_spec`]
/// says; a bare keyword or operator tag in expression position is not
/// applicable; a list dispatches on its head as [`eval_list_spec`] says.
pub open spec fn eval_spec(e: SymV, env: StoreV) -> (Result<SymV, ErrV>, Seq<Seq<char>>)
    decreases e, 2int,
{
    match e {
        SymV::Nil => (Ok(e), Seq::empty()),
        SymV::Int(_) => (Ok(e), Seq::empty()),
        SymV::Float(_) => (Ok(e), Seq::empty()),
        SymV::String(_) => (Ok(e), Seq::empty()),
        SymV::Bool(_) => (Ok(e), Seq::empty()),
        SymV::Ident(s) => (eval_ident_spec(s, env), Seq::empty()),
        SymV::List(items) => eval_list_spec(items, env),
        _ => (Err(ErrV::UnknownKeyword), Seq::empty()),
    }
}

/// Evaluates the members of a list left to right, collecting their values;
/// the first error aborts the rest, and printed lines accumulate in order.
pub open spec fn eval_args_spec(items: Seq<SymV>, env: StoreV) -> (
    Result<Seq<SymV>, ErrV>,
    Seq<Seq<char>>,
)
    decreases items, 0int,
{
    if items.len() == 0 {
        (Ok(Seq::empty()), Seq::empty())
    } else {
        let (r0, l0) = eval_spec(items[0], env);
        match r0 {
            Err(e) => (Err(e), l0),
            Ok(v) => {
                let (rest, lrest) = eval_args_spec(items.drop_first(), env);
                match rest {
                    Ok(vs) => (Ok(seq![v] + vs), l0 + lrest),
                    Err(e) => (Err(e), l0 + lrest),
                }
            },
        }
    }
}

/// Evaluates the bindings of a binding form, left to right, in the
/// enclosing environment: each binding must be a two-element list headed by
/// an identifier; its expression is evaluated in `env` itself, so the
/// bindings of one form never see each other. The collected scope lists the
/// name/value pairs in binding order.
pub open spec fn eval_binds_spec(binds: Seq<SymV>, env: StoreV) -> (
    Result<Seq<(Seq<char>, SymV)>, ErrV>,
    Seq<Seq<char>>,
)
    decreases binds, 0int,
{
    if binds.len() == 0 {
        (Ok(Seq::empty()), Seq::empty())
    } else {
        match binds[0] {
            SymV::List(pair) => if pair.len() != 2 {
                (Err(ErrV::InvalidDefBinding), Seq::empty())
            } else {
                match pair[0] {
                    SymV::Ident(name) => {
                        let (r0, l0) = eval_spec(pair[1], env);
                        match r0 {
                            Err(e) => (Err(e), l0),
                            Ok(v) => {
                                let (rest, lrest) = eval_binds_spec(binds.drop_first(), env);
                                match rest {
                                    Ok(sc) => (Ok(seq![(name, v)] + sc), l0 + lrest),
                                    Err(e) => (Err(e), l0 + lrest),
                                }
                            },
                        }
                    },
                    _ => (Err(ErrV::InvalidDefBinding), Seq::empty()),
                }
            },
            _ => (Err(ErrV::InvalidDefBinding), Seq::empty()),
        }
    }
}

/// Evaluates the body expressions of a binding form in sequence, in the
/// child environment; the value of the last one is the value of the form.
pub open spec fn eval_bodies_spec(bodies: Seq<SymV>, env: StoreV) -> (
    Result<SymV, ErrV>,
    Seq<Seq<char>>,
)
    decreases bodies, 0int,
{
    if bodies.len() == 0 {
        (Ok(SymV::Nil), Seq::empty())
    } else {
        let (r0, l0) = eval_spec(bodies[0], env);
        match r0 {
            Err(e) => (Err(e), l0),
            Ok(v) => if bodies.len() == 1 {
                (Ok(v), l0)
            } else {
                let (rest, lrest) = eval_bodies_spec(bodies.drop_first(), env);
                (rest, l0 + lrest)
            },
        }
    }
}

/// The binding special form `(def ((name expr) ...) body ...)`: validate
/// the shape, evaluate the bindings in the enclosing environment, install
/// them all at once in a fresh child scope, and evaluate the bodies there.
/// The environment the caller sees afterwards is unchanged.
pub open spec fn eval_def_spec(items: Seq<SymV>, env: StoreV) -> (Result<SymV, ErrV>, Seq<Seq<char>>)
    decreases items, 1int,
{
    if items.len() < 3 {
        (Err(ErrV::InvalidDefStatement), Seq::empty())
    } else {
        match items[1] {
            SymV::List(binds) => {
                let (rb, lb) = eval_binds_spec(binds, env);
                match rb {
                    Err(e) => (Err(e), lb),
                    Ok(scope) => {
                        let (rr, lr) = eval_bodies_spec(items.skip(2), env.push(scope));
                        (rr, lb + lr)
                    },
                }
            },
            _ => (Err(ErrV::InvalidDefBinds), Seq::empty()),
        }
    }
}

/// The result of a list in expression position, by its head:
/// - `Def` is the binding form; `Defn` is reserved and yields `Nil`;
/// - an arithmetic operator folds its evaluated operands, at least one;
/// - a comparison operator takes exactly two evaluated operands;
/// - the reserved primitives `print`, `length` and `is-empty` take their
///   evaluated operands (`print` any number, the others exactly one);
/// - any other head, or no head at all, is not applicable.
pub open spec fn eval_list_spec(items: Seq<SymV>, env: StoreV) -> (
    Result<SymV, ErrV>,
    Seq<Seq<char>>,
)
    decreases items, 2int,
{
    if items.len() == 0 {
        (Err(ErrV::UnknownKeyword), Seq::empty())
    } else {
        match items[0] {
            SymV::Def => eval_def_spec(items, env),
            SymV::Defn => (Ok(SymV::Nil), Seq::empty()),
            SymV::Plus | SymV::Minus | SymV::Astrisk | SymV::Slash => {
                if items.len() < 2 {
                    (Err(ErrV::ArityMismatch), Seq::empty())
                } else {
                    let (rv, lv) = eval_args_spec(items.drop_first(), env);
                    match rv {
                        Err(e) => (Err(e), lv),
                        Ok(vals) => (arith_fold_spec(items[0], vals), lv),
                    }
                }
            },
            SymV::LT | SymV::GT | SymV::Equal | SymV::NotEqual => {
                if items.len() != 3 {
                    (Err(ErrV::ArityMismatch), Seq::empty())
                } else {
                    let (rv, lv) = eval_args_spec(items.drop_first(), env);
                    match rv {
                        Err(e) => (Err(e), lv),
                        Ok(vals) => (cmp_spec(items[0], vals[0], vals[1]), lv),
                    }
                }
            },
            SymV::Ident(s) => {
                if s == "print"@ {
                    print_spec(items, env)
                } else if s == "length"@ {
                    eval_len_spec(items, env)
                } else if s == "is-empty"@ {
                    eval_nil_spec(items, env)
                } else {
                    (Err(ErrV::UnknownKeyword), Seq::empty())
                }
            },
            _ => (Err(ErrV::UnknownKeyword), Seq::empty()),
        }
    }
}

/// The print primitive: every operand is evaluated left to right, then one
/// line is produced holding each value's canonical text separated by a
/// single space; the value of the form is `Nil`.
pub open spec fn print_spec(items: Seq<SymV>, env: StoreV) -> (Result<SymV, ErrV>, Seq<Seq<char>>)
    decreases items, 1int,
{
    if items.len() == 0 {
        (Err(ErrV::UnknownKeyword), Seq::empty())
    } else {
        let (rv, lv) = eval_args_spec(items.drop_first(), env);
        match rv {
            Err(e) => (Err(e), lv),
            Ok(vals) => (Ok(SymV::Nil), lv.push(join_render_spec(vals, ' '))),
        }
    }
}

/// The length primitive: exactly one operand, which must evaluate to a
/// list; the value is its member count.
pub open spec fn eval_len_spec(items: Seq<SymV>, env: StoreV) -> (Result<SymV, ErrV>, Seq<Seq<char>>)
    decreases items, 1int,
{
    if items.len() != 2 {
        (Err(ErrV::ArityMismatch), Seq::empty())
    } else {
        let (rv, lv) = eval_spec(items[1], env);
        match rv {
            Err(e) => (Err(e), lv),
            Ok(v) => match v {
                SymV::List(l) => (Ok(SymV::Int(l.len() as i64)), lv),
                other => (Err(ErrV::NotAList(other)), lv),
            },
        }
    }
}

/// The emptiness primitive: exactly one operand, which must evaluate to a
/// list; the value is whether it has no members.
pub open spec fn eval_nil_spec(items: Seq<SymV>, env: StoreV) -> (Result<SymV, ErrV>, Seq<Seq<char>>)
    decreases items, 1int,
{
    if items.len() != 2 {
        (Err(ErrV::ArityMismatch), Seq::empty())
    } else {
        let (rv, lv) = eval_spec(items[1], env);
        match rv {
            Err(e) => (Err(e), lv),
            Ok(v) => match v {
                SymV::List(l) => (Ok(SymV::Bool(l.len() == 0)), lv),
                other => (Err(ErrV::NotANullableList(other)), lv),
            },
        }
    }
}

/// Whether a value is a literal atom: self-evaluating, never consulting
/// the environment.
pub open spec fn is_atom(v: SymV) -> bool {
    ||| v is Nil
    ||| v is Int
    ||| v is Float
    ||| v is String
    ||| v is Bool
}

/// Self-evaluation law: a literal atom evaluates to itself, whatever the
/// environment holds, and prints nothing.
pub proof fn lemma_atom_self_eval(v: SymV, env: StoreV)
    requires
        is_atom(v),
    ensures
        eval_spec(v, env) == (Ok::<SymV, ErrV>(v), Seq::<Seq<char>>::empty()),
{
}

/// Idempotence law: evaluating what an atom evaluated to is a no-op — the
/// same value comes back, with no output, in any environment.
pub proof fn lemma_atom_eval_idempotent(v: SymV, env: StoreV, env2: StoreV)
    requires
        is_atom(v),
    ensures
        ({
            let (r, lines) = eval_spec(v, env);
            &&& r == Ok::<SymV, ErrV>(v)
            &&& eval_spec(r->Ok_0, env2) == (r, Seq::<Seq<char>>::empty())
        }),
{
}

/// An error met while folding some prefix of the operands is the result of
/// the whole fold.
proof fn lemma_arith_fold_err(op: SymV, vals: Seq<SymV>, k: int)
    requires
        1 <= k <= vals.len(),
        arith_fold_spec(op, vals.take(k)) is Err,
    ensures
        arith_fold_spec(op, vals) == arith_fold_spec(op, vals.take(k)),
    decreases vals.len(),
{
    if k == vals.len() {
        assert(vals.take(k) =~= vals);
    } else {
        assert(vals.drop_last().take(k) =~= vals.take(k));
        lemma_arith_fold_err(op, vals.drop_last(), k);
    }
}

/// One arithmetic step on two machine integers, as [`arith_step_spec`]
/// states of the corresponding values.
fn arith_step(op: &Lsymc, a: i64, b: i64) -> (r: Result<i64, EvalError>)
    ensures
        match r {
            Ok(q) => arith_step_spec(op@, SymV::Int(a), SymV::Int(b)) == Ok::<SymV, ErrV>(
                SymV::Int(q),
            ),
            Err(e) => arith_step_spec(op@, SymV::Int(a), SymV::Int(b)) == Err::<SymV, ErrV>(e@),
        },
{
    match op {
        Lsymc::Plus => Ok(a.wrapping_add(b)),
        Lsymc::Minus => Ok(a.wrapping_sub(b)),
        Lsymc::Astrisk => Ok(a.wrapping_mul(b)),
        _ => {
            if b == 0 {
                Err(EvalError::DivisionByZero)
            } else if a == i64::MIN && b == -1 {
                Ok(i64::MIN)
            } else {
                proof {
                    lemma_checked_div_fits(a, b);
                }
                Ok(a.checked_div(b).unwrap())
            }
        },
    }
}

/// A quotient of two machine integers fits in the type, except for the
/// smallest value divided by minus one.
proof fn lemma_checked_div_fits(a: i64, b: i64)
    requires
        b != 0,
        !(a == i64::MIN && b == -1),
    ensures
        a.checked_div(b) is Some,
{
    let x = a as int;
    let d = b as int;
    if x > 0 && d > 0 {
        vstd::arithmetic::div_mod::lemma_div_pos_is_pos(x, d);
        vstd::arithmetic::div_mod::lemma_div_nonincreasing(x, d);
    } else if x < 0 && d < 0 {
        vstd::arithmetic::div_mod::lemma_div_pos_is_pos(-x, -d);
        vstd::arithmetic::div_mod::lemma_div_nonincreasing(-x, -d);
        if -x == 0x8000_0000_0000_0000 {
            vstd::arithmetic::div_mod::lemma_div_decreases(-x, -d);
        }
    } else if x < 0 {
        vstd::arithmetic::div_mod::lemma_div_pos_is_pos(-x, d);
        vstd::arithmetic::div_mod::lemma_div_nonincreasing(-x, d);
    } else if x > 0 {
        vstd::arithmetic::div_mod::lemma_div_pos_is_pos(x, -d);
        vstd::arithmetic::div_mod::lemma_div_nonincreasing(x, -d);
    }
}

/// Folds one arithmetic operator over already-evaluated operands, as
/// [`arith_fold_spec`] states.
fn arith_fold(op: &Lsymc, vals: &Vec<Lsymc>) -> (r: Result<Lsymc, EvalError>)
    ensures
        outcome_matches(r, arith_fold_spec(op@, sym_seq(vals@))),
{
    let ghost syms = sym_seq(vals@);
    proof {
        crate::lsymc::lemma_sym_seq(vals@);
    }
    if vals.len() == 0 {
        return Err(EvalError::ArityMismatch);
    }
    let mut acc: i64 = match &vals[0] {
        Lsymc::Int(x) => *x,
        Lsymc::Float(_) => {
            proof {
                assert(syms.take(1) =~= seq![syms[0]]);
                lemma_arith_fold_err(op@, syms, 1);
            }
            return Err(EvalError::FloatOperand);
        },
        v => {
            proof {
                assert(syms.take(1) =~= seq![syms[0]]);
                lemma_arith_fold_err(op@, syms, 1);
            }
            return Err(EvalError::NotANumber(v.clone()));
        },
    };
    proof {
        assert(syms.take(1) =~= seq![syms[0]]);
    }
    let mut k: usize = 1;
    #[verifier::loop_isolation(false)]
    while k < vals.len()
        invariant
            1 <= k <= vals@.len(),
            arith_fold_spec(op@, syms.take(k as int)) == Ok::<SymV, ErrV>(SymV::Int(acc)),
        decreases vals@.len() - k,
    {
        proof {
            assert(syms.take(k + 1).drop_last() =~= syms.take(k as int));
            assert(syms.take(k + 1).last() == syms[k as int]);
        }
        match &vals[k] {
            Lsymc::Int(y) => {
                match arith_step(op, acc, *y) {
                    Ok(q) => {
                        acc = q;
                    },
                    Err(e) => {
                        proof {
                            lemma_arith_fold_err(op@, syms, k + 1);
                        }
                        return Err(e);
                    },
                }
            },
            Lsymc::Float(_) => {
                proof {
                    lemma_arith_fold_err(op@, syms, k + 1);
                }
                return Err(EvalError::FloatOperand);
            },
            v => {
                proof {
                    lemma_arith_fold_err(op@, syms, k + 1);
                }
                return Err(EvalError::NotANumber(v.clone()));
            },
        }
        k = k + 1;
    }
    proof {
        assert(syms.take(vals@.len() as int) =~= syms);
    }
    Ok(Lsymc::Int(acc))
}

/// Compares two already-evaluated operands, as [`cmp_spec`] states.
fn cmp_vals(op: &Lsymc, a: &Lsymc, b: &Lsymc) -> (r: Result<Lsymc, EvalError>)
    ensures
        outcome_matches(r, cmp_spec(op@, a@, b@)),
{
    match (a, b) {
        (Lsymc::Int(x), Lsymc::Int(y)) => match op {
            Lsymc::LT => Ok(Lsymc::Bool(*x < *y)),
            Lsymc::GT => Ok(Lsymc::Bool(*x > *y)),
            Lsymc::Equal => Ok(Lsymc::Bool(*x == *y)),
            _ => Ok(Lsymc::Bool(*x != *y)),
        },
        (Lsymc::Float(_), _) => Err(EvalError::FloatOperand),
        (_, Lsymc::Float(_)) => Err(EvalError::FloatOperand),
        (Lsymc::Int(_), bad) => Err(EvalError::NotANumber(bad.clone())),
        (bad, _) => Err(EvalError::NotANumber(bad.clone())),
    }
}

/// Resolves an identifier in expression position, as [`eval_ident_spec`]
/// states: the three reserved literal names first, then the scope chain.
pub fn eval_syms(s: &str, st: &Store) -> (r: Result<Lsymc, EvalError>)
    ensures
        match (r, eval_ident_spec(s@, st@)) {
            (Ok(v), Ok(m)) => v@ == m,
            (Err(e), Err(m)) => e@ == m,
            _ => false,
        },
{
    let owned = s.to_owned();
    if owned == "#true".to_owned() {
        Ok(Lsymc::Bool(true))
    } else if owned == "#false".to_owned() {
        Ok(Lsymc::Bool(false))
    } else if owned == "#nil".to_owned() {
        Ok(Lsymc::Nil)
    } else {
        match st.get(s) {
            Some(v) => Ok(v),
            None => Err(EvalError::UnboundSymbol(owned)),
        }
    }
}

/// The reserved function-definition form: not yet given a meaning; its
/// value is `Nil` and it binds nothing.
pub fn eval_defn(list: &Vec<Lsymc>, st: &mut Store, out: &mut Vec<String>) -> (r: Result<
    Lsymc,
    EvalError,
>)
    requires
        old(st).wf(),
    ensures
        final(st)@ == old(st)@,
        final(out)@ == old(out)@,
        outcome_matches(r, Ok(SymV::Nil)),
{
    Ok(Lsymc::Nil)
}

/// Evaluates an expression, as [`eval_spec`] states: the result is exactly
/// the modelled outcome, the environment chain is left as it was found, and
/// the lines the print primitive produced are appended to `out` in order.
pub fn eval_lsymc(lsymc: &Lsymc, st: &mut Store, out: &mut Vec<String>) -> (r: Result<
    Lsymc,
    EvalError,
>)
    requires
        old(st).wf(),
    ensures
        ({
            let (res, lines) = eval_spec(lsymc@, old(st)@);
            &&& final(st)@ == old(st)@
            &&& final(st).wf()
            &&& lines_of(final(out)@) == lines_of(old(out)@) + lines
            &&& outcome_matches(r, res)
        }),
    decreases *lsymc, 0int,
{
    match lsymc {
        Lsymc::Nil | Lsymc::Int(_) | Lsymc::Float(_) | Lsymc::String(_) | Lsymc::Bool(_) => {
            proof {
                assert(lines_of(out@) + Seq::<Seq<char>>::empty() =~= lines_of(out@));
            }
            Ok(lsymc.clone())
        },
        Lsymc::Ident(s) => {
            let r = eval_syms(s.as_str(), st);
            proof {
                assert(lines_of(out@) + Seq::<Seq<char>>::empty() =~= lines_of(out@));
            }
            r
        },
        Lsymc::List(items) => eval_keyword(items, st, out),
        _ => {
            proof {
                assert(lines_of(out@) + Seq::<Seq<char>>::empty() =~= lines_of(out@));
            }
            Err(EvalError::UnknownKeyword)
        },
    }
}

/// Evaluates the members of `list` from position `from` on, left to right,
/// as [`eval_args_spec`] states of that suffix, appending the values to
/// `vals` and the printed lines to `out`.
fn eval_args(
    list: &Vec<Lsymc>,
    from: usize,
    st: &mut Store,
    out: &mut Vec<String>,
    vals: &mut Vec<Lsymc>,
) -> (r: Result<(), EvalError>)
    requires
        old(st).wf(),
        from <= list@.len(),
    ensures
        ({
            let (res, lines) = eval_args_spec(sym_seq(list@).skip(from as int), old(st)@);
            &&& final(st)@ == old(st)@
            &&& final(st).wf()
            &&& lines_of(final(out)@) == lines_of(old(out)@) + lines
            &&& match (r, res) {
                (Ok(()), Ok(vs)) => sym_seq(final(vals)@) == sym_seq(old(vals)@) + vs,
                (Err(e), Err(m)) => e@ == m,
                _ => false,
            }
        }),
    decreases *list, list@.len() - from,
{
    let ghost syms = sym_seq(list@);
    proof {
        crate::lsymc::lemma_sym_seq(list@);
    }
    if from >= list.len() {
        proof {
            assert(syms.skip(from as int) =~= Seq::<SymV>::empty());
            assert(lines_of(out@) + Seq::<Seq<char>>::empty() =~= lines_of(out@));
            assert(sym_seq(vals@) + Seq::<SymV>::empty() =~= sym_seq(vals@));
        }
        return Ok(());
    }
    proof {
        assert(syms.skip(from as int)[0] == syms[from as int]);
        assert(syms.skip(from as int).drop_first() =~= syms.skip(from as int + 1));
    }
    let v0 = match eval_lsymc(&list[from], st, out) {
        Ok(v) => v,
        Err(e) => {
            return Err(e);
        },
    };
    let ghost vals_before = vals@;
    vals.push(v0);
    proof {
        crate::lsymc::lemma_sym_seq_push(vals_before, v0);
        assert(sym_seq(vals@) =~= sym_seq(vals_before) + seq![v0@]);
    }
    let ghost vals_mid = vals@;
    match eval_args(list, from + 1, st, out, vals) {
        Ok(()) => {
            proof {
                let (r0, l0) = eval_spec(syms[from as int], old(st)@);
                let (rest, lrest) = eval_args_spec(syms.skip(from as int + 1), old(st)@);
                assert(v0@ == r0->Ok_0);
                assert(sym_seq(vals@) == sym_seq(vals_mid) + rest->Ok_0);
                assert(lines_of(out@) =~= lines_of(old(out)@) + (l0 + lrest));
                assert(sym_seq(vals@) =~= sym_seq(vals_before) + (seq![r0->Ok_0] + rest->Ok_0));
            }
            Ok(())
        },
        Err(e) => {
            proof {
                let (r0, l0) = eval_spec(syms[from as int], old(st)@);
                let (rest, lrest) = eval_args_spec(syms.skip(from as int + 1), old(st)@);
                assert(lines_of(out@) =~= lines_of(old(out)@) + (l0 + lrest));
            }
            Err(e)
        },
    }
}

/// The length primitive, as [`eval_len_spec`] states.
pub fn eval_len(list: &Vec<Lsymc>, st: &mut Store, out: &mut Vec<String>) -> (r: Result<
    Lsymc,
    EvalError,
>)
    requires
        old(st).wf(),
    ensures
        ({
            let (res, lines) = eval_len_spec(sym_seq(list@), old(st)@);
            &&& final(st)@ == old(st)@
            &&& final(st).wf()
            &&& lines_of(final(out)@) == lines_of(old(out)@) + lines
            &&& outcome_matches(r, res)
        }),
    decreases *list, list@.len() + 1,
{
    let ghost syms = sym_seq(list@);
    proof {
        crate::lsymc::lemma_sym_seq(list@);
    }
    if list.len() != 2 {
        proof {
            assert(lines_of(out@) + Seq::<Seq<char>>::empty() =~= lines_of(out@));
        }
        return Err(EvalError::ArityMismatch);
    }
    match eval_lsymc(&list[1], st, out) {
        Err(e) => Err(e),
        Ok(v) => match v {
            Lsymc::List(l) => {
                let n = l.len();
                proof {
                    crate::lsymc::lemma_sym_seq(l@);
                }
                Ok(Lsymc::Int(#[verifier::truncate] (n as i64)))
            },
            other => Err(EvalError::NotAList(other)),
        },
    }
}

/// The emptiness primitive, as [`eval_nil_spec`] states.
pub fn eval_nil(list: &Vec<Lsymc>, st: &mut Store, out: &mut Vec<String>) -> (r: Result<
    Lsymc,
    EvalError,
>)
    requires
        old(st).wf(),
    ensures
        ({
            let (res, lines) = eval_nil_spec(sym_seq(list@), old(st)@);
            &&& final(st)@ == old(st)@
            &&& final(st).wf()
            &&& lines_of(final(out)@) == lines_of(old(out)@) + lines
            &&& outcome_matches(r, res)
        }),
    decreases *list, list@.len() + 1,
{
    let ghost syms = sym_seq(list@);
    proof {
        crate::lsymc::lemma_sym_seq(list@);
    }
    if list.len() != 2 {
        proof {
            assert(lines_of(out@) + Seq::<Seq<char>>::empty() =~= lines_of(out@));
        }
        return Err(EvalError::ArityMismatch);
    }
    match eval_lsymc(&list[1], st, out) {
        Err(e) => Err(e),
        Ok(v) => match v {
            Lsymc::List(l) => {
                let empty = l.len() == 0;
                proof {
                    crate::lsymc::lemma_sym_seq(l@);
                }
                Ok(Lsymc::Bool(empty))
            },
            other => Err(EvalError::NotANullableList(other)),
        },
    }
}

/// The print primitive, as [`print_spec`] states: the operands' values are
/// rendered into one line, which is appended to `out`.
pub fn print_list(list: &Vec<Lsymc>, st: &mut Store, out: &mut Vec<String>) -> (r: Result<
    Lsymc,
    EvalError,
>)
    requires
        old(st).wf(),
        list@.len() >= 1,
    ensures
        ({
            let (res, lines) = print_spec(sym_seq(list@), old(st)@);
            &&& final(st)@ == old(st)@
            &&& final(st).wf()
            &&& lines_of(final(out)@) == lines_of(old(out)@) + lines
            &&& outcome_matches(r, res)
        }),
    decreases *list, list@.len() + 1,
{
    let ghost syms = sym_seq(list@);
    proof {
        crate::lsymc::lemma_sym_seq(list@);
        assert(syms.skip(1) =~= syms.drop_first());
    }
    let mut vals: Vec<Lsymc> = Vec::new();
    match eval_args(list, 1, st, out, &mut vals) {
        Err(e) => Err(e),
        Ok(()) => {
            let ghost out_mid = out@;
            proof {
                assert(sym_seq(Seq::<Lsymc>::empty()) =~= Seq::<SymV>::empty());
                let (rv, lv) = eval_args_spec(syms.drop_first(), old(st)@);
                assert(sym_seq(vals@) =~= rv->Ok_0);
            }
            let joined = join_render(&vals, ' ');
            let line = chars_string(&joined);
            out.push(line);
            proof {
                let (rv, lv) = eval_args_spec(syms.drop_first(), old(st)@);
                assert(lines_of(out@) =~= lines_of(out_mid).push(join_render_spec(
                    sym_seq(vals@),
                    ' ',
                )));
                assert(lines_of(out@) =~= lines_of(old(out)@) + lv.push(
                    join_render_spec(sym_seq(vals@), ' '),
                ));
            }
            Ok(Lsymc::Nil)
        },
    }
}

/// Evaluates the bindings of a binding form from position `from` on, as
/// [`eval_binds_spec`] states of that suffix: each value is computed in the
/// enclosing environment `st` and recorded in the scratch environment.
fn eval_binds(
    binds: &Vec<Lsymc>,
    from: usize,
    st: &mut Store,
    out: &mut Vec<String>,
    scratch: &mut Store,
) -> (r: Result<(), EvalError>)
    requires
        old(st).wf(),
        old(scratch).wf(),
        from <= binds@.len(),
    ensures
        ({
            let (res, lines) = eval_binds_spec(sym_seq(binds@).skip(from as int), old(st)@);
            &&& final(st)@ == old(st)@
            &&& final(st).wf()
            &&& lines_of(final(out)@) == lines_of(old(out)@) + lines
            &&& match (r, res) {
                (Ok(()), Ok(scope)) => final(scratch)@ == old(scratch)@.update(
                    old(scratch)@.len() - 1,
                    old(scratch)@.last() + scope,
                ) && final(scratch).wf(),
                (Err(e), Err(m)) => e@ == m,
                _ => false,
            }
        }),
    decreases *binds, binds@.len() - from,
{
    let ghost syms = sym_seq(binds@);
    proof {
        crate::lsymc::lemma_sym_seq(binds@);
    }
    if from >= binds.len() {
        proof {
            assert(syms.skip(from as int) =~= Seq::<SymV>::empty());
            assert(lines_of(out@) + Seq::<Seq<char>>::empty() =~= lines_of(out@));
            assert(scratch@ =~~= scratch@.update(
                scratch@.len() - 1,
                scratch@.last() + Seq::<(Seq<char>, SymV)>::empty(),
            ));
        }
        return Ok(());
    }
    proof {
        assert(syms.skip(from as int)[0] == syms[from as int]);
        assert(syms.skip(from as int).drop_first() =~= syms.skip(from as int + 1));
        assert(lines_of(out@) + Seq::<Seq<char>>::empty() =~= lines_of(out@));
    }
    let pair: &Vec<Lsymc> = match &binds[from] {
        Lsymc::List(p) => p,
        _ => {
            return Err(EvalError::InvalidDefBinding);
        },
    };
    proof {
        crate::lsymc::lemma_sym_seq(pair@);
    }
    if pair.len() != 2 {
        return Err(EvalError::InvalidDefBinding);
    }
    let name: &String = match &pair[0] {
        Lsymc::Ident(n) => n,
        _ => {
            return Err(EvalError::InvalidDefBinding);
        },
    };
    let v0 = match eval_lsymc(&pair[1], st, out) {
        Ok(v) => v,
        Err(e) => {
            return Err(e);
        },
    };
    let ghost scratch_before = scratch@;
    scratch.set(name.as_str(), v0);
    match eval_binds(binds, from + 1, st, out, scratch) {
        Ok(()) => {
            proof {
                let (r0, l0) = eval_spec(sym_seq(pair@)[1], old(st)@);
                let (rest, lrest) = eval_binds_spec(syms.skip(from as int + 1), old(st)@);
                assert(lines_of(out@) =~= lines_of(old(out)@) + (l0 + lrest));
                assert(scratch@ =~~= old(scratch)@.update(
                    old(scratch)@.len() - 1,
                    old(scratch)@.last() + (seq![(name@, r0->Ok_0)] + rest->Ok_0),
                ));
            }
            Ok(())
        },
        Err(e) => {
            proof {
                let (r0, l0) = eval_spec(sym_seq(pair@)[1], old(st)@);
                let (rest, lrest) = eval_binds_spec(syms.skip(from as int + 1), old(st)@);
                assert(lines_of(out@) =~= lines_of(old(out)@) + (l0 + lrest));
            }
            Err(e)
        },
    }
}

/// Evaluates the body expressions of a binding form from position `from`
/// on, in the current (child) environment, as [`eval_bodies_spec`] states
/// of that suffix.
fn eval_bodies(list: &Vec<Lsymc>, from: usize, st: &mut Store, out: &mut Vec<String>) -> (r: Result<
    Lsymc,
    EvalError,
>)
    requires
        old(st).wf(),
        from <= list@.len(),
    ensures
        ({
            let (res, lines) = eval_bodies_spec(sym_seq(list@).skip(from as int), old(st)@);
            &&& final(st)@ == old(st)@
            &&& final(st).wf()
            &&& lines_of(final(out)@) == lines_of(old(out)@) + lines
            &&& outcome_matches(r, res)
        }),
    decreases *list, list@.len() - from,
{
    let ghost syms = sym_seq(list@);
    proof {
        crate::lsymc::lemma_sym_seq(list@);
    }
    if from >= list.len() {
        proof {
            assert(syms.skip(from as int) =~= Seq::<SymV>::empty());
            assert(lines_of(out@) + Seq::<Seq<char>>::empty() =~= lines_of(out@));
        }
        return Ok(Lsymc::Nil);
    }
    proof {
        assert(syms.skip(from as int)[0] == syms[from as int]);
        assert(syms.skip(from as int).drop_first() =~= syms.skip(from as int + 1));
    }
    let v0 = match eval_lsymc(&list[from], st, out) {
        Ok(v) => v,
        Err(e) => {
            return Err(e);
        },
    };
    if from + 1 >= list.len() {
        return Ok(v0);
    }
    let r = eval_bodies(list, from + 1, st, out);
    proof {
        let (r0, l0) = eval_spec(syms[from as int], old(st)@);
        let (rest, lrest) = eval_bodies_spec(syms.skip(from as int + 1), old(st)@);
        assert(lines_of(out@) =~= lines_of(old(out)@) + (l0 + lrest));
    }
    r
}

/// The binding special form, as [`eval_def_spec`] states: the bindings are
/// evaluated in the enclosing environment and installed all at once in a
/// fresh child scope, the bodies run there in order, and the child scope is
/// discarded afterwards, whether the bodies succeeded or not.
pub fn eval_def(list: &Vec<Lsymc>, st: &mut Store, out: &mut Vec<String>) -> (r: Result<
    Lsymc,
    EvalError,
>)
    requires
        old(st).wf(),
    ensures
        ({
            let (res, lines) = eval_def_spec(sym_seq(list@), old(st)@);
            &&& final(st)@ == old(st)@
            &&& final(st).wf()
            &&& lines_of(final(out)@) == lines_of(old(out)@) + lines
            &&& outcome_matches(r, res)
        }),
    decreases *list, list@.len() + 1,
{
    let ghost syms = sym_seq(list@);
    proof {
        crate::lsymc::lemma_sym_seq(list@);
        assert(lines_of(out@) + Seq::<Seq<char>>::empty() =~= lines_of(out@));
    }
    if list.len() < 3 {
        return Err(EvalError::InvalidDefStatement);
    }
    let binds: &Vec<Lsymc> = match &list[1] {
        Lsymc::List(b) => b,
        _ => {
            return Err(EvalError::InvalidDefBinds);
        },
    };
    let ghost bsyms = sym_seq(binds@);
    let mut scratch = Store::new();
    match eval_binds(binds, 0, st, out, &mut scratch) {
        Err(e) => {
            proof {
                assert(bsyms.skip(0) =~= bsyms);
            }
            Err(e)
        },
        Ok(()) => {
            let ghost scope = eval_binds_spec(bsyms, old(st)@).0->Ok_0;
            proof {
                assert(bsyms.skip(0) =~= bsyms);
                assert(scratch@.last() =~= scope);
            }
            st.extend();
            st.update(&scratch);
            proof {
                assert(st@ =~~= old(st)@.push(scope));
            }
            let rb = eval_bodies(list, 2, st, out);
            st.retract();
            proof {
                assert(st@ =~= old(st)@);
                let lb = eval_binds_spec(bsyms, old(st)@).1;
                let (rr, lr) = eval_bodies_spec(syms.skip(2), old(st)@.push(scope));
                assert(lines_of(out@) =~= lines_of(old(out)@) + (lb + lr));
            }
            rb
        },
    }
}

/// A list in expression position, dispatched on its head as
/// [`eval_list_spec`] states.
pub fn eval_keyword(list: &Vec<Lsymc>, st: &mut Store, out: &mut Vec<String>) -> (r: Result<
    Lsymc,
    EvalError,
>)
    requires
        old(st).wf(),
    ensures
        ({
            let (res, lines) = eval_list_spec(sym_seq(list@), old(st)@);
            &&& final(st)@ == old(st)@
            &&& final(st).wf()
            &&& lines_of(final(out)@) == lines_of(old(out)@) + lines
            &&& outcome_matches(r, res)
        }),
    decreases *list, list@.len() + 2,
{
    let ghost syms = sym_seq(list@);
    proof {
        crate::lsymc::lemma_sym_seq(list@);
        assert(lines_of(out@) + Seq::<Seq<char>>::empty() =~= lines_of(out@));
    }
    if list.len() == 0 {
        return Err(EvalError::UnknownKeyword);
    }
    match &list[0] {
        Lsymc::Def => eval_def(list, st, out),
        Lsymc::Defn => eval_defn(list, st, out),
        Lsymc::Plus | Lsymc::Minus | Lsymc::Astrisk | Lsymc::Slash => {
            if list.len() < 2 {
                return Err(EvalError::ArityMismatch);
            }
            let mut vals: Vec<Lsymc> = Vec::new();
            proof {
                assert(syms.skip(1) =~= syms.drop_first());
            }
            match eval_args(list, 1, st, out, &mut vals) {
                Err(e) => Err(e),
                Ok(()) => {
                    proof {
                        assert(sym_seq(Seq::<Lsymc>::empty()) =~= Seq::<SymV>::empty());
                        let (rv, lv) = eval_args_spec(syms.drop_first(), old(st)@);
                        assert(sym_seq(vals@) =~= rv->Ok_0);
                    }
                    arith_fold(&list[0], &vals)
                },
            }
        },
        Lsymc::LT | Lsymc::GT | Lsymc::Equal | Lsymc::NotEqual => {
            if list.len() != 3 {
                return Err(EvalError::ArityMismatch);
            }
            let mut vals: Vec<Lsymc> = Vec::new();
            proof {
                assert(syms.skip(1) =~= syms.drop_first());
            }
            match eval_args(list, 1, st, out, &mut vals) {
                Err(e) => Err(e),
                Ok(()) => {
                    proof {
                        assert(sym_seq(Seq::<Lsymc>::empty()) =~= Seq::<SymV>::empty());
                        let (rv, lv) = eval_args_spec(syms.drop_first(), old(st)@);
                        assert(sym_seq(vals@) =~= rv->Ok_0);
                        crate::lsymc::lemma_sym_seq(vals@);
                    }
                    cmp_vals(&list[0], &vals[0], &vals[1])
                },
            }
        },
        Lsymc::Ident(s) => {
            let owned = s.clone();
            if owned == "print".to_owned() {
                print_list(list, st, out)
            } else if owned == "length".to_owned() {
                eval_len(list, st, out)
            } else if owned == "is-empty".to_owned() {
                eval_nil(list, st, out)
            } else {
                Err(EvalError::UnknownKeyword)
            }
        },
        _ => Err(EvalError::UnknownKeyword),
    }
}

} // verus!
