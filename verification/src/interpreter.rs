//! Tree-walking evaluation against a mutable variable environment.
//!
//! Every statement evaluates to a numeric value (declarations and prints
//! yield a neutral zero, so all nodes share one evaluation function), may
//! bind a variable, and may append to the printable output. Failures —
//! a reference to an undefined variable, arithmetic leaving the numeric
//! range, division by zero, an operator token no production routes to —
//! are explicit result values, so a failing statement leaves the session
//! able to continue with the next line.
//!
//! Evaluation is mirrored by `spec_eval` over the mathematical face of the
//! syntax tree, and `interpret` is proved to produce exactly the
//! environment, output and result that `spec_run` describes.

use vstd::hash_map::StringHashMap;
use vstd::prelude::*;

use crate::lexer::{chars_to_string, SpecToken, Token};
use crate::parser::{
    sp_adv, sp_cur, sp_expression, sp_factor, sp_statement, sp_term_rest, ASTNode, SpecNode,
};

verus! {

/// A fatal evaluation failure.
#[derive(Debug, PartialEq)]
pub enum EvalError {
    /// The named variable was referenced but never declared.
    UndefinedVariable(String),
    /// A binary operation carried a token that is not an operator.
    UnexpectedOperator(Token),
    /// The mathematical result does not fit the numeric type.
    Overflow,
    /// Division by zero.
    DivisionByZero,
}

/// The mathematical face of an evaluation failure.
pub enum SpecEvalError {
    UndefinedVariable(Seq<char>),
    UnexpectedOperator(SpecToken),
    Overflow,
    DivisionByZero,
}

impl DeepView for EvalError {
    type V = SpecEvalError;

    open spec fn deep_view(&self) -> SpecEvalError {
        match self {
            EvalError::UndefinedVariable(name) => SpecEvalError::UndefinedVariable(name@),
            EvalError::UnexpectedOperator(t) => SpecEvalError::UnexpectedOperator(t.deep_view()),
            EvalError::Overflow => SpecEvalError::Overflow,
            EvalError::DivisionByZero => SpecEvalError::DivisionByZero,
        }
    }
}

/// What evaluating one node (or a whole program) does: the environment it
/// leaves behind, the output it appends, and its value or failure. On a
/// failure, `env` and `out` hold the state at the moment of the abort.
pub struct EvalOutcome {
    pub env: Map<Seq<char>, i64>,
    pub out: Seq<char>,
    pub res: Result<i64, SpecEvalError>,
}

pub open spec fn digit_ch(d: nat) -> char {
    if d == 0 {
        '0'
    } else if d == 1 {
        '1'
    } else if d == 2 {
        '2'
    } else if d == 3 {
        '3'
    } else if d == 4 {
        '4'
    } else if d == 5 {
        '5'
    } else if d == 6 {
        '6'
    } else if d == 7 {
        '7'
    } else if d == 8 {
        '8'
    } else {
        '9'
    }
}

/// Decimal digits of `n`, most significant first, no leading zeros (except
/// for zero itself).
pub open spec fn dec_digits(n: nat) -> Seq<char>
    decreases n,
{
    if n < 10 {
        seq![digit_ch(n)]
    } else {
        dec_digits(n / 10) + seq![digit_ch(n % 10)]
    }
}

/// The textual rendering of a value: its decimal digits, with a leading
/// minus sign when negative.
pub open spec fn rendered(v: int) -> Seq<char> {
    if v < 0 {
        seq!['-'] + dec_digits((-v) as nat)
    } else {
        dec_digits(v as nat)
    }
}

/// What evaluating `node` against `env` does.
///
/// A number is its value. A variable is looked up, an undefined one is a
/// failure. A declaration evaluates its expression, binds the name — the
/// last declaration of a name wins — and yields zero. The print forms
/// evaluate their expression and append its rendering to the output, the
/// print-line form with a trailing line break, and yield zero. A binary
/// operation evaluates the left operand, then the right, then applies the
/// operator with the checked arithmetic of the numeric type.
pub open spec fn spec_eval(env: Map<Seq<char>, i64>, node: SpecNode) -> EvalOutcome
    decreases node,
{
    match node {
        SpecNode::Number(n) => EvalOutcome { env, out: Seq::empty(), res: Ok(n) },
        SpecNode::Variable(name) => if env.contains_key(name) {
            EvalOutcome { env, out: Seq::empty(), res: Ok(env[name]) }
        } else {
            EvalOutcome { env, out: Seq::empty(), res: Err(SpecEvalError::UndefinedVariable(name)) }
        },
        SpecNode::VariableDeclaration { name, expr } => {
            let sub = spec_eval(env, *expr);
            match sub.res {
                Ok(v) => EvalOutcome { env: sub.env.insert(name, v), out: sub.out, res: Ok(0) },
                Err(_) => sub,
            }
        },
        SpecNode::Print(expr) => {
            let sub = spec_eval(env, *expr);
            match sub.res {
                Ok(v) => EvalOutcome {
                    env: sub.env,
                    out: sub.out + rendered(v as int),
                    res: Ok(0),
                },
                Err(_) => sub,
            }
        },
        SpecNode::PrintLn(expr) => {
            let sub = spec_eval(env, *expr);
            match sub.res {
                Ok(v) => EvalOutcome {
                    env: sub.env,
                    out: sub.out + rendered(v as int) + seq!['\n'],
                    res: Ok(0),
                },
                Err(_) => sub,
            }
        },
        SpecNode::BinaryOp { left, operator, right } => {
            let lhs = spec_eval(env, *left);
            match lhs.res {
                Err(_) => lhs,
                Ok(l) => {
                    let rhs = spec_eval(lhs.env, *right);
                    let out = lhs.out + rhs.out;
                    match rhs.res {
                        Err(e) => EvalOutcome { env: rhs.env, out, res: Err(e) },
                        Ok(r) => {
                            let env2 = rhs.env;
                            match operator {
                                SpecToken::Plus => match l.checked_add(r) {
                                    Some(v) => EvalOutcome { env: env2, out, res: Ok(v) },
                                    None => EvalOutcome {
                                        env: env2,
                                        out,
                                        res: Err(SpecEvalError::Overflow),
                                    },
                                },
                                SpecToken::Minus => match l.checked_sub(r) {
                                    Some(v) => EvalOutcome { env: env2, out, res: Ok(v) },
                                    None => EvalOutcome {
                                        env: env2,
                                        out,
                                        res: Err(SpecEvalError::Overflow),
                                    },
                                },
                                SpecToken::Multiply => match l.checked_mul(r) {
                                    Some(v) => EvalOutcome { env: env2, out, res: Ok(v) },
                                    None => EvalOutcome {
                                        env: env2,
                                        out,
                                        res: Err(SpecEvalError::Overflow),
                                    },
                                },
                                SpecToken::Divide => if r == 0 {
                                    EvalOutcome {
                                        env: env2,
                                        out,
                                        res: Err(SpecEvalError::DivisionByZero),
                                    }
                                } else {
                                    match l.checked_div(r) {
                                        Some(v) => EvalOutcome { env: env2, out, res: Ok(v) },
                                        None => EvalOutcome {
                                            env: env2,
                                            out,
                                            res: Err(SpecEvalError::Overflow),
                                        },
                                    }
                                },
                                t => EvalOutcome {
                                    env: env2,
                                    out,
                                    res: Err(SpecEvalError::UnexpectedOperator(t)),
                                },
                            }
                        },
                    }
                },
            }
        },
    }
}

/// What evaluating a sequence of statements does: each in order, stopping
/// at the first failure; the environment and the output accumulate.
pub open spec fn spec_run(env: Map<Seq<char>, i64>, nodes: Seq<SpecNode>) -> EvalOutcome
    decreases nodes.len(),
{
    if nodes.len() == 0 {
        EvalOutcome { env, out: Seq::empty(), res: Ok(0) }
    } else {
        let first = spec_eval(env, nodes[0]);
        match first.res {
            Ok(_) => {
                let rest = spec_run(first.env, nodes.drop_first());
                EvalOutcome { env: rest.env, out: first.out + rest.out, res: rest.res }
            },
            Err(_) => first,
        }
    }
}

pub open spec fn eval_res_view(r: Result<i64, EvalError>) -> Result<i64, SpecEvalError> {
    match r {
        Ok(v) => Ok(v),
        Err(e) => Err(e.deep_view()),
    }
}

/// The expression holds no variable declaration, so evaluating it cannot
/// bind anything.
pub open spec fn decl_free(node: SpecNode) -> bool
    decreases node,
{
    match node {
        SpecNode::VariableDeclaration { name, expr } => false,
        SpecNode::Variable(_) => true,
        SpecNode::Print(expr) => decl_free(*expr),
        SpecNode::PrintLn(expr) => decl_free(*expr),
        SpecNode::Number(_) => true,
        SpecNode::BinaryOp { left, operator, right } => decl_free(*left) && decl_free(*right),
    }
}

/// Evaluating a declaration-free node leaves the environment untouched,
/// whether it succeeds or fails.
pub proof fn lemma_decl_free_env(env: Map<Seq<char>, i64>, node: SpecNode)
    requires
        decl_free(node),
    ensures
        spec_eval(env, node).env == env,
    decreases node,
{
    match node {
        SpecNode::Print(expr) => lemma_decl_free_env(env, *expr),
        SpecNode::PrintLn(expr) => lemma_decl_free_env(env, *expr),
        SpecNode::BinaryOp { left, operator, right } => {
            lemma_decl_free_env(env, *left);
            let lhs = spec_eval(env, *left);
            if lhs.res is Ok {
                lemma_decl_free_env(env, *right);
            }
        },
        _ => {},
    }
}

/// Evaluating the same print or print-line statement twice — its expression
/// free of declarations, as every parsed one is — leaves the environment
/// unchanged and produces the identical outcome both times: the read-only
/// print path hides no mutation.
pub proof fn lemma_print_statement_repeatable(env: Map<Seq<char>, i64>, node: SpecNode)
    requires
        node is Print || node is PrintLn,
        decl_free(node),
    ensures
        spec_eval(env, node).env == env,
        spec_eval(spec_eval(env, node).env, node) == spec_eval(env, node),
{
    lemma_decl_free_env(env, node);
}

proof fn lemma_sp_term_rest_decl_free(left: SpecNode, ts: Seq<SpecToken>)
    requires
        decl_free(left),
        !(left is Print),
        !(left is PrintLn),
    ensures
        ({
            let (r, rest) = sp_term_rest(left, ts);
            r is Ok ==> decl_free(r->Ok_0) && !(r->Ok_0 is Print) && !(r->Ok_0 is PrintLn)
        }),
    decreases ts.len(),
{
    let c = sp_cur(ts);
    if c is Plus || c is Minus {
        let ts1 = sp_adv(ts);
        let (f, ts2) = sp_factor(ts1);
        match f {
            Ok(right) => {
                assert(decl_free(right));
                let combined = SpecNode::BinaryOp {
                    left: Box::new(left),
                    operator: c,
                    right: Box::new(right),
                };
                lemma_sp_term_rest_decl_free(combined, ts2);
            },
            Err(_) => {},
        }
    }
}

/// Whatever the expression grammar accepts contains no declaration and no
/// print form: only variable references, number literals, and sums and
/// differences of literals.
pub proof fn lemma_sp_expression_decl_free(ts: Seq<SpecToken>)
    ensures
        ({
            let (r, rest) = sp_expression(ts);
            r is Ok ==> decl_free(r->Ok_0) && !(r->Ok_0 is Print) && !(r->Ok_0 is PrintLn)
        }),
{
    if !(sp_cur(ts) is Identifier) {
        let (f, ts1) = sp_factor(ts);
        match f {
            Ok(first) => lemma_sp_term_rest_decl_free(first, ts1),
            Err(_) => {},
        }
    }
}

/// Every print or print-line statement the parser builds can be evaluated
/// twice against the same environment with the identical outcome both
/// times: its expression comes from the expression grammar, which admits no
/// declaration, so the first evaluation leaves the environment unchanged.
pub proof fn lemma_parsed_print_statement_repeatable(
    ts: Seq<SpecToken>,
    env: Map<Seq<char>, i64>,
)
    requires
        sp_statement(ts).0 is Ok,
        sp_statement(ts).0->Ok_0 is Print || sp_statement(ts).0->Ok_0 is PrintLn,
    ensures
        ({
            let node = sp_statement(ts).0->Ok_0;
            spec_eval(env, node).env == env && spec_eval(spec_eval(env, node).env, node)
                == spec_eval(env, node)
        }),
{
    let node = sp_statement(ts).0->Ok_0;
    match sp_cur(ts) {
        SpecToken::Print => lemma_sp_expression_decl_free(sp_adv(ts)),
        SpecToken::PrintLn => lemma_sp_expression_decl_free(sp_adv(ts)),
        SpecToken::Let => {},
        _ => lemma_sp_expression_decl_free(ts),
    }
    lemma_print_statement_repeatable(env, node);
}

/// A session: a variable environment that persists across statements and
/// lines, owned exclusively by this instance.
pub struct Interpreter {
    variables: StringHashMap<i64>,
}

impl View for Interpreter {
    type V = Map<Seq<char>, i64>;

    closed spec fn view(&self) -> Map<Seq<char>, i64> {
        self.variables@
    }
}

impl Interpreter {
    /// A fresh session with an empty environment.
    pub fn new() -> (interpreter: Interpreter)
        ensures
            interpreter@ == Map::<Seq<char>, i64>::empty(),
    {
        Interpreter { variables: StringHashMap::new() }
    }

    /// Evaluates one node, mutating the environment and appending to the
    /// output exactly as `spec_eval` describes.
    fn evaluate(&mut self, node: &ASTNode, out: &mut Vec<char>) -> (r: Result<i64, EvalError>)
        ensures
            ({
                let o = spec_eval(old(self)@, node.deep_view());
                final(self)@ == o.env && final(out)@ == old(out)@ + o.out && eval_res_view(r)
                    == o.res
            }),
        decreases node,
    {
        match node {
            ASTNode::Number(n) => {
                proof {
                    assert(out@ =~= out@ + Seq::<char>::empty());
                }
                Ok(*n)
            },
            ASTNode::Variable(name) => {
                proof {
                    assert(out@ =~= out@ + Seq::<char>::empty());
                }
                match self.variables.get(name.as_str()) {
                    Some(v) => Ok(*v),
                    None => Err(EvalError::UndefinedVariable(name.clone())),
                }
            },
            ASTNode::VariableDeclaration(name, expr) => {
                let value = match self.evaluate(expr, out) {
                    Ok(v) => v,
                    Err(e) => {
                        return Err(e);
                    },
                };
                self.variables.insert(name.clone(), value);
                Ok(0)
            },
            ASTNode::Print(expr) => {
                let ghost out0 = out@;
                let value = match self.evaluate(expr, out) {
                    Ok(v) => v,
                    Err(e) => {
                        return Err(e);
                    },
                };
                render_value(value, out);
                proof {
                    let sub = spec_eval(old(self)@, expr.deep_view());
                    assert(out@ =~= out0 + (sub.out + rendered(value as int)));
                }
                Ok(0)
            },
            ASTNode::PrintLn(expr) => {
                let ghost out0 = out@;
                let value = match self.evaluate(expr, out) {
                    Ok(v) => v,
                    Err(e) => {
                        return Err(e);
                    },
                };
                render_value(value, out);
                out.push('\n');
                proof {
                    let sub = spec_eval(old(self)@, expr.deep_view());
                    assert(out@ =~= out0 + (sub.out + rendered(value as int) + seq!['\n']));
                }
                Ok(0)
            },
            ASTNode::BinaryOp { left, operator, right } => {
                let ghost out0 = out@;
                let l = match self.evaluate(left, out) {
                    Ok(v) => v,
                    Err(e) => {
                        return Err(e);
                    },
                };
                let ghost lhs = spec_eval(old(self)@, left.deep_view());
                let r_val = match self.evaluate(right, out) {
                    Ok(v) => v,
                    Err(e) => {
                        proof {
                            let rhs = spec_eval(lhs.env, right.deep_view());
                            assert(out@ =~= out0 + (lhs.out + rhs.out));
                        }
                        return Err(e);
                    },
                };
                proof {
                    let rhs = spec_eval(lhs.env, right.deep_view());
                    assert(out@ =~= out0 + (lhs.out + rhs.out));
                }
                match operator {
                    Token::Plus => match l.checked_add(r_val) {
                        Some(v) => Ok(v),
                        None => Err(EvalError::Overflow),
                    },
                    Token::Minus => match l.checked_sub(r_val) {
                        Some(v) => Ok(v),
                        None => Err(EvalError::Overflow),
                    },
                    Token::Multiply => match l.checked_mul(r_val) {
                        Some(v) => Ok(v),
                        None => Err(EvalError::Overflow),
                    },
                    Token::Divide => if r_val == 0 {
                        Err(EvalError::DivisionByZero)
                    } else {
                        match l.checked_div(r_val) {
                            Some(v) => Ok(v),
                            None => Err(EvalError::Overflow),
                        }
                    },
                    _ => Err(EvalError::UnexpectedOperator(operator.clone())),
                }
            },
        }
    }

    /// Evaluates the statements in order against this session's
    /// environment. On success returns the whole printable output; on the
    /// first failure stops and returns it, keeping the environment as the
    /// abort left it.
    pub fn interpret(&mut self, nodes: &Vec<ASTNode>) -> (r: Result<String, EvalError>)
        ensures
            ({
                let o = spec_run(old(self)@, nodes.deep_view());
                final(self)@ == o.env && (match r {
                    Ok(s) => o.res is Ok && s@ == o.out,
                    Err(e) => o.res == Err::<i64, SpecEvalError>(e.deep_view()),
                })
            }),
    {
        let ghost all = nodes.deep_view();
        let mut out: Vec<char> = Vec::new();
        let mut i: usize = 0;
        proof {
            assert(all.skip(0) =~= all);
            assert(out@ + spec_run(self@, all).out =~= spec_run(self@, all).out);
        }
        while i < nodes.len()
            invariant
                i <= nodes.len(),
                all == nodes.deep_view(),
                ({
                    let rest = spec_run(self@, all.skip(i as int));
                    let total = spec_run(old(self)@, all);
                    total.env == rest.env && total.out == out@ + rest.out && total.res == rest.res
                }),
            decreases nodes.len() - i,
        {
            let ghost env0 = self@;
            let ghost out0 = out@;
            proof {
                assert(all.skip(i as int)[0] == all[i as int]);
                assert(all.skip(i as int).drop_first() =~= all.skip(i as int + 1));
            }
            match self.evaluate(&nodes[i], &mut out) {
                Ok(_) => {},
                Err(e) => {
                    return Err(e);
                },
            }
            proof {
                let first = spec_eval(env0, all[i as int]);
                let rest = spec_run(self@, all.skip(i as int + 1));
                assert(out0 + (first.out + rest.out) =~= (out0 + first.out) + rest.out);
            }
            i = i + 1;
        }
        proof {
            assert(all.skip(nodes@.len() as int) =~= Seq::<SpecNode>::empty());
            assert(out@ + Seq::<char>::empty() =~= out@);
        }
        Ok(chars_to_string(out))
    }
}

fn digit_to_char(d: u64) -> (c: char)
    requires
        d < 10,
    ensures
        c == digit_ch(d as nat),
{
    if d == 0 {
        '0'
    } else if d == 1 {
        '1'
    } else if d == 2 {
        '2'
    } else if d == 3 {
        '3'
    } else if d == 4 {
        '4'
    } else if d == 5 {
        '5'
    } else if d == 6 {
        '6'
    } else if d == 7 {
        '7'
    } else if d == 8 {
        '8'
    } else {
        '9'
    }
}

fn push_digits(n: u64, out: &mut Vec<char>)
    ensures
        final(out)@ == old(out)@ + dec_digits(n as nat),
    decreases n,
{
    if n >= 10 {
        push_digits(n / 10, out);
        let c = digit_to_char(n % 10);
        out.push(c);
        proof {
            assert(out@ =~= old(out)@ + dec_digits(n as nat));
        }
    } else {
        let c = digit_to_char(n);
        out.push(c);
        proof {
            assert(out@ =~= old(out)@ + dec_digits(n as nat));
        }
    }
}

/// Appends the decimal rendering of `v` to `out`.
fn render_value(v: i64, out: &mut Vec<char>)
    ensures
        final(out)@ == old(out)@ + rendered(v as int),
{
    if v >= 0 {
        push_digits(v as u64, out);
    } else {
        out.push('-');
        let magnitude: u64 = ((-(v + 1)) as u64) + 1;
        push_digits(magnitude, out);
        proof {
            assert(out@ =~= old(out)@ + rendered(v as int));
        }
    }
}

} // verus!
