//! The two interpolation front ends. Both substitute the rendered,
//! escaped textual form of a bound literal for each placeholder, so no
//! raw caller string ever reaches the lexer and embedded quotes or
//! keywords cannot change the shape of the query.
//!
//! Quoted form: `{}` takes the next positional value, `{name}` takes the
//! named binding. Unquoted form: `{name}` expands to `name = <value>` and
//! `{<op>name}` to `name <op> <value>` for `<op>` among `>`, `<`, `>=`,
//! `<=`, `!=`.

use vstd::prelude::*;
use crate::lexer::subvec;
use crate::literal::{
    chars_to_string, is_float_lexeme, push_rendered, spec_literal_wf, spec_render, str_chars,
    Literal, SpecLiteral,
};
use crate::token::Operator;

verus! {

/// Spec-level model of an interpolation failure.
pub enum SpecInterpError {
    PositionalMismatch { pos: usize },
    Unbound { pos: usize, name: Seq<char> },
    BadOperator { pos: usize },
    UnclosedBrace { pos: usize },
    BadFloat { pos: usize },
}

/// An interpolation failure, found before lexing is attempted. `pos` is
/// the character offset of the offending placeholder (or the template
/// length, for positional values left over at the end).
#[derive(Debug, Clone, PartialEq)]
pub enum InterpError {
    /// The number of `{}` placeholders does not match the number of
    /// supplied positional values.
    PositionalMismatch { pos: usize },
    /// A named placeholder has no binding in the environment.
    Unbound { pos: usize, name: String },
    /// An unquoted-form placeholder carries an unrecognized operator
    /// prefix.
    BadOperator { pos: usize },
    /// A `{` with no matching `}`.
    UnclosedBrace { pos: usize },
    /// A bound float whose lexeme is not `digits.digits` with an optional
    /// leading `-`; substituting it raw could change the query's shape.
    BadFloat { pos: usize },
}

impl DeepView for InterpError {
    type V = SpecInterpError;

    open spec fn deep_view(&self) -> SpecInterpError {
        match self {
            InterpError::PositionalMismatch { pos } => SpecInterpError::PositionalMismatch {
                pos: *pos,
            },
            InterpError::Unbound { pos, name } => SpecInterpError::Unbound {
                pos: *pos,
                name: name@,
            },
            InterpError::BadOperator { pos } => SpecInterpError::BadOperator { pos: *pos },
            InterpError::UnclosedBrace { pos } => SpecInterpError::UnclosedBrace { pos: *pos },
            InterpError::BadFloat { pos } => SpecInterpError::BadFloat { pos: *pos },
        }
    }
}

/// Looks a name up in an environment of named bindings, first match wins.
pub open spec fn spec_lookup(env: Seq<(Seq<char>, SpecLiteral)>, name: Seq<char>) -> Option<
    SpecLiteral,
>
    decreases env.len(),
{
    if env.len() == 0 {
        None
    } else if env[0].0 == name {
        Some(env[0].1)
    } else {
        spec_lookup(env.skip(1), name)
    }
}

/// The first `}` at or after `i`.
pub open spec fn spec_find_close(s: Seq<char>, i: int) -> Option<int>
    decreases s.len() - i,
{
    if i < 0 || i >= s.len() {
        None
    } else if s[i] == '}' {
        Some(i)
    } else {
        spec_find_close(s, i + 1)
    }
}

pub open spec fn spec_is_op_char(c: char) -> bool {
    c == '<' || c == '>' || c == '!' || c == '='
}

/// End of the operator-character run that starts at `i`.
pub open spec fn spec_scan_opchars(s: Seq<char>, i: int) -> int
    decreases s.len() - i,
{
    if i < s.len() && spec_is_op_char(s[i]) {
        spec_scan_opchars(s, i + 1)
    } else {
        i
    }
}

/// The operator an unquoted-form prefix stands for.
pub open spec fn spec_prefix_op(s: Seq<char>) -> Option<Operator> {
    if s == seq!['>'] {
        Some(Operator::Gt)
    } else if s == seq!['<'] {
        Some(Operator::Lt)
    } else if s == seq!['>', '='] {
        Some(Operator::Ge)
    } else if s == seq!['<', '='] {
        Some(Operator::Le)
    } else if s == seq!['!', '='] {
        Some(Operator::Ne)
    } else {
        None
    }
}

/// The textual symbol of a comparison operator, as the unquoted form
/// writes it into the expanded template.
pub open spec fn spec_op_symbol(op: Operator) -> Seq<char> {
    match op {
        Operator::Eq => seq!['='],
        Operator::Ne => seq!['!', '='],
        Operator::Gt => seq!['>'],
        Operator::Lt => seq!['<'],
        Operator::Ge => seq!['>', '='],
        Operator::Le => seq!['<', '='],
        Operator::In => seq![],
    }
}

/// Quoted-form interpolation from position `i`, with `p` positional
/// values already consumed: every `{}` takes the next positional value,
/// every `{name}` its named binding, and each placeholder is replaced by
/// the bound literal's rendered, escaped form. All positional values
/// must be consumed by the template's end.
pub open spec fn sq_quoted(
    t: Seq<char>,
    i: int,
    positional: Seq<SpecLiteral>,
    p: int,
    env: Seq<(Seq<char>, SpecLiteral)>,
) -> Result<Seq<char>, SpecInterpError>
    decreases t.len() - i,
{
    if i >= t.len() {
        if p == positional.len() {
            Ok(Seq::empty())
        } else {
            Err(SpecInterpError::PositionalMismatch { pos: t.len() as usize })
        }
    } else if t[i] == '{' {
        match spec_find_close(t, i + 1) {
            None => Err(SpecInterpError::UnclosedBrace { pos: i as usize }),
            Some(j) => {
                let name = t.subrange(i + 1, j);
                let bound = if name.len() == 0 {
                    if p < positional.len() {
                        Ok(positional[p])
                    } else {
                        Err(SpecInterpError::PositionalMismatch { pos: i as usize })
                    }
                } else {
                    match spec_lookup(env, name) {
                        Some(l) => Ok(l),
                        None => Err(SpecInterpError::Unbound { pos: i as usize, name }),
                    }
                };
                match bound {
                    Err(e) => Err(e),
                    Ok(l) => {
                        if !spec_literal_wf(l) {
                            Err(SpecInterpError::BadFloat { pos: i as usize })
                        } else if i < j + 1 <= t.len() {
                            let p2 = if name.len() == 0 {
                                p + 1
                            } else {
                                p
                            };
                            match sq_quoted(t, j + 1, positional, p2, env) {
                                Ok(rest) => Ok(spec_render(l) + rest),
                                Err(e) => Err(e),
                            }
                        } else {
                            // the closing brace lies at or after `i`; never reached
                            Ok(Seq::empty())
                        }
                    },
                }
            },
        }
    } else {
        match sq_quoted(t, i + 1, positional, p, env) {
            Ok(rest) => Ok(seq![t[i]] + rest),
            Err(e) => Err(e),
        }
    }
}

/// Quoted-form interpolation of a whole template: the fully-literal
/// source the lexer will read, or the first interpolation failure.
pub open spec fn spec_interp_quoted(
    t: Seq<char>,
    positional: Seq<SpecLiteral>,
    env: Seq<(Seq<char>, SpecLiteral)>,
) -> Result<Seq<char>, SpecInterpError> {
    sq_quoted(t, 0, positional, 0, env)
}

/// Unquoted-form interpolation from position `i`: `{name}` expands to
/// `name = <rendered value>`, `{<op>name}` to `name <op> <rendered
/// value>`; everything else passes through unchanged.
pub open spec fn su_unquoted(t: Seq<char>, i: int, env: Seq<(Seq<char>, SpecLiteral)>) -> Result<
    Seq<char>,
    SpecInterpError,
>
    decreases t.len() - i,
{
    if i >= t.len() {
        Ok(Seq::empty())
    } else if t[i] == '{' {
        match spec_find_close(t, i + 1) {
            None => Err(SpecInterpError::UnclosedBrace { pos: i as usize }),
            Some(j) => {
                let k0 = spec_scan_opchars(t, i + 1);
                let k = if k0 > j {
                    j
                } else {
                    k0
                };
                let opchars = t.subrange(i + 1, k);
                let name = t.subrange(k, j);
                let op_opt = if opchars.len() == 0 {
                    Some(Operator::Eq)
                } else {
                    spec_prefix_op(opchars)
                };
                match op_opt {
                    None => Err(SpecInterpError::BadOperator { pos: i as usize }),
                    Some(op) => match spec_lookup(env, name) {
                        None => Err(SpecInterpError::Unbound { pos: i as usize, name }),
                        Some(l) => {
                            if !spec_literal_wf(l) {
                                Err(SpecInterpError::BadFloat { pos: i as usize })
                            } else if i < j + 1 <= t.len() {
                                match su_unquoted(t, j + 1, env) {
                                    Ok(rest) => Ok(
                                        name + seq![' '] + spec_op_symbol(op) + seq![' ']
                                            + spec_render(l) + rest,
                                    ),
                                    Err(e) => Err(e),
                                }
                            } else {
                                // the closing brace lies at or after `i`; never reached
                                Ok(Seq::empty())
                            }
                        },
                    },
                }
            },
        }
    } else {
        match su_unquoted(t, i + 1, env) {
            Ok(rest) => Ok(seq![t[i]] + rest),
            Err(e) => Err(e),
        }
    }
}

/// Unquoted-form interpolation of a whole template.
pub open spec fn spec_interp_unquoted(
    t: Seq<char>,
    env: Seq<(Seq<char>, SpecLiteral)>,
) -> Result<Seq<char>, SpecInterpError> {
    su_unquoted(t, 0, env)
}

fn chars_eq(a: &Vec<char>, b: &Vec<char>) -> (r: bool)
    ensures
        r == (a@ == b@),
{
    if a.len() != b.len() {
        return false;
    }
    let mut i: usize = 0;
    while i < a.len()
        invariant
            0 <= i <= a@.len(),
            a@.len() == b@.len(),
            forall|k: int| 0 <= k < i ==> a@[k] == b@[k],
        decreases a@.len() - i,
    {
        if a[i] != b[i] {
            return false;
        }
        i += 1;
    }
    proof {
        assert(a@ =~= b@);
    }
    true
}

fn lookup(env: &Vec<(String, Literal)>, name: &Vec<char>) -> (r: Option<Literal>)
    ensures
        (match r {
            Some(l) => spec_lookup(env.deep_view(), name@) == Some(l.deep_view()),
            None => spec_lookup(env.deep_view(), name@) is None,
        }),
{
    let ghost env_dv = env.deep_view();
    proof {
        assert(env_dv.skip(0) =~= env_dv);
    }
    let mut i: usize = 0;
    while i < env.len()
        invariant
            0 <= i <= env@.len(),
            env_dv == env.deep_view(),
            spec_lookup(env_dv, name@) == spec_lookup(env_dv.skip(i as int), name@),
        decreases env@.len() - i,
    {
        let es = str_chars(env[i].0.as_str());
        proof {
            assert(env_dv.skip(i as int)[0] == env_dv[i as int]);
            assert(env_dv.skip(i as int).skip(1) =~= env_dv.skip(i + 1));
        }
        if chars_eq(&es, name) {
            let l = env[i].1.duplicate();
            return Some(l);
        }
        i += 1;
    }
    proof {
        assert(env_dv.skip(env@.len() as int) =~= Seq::<(Seq<char>, SpecLiteral)>::empty());
    }
    None
}

/// Appends all of `v` to `buf`.
fn push_chars(buf: &mut Vec<char>, v: &Vec<char>)
    ensures
        final(buf)@ == old(buf)@ + v@,
{
    let mut i: usize = 0;
    while i < v.len()
        invariant
            0 <= i <= v@.len(),
            buf@ == old(buf)@ + v@.take(i as int),
        decreases v@.len() - i,
    {
        buf.push(v[i]);
        proof {
            assert(buf@ =~= old(buf)@ + v@.take(i + 1));
        }
        i += 1;
    }
    proof {
        assert(v@.take(v@.len() as int) =~= v@);
    }
}

fn find_close(t: &Vec<char>, i: usize) -> (r: Option<usize>)
    requires
        i <= t@.len(),
    ensures
        (match r {
            Some(j) => spec_find_close(t@, i as int) == Some(j as int) && i <= j < t@.len(),
            None => spec_find_close(t@, i as int) is None,
        }),
{
    let mut j: usize = i;
    while j < t.len()
        invariant
            i <= j <= t@.len(),
            spec_find_close(t@, i as int) == spec_find_close(t@, j as int),
        decreases t@.len() - j,
    {
        if t[j] == '}' {
            return Some(j);
        }
        j += 1;
    }
    None
}

fn scan_opchars(t: &Vec<char>, i: usize) -> (r: usize)
    requires
        i <= t@.len(),
    ensures
        r == spec_scan_opchars(t@, i as int),
        i <= r <= t@.len(),
{
    let mut j: usize = i;
    while j < t.len() && (t[j] == '<' || t[j] == '>' || t[j] == '!' || t[j] == '=')
        invariant
            i <= j <= t@.len(),
            spec_scan_opchars(t@, i as int) == spec_scan_opchars(t@, j as int),
        decreases t@.len() - j,
    {
        j += 1;
    }
    j
}

fn prefix_op(opchars: &Vec<char>) -> (r: Option<Operator>)
    ensures
        (match r {
            Some(op) => spec_prefix_op(opchars@) == Some(op),
            None => spec_prefix_op(opchars@) is None,
        }),
{
    let n = opchars.len();
    if n == 1 && opchars[0] == '>' {
        proof {
            assert(opchars@ =~= seq!['>']);
        }
        Some(Operator::Gt)
    } else if n == 1 && opchars[0] == '<' {
        proof {
            assert(opchars@ =~= seq!['<']);
        }
        Some(Operator::Lt)
    } else if n == 2 && opchars[0] == '>' && opchars[1] == '=' {
        proof {
            assert(opchars@ =~= seq!['>', '=']);
        }
        Some(Operator::Ge)
    } else if n == 2 && opchars[0] == '<' && opchars[1] == '=' {
        proof {
            assert(opchars@ =~= seq!['<', '=']);
        }
        Some(Operator::Le)
    } else if n == 2 && opchars[0] == '!' && opchars[1] == '=' {
        proof {
            assert(opchars@ =~= seq!['!', '=']);
        }
        Some(Operator::Ne)
    } else {
        proof {
            let s = opchars@;
            assert(s != seq!['>']);
            assert(s != seq!['<']);
            assert(s != seq!['>', '=']);
            assert(s != seq!['<', '=']);
            assert(s != seq!['!', '=']);
        }
        None
    }
}

/// Checks that a bound literal may be substituted: a float must have its
/// lexeme shape; every other literal always may.
fn literal_wf(l: &Literal) -> (r: bool)
    ensures
        r == spec_literal_wf(l.deep_view()),
{
    match l {
        Literal::Float(s) => {
            let cs = str_chars(s.as_str());
            is_float_lexeme(&cs)
        },
        _ => true,
    }
}

/// Quoted-form interpolation over character buffers, mirroring
/// `sq_quoted`.
fn interp_quoted_chars(
    t: &Vec<char>,
    positional: &Vec<Literal>,
    env: &Vec<(String, Literal)>,
) -> (r: Result<Vec<char>, InterpError>)
    ensures
        (match r {
            Ok(out) => spec_interp_quoted(t@, positional.deep_view(), env.deep_view()) == Ok::<
                Seq<char>,
                SpecInterpError,
            >(out@),
            Err(e) => spec_interp_quoted(t@, positional.deep_view(), env.deep_view()) == Err::<
                Seq<char>,
                SpecInterpError,
            >(e.deep_view()),
        }),
{
    let ghost pos_dv = positional.deep_view();
    let ghost env_dv = env.deep_view();
    let mut out: Vec<char> = Vec::new();
    let mut i: usize = 0;
    let mut p: usize = 0;
    loop
        invariant
            0 <= i <= t@.len(),
            0 <= p <= pos_dv.len(),
            pos_dv == positional.deep_view(),
            env_dv == env.deep_view(),
            spec_interp_quoted(t@, pos_dv, env_dv) == (match sq_quoted(
                t@,
                i as int,
                pos_dv,
                p as int,
                env_dv,
            ) {
                Ok(rest) => Ok::<Seq<char>, SpecInterpError>(out@ + rest),
                Err(e) => Err::<Seq<char>, SpecInterpError>(e),
            }),
        decreases t@.len() - i,
    {
        if i >= t.len() {
            if p == positional.len() {
                proof {
                    assert(out@ + Seq::<char>::empty() =~= out@);
                }
                return Ok(out);
            } else {
                return Err(InterpError::PositionalMismatch { pos: t.len() });
            }
        }
        let c = t[i];
        if c == '{' {
            match find_close(t, i + 1) {
                None => {
                    return Err(InterpError::UnclosedBrace { pos: i });
                },
                Some(j) => {
                    let name = subvec(t, i + 1, j);
                    let named = name.len() > 0;
                    let l: Literal = if !named {
                        if p < positional.len() {
                            positional[p].duplicate()
                        } else {
                            return Err(InterpError::PositionalMismatch { pos: i });
                        }
                    } else {
                        match lookup(env, &name) {
                            Some(bound) => bound,
                            None => {
                                return Err(
                                    InterpError::Unbound { pos: i, name: chars_to_string(&name) },
                                );
                            },
                        }
                    };
                    if !literal_wf(&l) {
                        return Err(InterpError::BadFloat { pos: i });
                    }
                    let ghost out_pre = out@;
                    push_rendered(&mut out, &l);
                    proof {
                        assert forall|rest: Seq<char>|
                            #[trigger] (out_pre + (spec_render(l.deep_view()) + rest)) == out@
                                + rest by {
                            assert(out_pre + (spec_render(l.deep_view()) + rest) =~= out@ + rest);
                        }
                    }
                    i = j + 1;
                    if !named {
                        p += 1;
                    }
                },
            }
        } else {
            let ghost out_pre = out@;
            out.push(c);
            proof {
                assert forall|rest: Seq<char>| #[trigger] (out_pre + (seq![c] + rest)) == out@
                    + rest by {
                    assert(out_pre + (seq![c] + rest) =~= out@ + rest);
                }
            }
            i += 1;
        }
    }
}

/// Unquoted-form interpolation over character buffers, mirroring
/// `su_unquoted`.
fn interp_unquoted_chars(t: &Vec<char>, env: &Vec<(String, Literal)>) -> (r: Result<
    Vec<char>,
    InterpError,
>)
    ensures
        (match r {
            Ok(out) => spec_interp_unquoted(t@, env.deep_view()) == Ok::<
                Seq<char>,
                SpecInterpError,
            >(out@),
            Err(e) => spec_interp_unquoted(t@, env.deep_view()) == Err::<
                Seq<char>,
                SpecInterpError,
            >(e.deep_view()),
        }),
{
    let ghost env_dv = env.deep_view();
    let mut out: Vec<char> = Vec::new();
    let mut i: usize = 0;
    loop
        invariant
            0 <= i <= t@.len(),
            env_dv == env.deep_view(),
            spec_interp_unquoted(t@, env_dv) == (match su_unquoted(t@, i as int, env_dv) {
                Ok(rest) => Ok::<Seq<char>, SpecInterpError>(out@ + rest),
                Err(e) => Err::<Seq<char>, SpecInterpError>(e),
            }),
        decreases t@.len() - i,
    {
        if i >= t.len() {
            proof {
                assert(out@ + Seq::<char>::empty() =~= out@);
            }
            return Ok(out);
        }
        let c = t[i];
        if c == '{' {
            match find_close(t, i + 1) {
                None => {
                    return Err(InterpError::UnclosedBrace { pos: i });
                },
                Some(j) => {
                    let k0 = scan_opchars(t, i + 1);
                    let k = if k0 > j {
                        j
                    } else {
                        k0
                    };
                    let opchars = subvec(t, i + 1, k);
                    let name = subvec(t, k, j);
                    let op = if opchars.len() == 0 {
                        proof {
                            assert(opchars@.len() == 0);
                        }
                        Operator::Eq
                    } else {
                        match prefix_op(&opchars) {
                            Some(op) => op,
                            None => {
                                return Err(InterpError::BadOperator { pos: i });
                            },
                        }
                    };
                    let l = match lookup(env, &name) {
                        Some(bound) => bound,
                        None => {
                            return Err(
                                InterpError::Unbound { pos: i, name: chars_to_string(&name) },
                            );
                        },
                    };
                    if !literal_wf(&l) {
                        return Err(InterpError::BadFloat { pos: i });
                    }
                    let ghost out_pre = out@;
                    push_chars(&mut out, &name);
                    out.push(' ');
                    let opsym = op_symbol_chars(op);
                    push_chars(&mut out, &opsym);
                    out.push(' ');
                    push_rendered(&mut out, &l);
                    proof {
                        let exp = name@ + seq![' '] + spec_op_symbol(op) + seq![' '] + spec_render(
                            l.deep_view(),
                        );
                        assert(out@ =~= out_pre + exp);
                        assert forall|rest: Seq<char>| #[trigger] (out_pre + (exp + rest)) == out@
                            + rest by {
                            assert(out_pre + (exp + rest) =~= out@ + rest);
                        }
                    }
                    i = j + 1;
                },
            }
        } else {
            let ghost out_pre = out@;
            out.push(c);
            proof {
                assert forall|rest: Seq<char>| #[trigger] (out_pre + (seq![c] + rest)) == out@
                    + rest by {
                    assert(out_pre + (seq![c] + rest) =~= out@ + rest);
                }
            }
            i += 1;
        }
    }
}

fn op_symbol_chars(op: Operator) -> (r: Vec<char>)
    ensures
        r@ == spec_op_symbol(op),
{
    let mut r: Vec<char> = Vec::new();
    match op {
        Operator::Eq => {
            r.push('=');
            proof {
                assert(r@ =~= seq!['=']);
            }
        },
        Operator::Ne => {
            r.push('!');
            r.push('=');
            proof {
                assert(r@ =~= seq!['!', '=']);
            }
        },
        Operator::Gt => {
            r.push('>');
            proof {
                assert(r@ =~= seq!['>']);
            }
        },
        Operator::Lt => {
            r.push('<');
            proof {
                assert(r@ =~= seq!['<']);
            }
        },
        Operator::Ge => {
            r.push('>');
            r.push('=');
            proof {
                assert(r@ =~= seq!['>', '=']);
            }
        },
        Operator::Le => {
            r.push('<');
            r.push('=');
            proof {
                assert(r@ =~= seq!['<', '=']);
            }
        },
        Operator::In => {
            proof {
                assert(r@ =~= Seq::<char>::empty());
            }
        },
    }
    r
}

/// Quoted-form interpolation: replaces every `{}` with the next
/// positional value and every `{name}` with its named binding, each
/// rendered and escaped, and returns the fully-literal source string.
pub fn interpolate_quoted(
    template: &str,
    positional: &Vec<Literal>,
    env: &Vec<(String, Literal)>,
) -> (r: Result<String, InterpError>)
    ensures
        (match r {
            Ok(out) => spec_interp_quoted(template@, positional.deep_view(), env.deep_view())
                == Ok::<Seq<char>, SpecInterpError>(out@),
            Err(e) => spec_interp_quoted(template@, positional.deep_view(), env.deep_view())
                == Err::<Seq<char>, SpecInterpError>(e.deep_view()),
        }),
{
    let t = str_chars(template);
    match interp_quoted_chars(&t, positional, env) {
        Ok(out) => Ok(chars_to_string(&out)),
        Err(e) => Err(e),
    }
}

/// Unquoted-form interpolation: expands every `{name}` to
/// `name = <value>` and every `{<op>name}` to `name <op> <value>`, and
/// returns the fully-literal source string.
pub fn interpolate_unquoted(template: &str, env: &Vec<(String, Literal)>) -> (r: Result<
    String,
    InterpError,
>)
    ensures
        (match r {
            Ok(out) => spec_interp_unquoted(template@, env.deep_view()) == Ok::<
                Seq<char>,
                SpecInterpError,
            >(out@),
            Err(e) => spec_interp_unquoted(template@, env.deep_view()) == Err::<
                Seq<char>,
                SpecInterpError,
            >(e.deep_view()),
        }),
{
    let t = str_chars(template);
    match interp_unquoted_chars(&t, env) {
        Ok(out) => Ok(chars_to_string(&out)),
        Err(e) => Err(e),
    }
}

} // verus!
