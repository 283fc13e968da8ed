//! Arithmetic expressions of Gerber aperture macros (`$1*($2+$3)/2`):
//! reading them into tokens and reordering the tokens into reverse
//! Polish notation. Numbers are kept as the text that stood in the
//! expression.
use vstd::prelude::*;
use crate::text::{is_digit, run_len, run_of, take_run, u32_from_str, parse_u32};

verus! {

/// One token of a macro expression.
#[derive(Debug, Clone, PartialEq, Eq)]
pub enum MacroToken {
    /// A number, as the digits and dots that stood in the expression.
    Value(Vec<char>),
    /// `$n`: the n-th macro parameter.
    Variable(u32),
    /// `+`, `-`, `x` (multiplication, also written `*`) or `/`.
    Op(char),
    Open,
    Close,
}

/// The mathematical value of a token.
pub ghost enum Tok {
    Value(Seq<char>),
    Variable(u32),
    Op(char),
    Open,
    Close,
}

impl View for MacroToken {
    type V = Tok;

    open spec fn view(&self) -> Tok {
        match self {
            MacroToken::Value(v) => Tok::Value(v@),
            MacroToken::Variable(i) => Tok::Variable(*i),
            MacroToken::Op(c) => Tok::Op(*c),
            MacroToken::Open => Tok::Open,
            MacroToken::Close => Tok::Close,
        }
    }
}

pub open spec fn toks(v: Seq<MacroToken>) -> Seq<Tok> {
    v.map_values(|t: MacroToken| t@)
}

/// The index that `$` followed by `digits` names; digits that do not
/// make a `u32` name parameter 0.
pub open spec fn var_index(digits: Seq<char>) -> u32 {
    match u32_from_str(digits) {
        Some(v) => v,
        None => 0,
    }
}

pub proof fn lemma_run_len_bound(s: Seq<char>, class: u8)
    ensures
        run_len(s, class) <= s.len(),
    decreases s.len(),
{
    if s.len() > 0 && crate::text::in_class(s[0], class) {
        lemma_run_len_bound(s.skip(1), class);
    }
}

/// The tokens of an expression, read from the left. Characters that
/// belong to no token are skipped.
pub open spec fn tokens_of(s: Seq<char>) -> Seq<Tok>
    decreases s.len(),
{
    if s.len() == 0 {
        Seq::empty()
    } else {
        let c = s[0];
        if c == '+' {
            seq![Tok::Op('+')] + tokens_of(s.skip(1))
        } else if c == '-' {
            seq![Tok::Op('-')] + tokens_of(s.skip(1))
        } else if c == 'x' || c == '*' {
            seq![Tok::Op('x')] + tokens_of(s.skip(1))
        } else if c == '/' {
            seq![Tok::Op('/')] + tokens_of(s.skip(1))
        } else if c == '(' {
            seq![Tok::Open] + tokens_of(s.skip(1))
        } else if c == ')' {
            seq![Tok::Close] + tokens_of(s.skip(1))
        } else if c == '$' {
            let d = run_of(s.skip(1), 0);
            proof {
                lemma_run_len_bound(s.skip(1), 0);
            }
            seq![Tok::Variable(var_index(d))] + tokens_of(s.skip(1 + d.len() as int))
        } else if is_digit(c) || c == '.' {
            let d = run_of(s, 1);
            proof {
                lemma_run_len_bound(s, 1);
                assert(run_len(s, 1) >= 1);
            }
            seq![Tok::Value(d)] + tokens_of(s.skip(d.len() as int))
        } else {
            tokens_of(s.skip(1))
        }
    }
}

/// Reads an expression into tokens.
pub fn tokenize_expression(expr: &Vec<char>) -> (r: Vec<MacroToken>)
    ensures
        toks(r@) == tokens_of(expr@),
{
    let mut out: Vec<MacroToken> = Vec::new();
    let mut i: usize = 0;
    let n = expr.len();
    assert(expr@.skip(0) =~= expr@);
    while i < n
        invariant
            n == expr@.len(),
            i <= n,
            toks(out@) + tokens_of(expr@.skip(i as int)) == tokens_of(expr@),
        decreases n - i,
    {
        let ghost rest = expr@.skip(i as int);
        let ghost before = toks(out@);
        let c = expr[i];
        assert(rest[0] == c);
        let tok: Option<MacroToken>;
        let next: usize;
        if c == '+' {
            tok = Some(MacroToken::Op('+'));
            next = i + 1;
        } else if c == '-' {
            tok = Some(MacroToken::Op('-'));
            next = i + 1;
        } else if c == 'x' || c == '*' {
            tok = Some(MacroToken::Op('x'));
            next = i + 1;
        } else if c == '/' {
            tok = Some(MacroToken::Op('/'));
            next = i + 1;
        } else if c == '(' {
            tok = Some(MacroToken::Open);
            next = i + 1;
        } else if c == ')' {
            tok = Some(MacroToken::Close);
            next = i + 1;
        } else if c == '$' {
            let digits = take_run(expr, i + 1, 0);
            proof {
                lemma_run_len_bound(expr@.skip(i + 1), 0);
                assert(rest.skip(1) =~= expr@.skip(i + 1));
            }
            let idx = match parse_u32(&digits) {
                Some(v) => v,
                None => 0,
            };
            tok = Some(MacroToken::Variable(idx));
            next = i + 1 + digits.len();
        } else if ('0' <= c && c <= '9') || c == '.' {
            let digits = take_run(expr, i, 1);
            proof {
                lemma_run_len_bound(expr@.skip(i as int), 1);
                assert(run_len(rest, 1) >= 1);
            }
            next = i + digits.len();
            tok = Some(MacroToken::Value(digits));
        } else {
            tok = None;
            next = i + 1;
        }
        proof {
            assert(rest.skip((next - i) as int) =~= expr@.skip(next as int));
            assert(rest.skip(1) =~= expr@.skip(i + 1));
        }
        match tok {
            Some(t) => {
                out.push(t);
                assert(toks(out@) =~= before.push(t@));
                assert(before.push(t@) + tokens_of(expr@.skip(next as int)) =~= before + (seq![t@]
                    + tokens_of(expr@.skip(next as int))));
            },
            None => {},
        }
        i = next;
    }
    assert(expr@.skip(n as int) =~= Seq::<char>::empty());
    assert(toks(out@) + Seq::<Tok>::empty() =~= toks(out@));
    out
}

/// Binding strength of an operator: `+` and `-` bind weaker than `x`
/// and `/`.
pub open spec fn prec(c: char) -> int {
    if c == '+' || c == '-' {
        1
    } else if c == 'x' || c == '/' {
        2
    } else {
        0
    }
}

/// On `)`: moves operators from the stack to the output up to the
/// nearest `(`, which is dropped.
pub open spec fn pop_until_open(out: Seq<Tok>, ops: Seq<Tok>) -> (Seq<Tok>, Seq<Tok>)
    decreases ops.len(),
{
    if ops.len() == 0 {
        (out, ops)
    } else if ops.last() is Open {
        (out, ops.drop_last())
    } else {
        pop_until_open(out.push(ops.last()), ops.drop_last())
    }
}

/// Before pushing operator `c`: moves the operators on top of the stack
/// that bind at least as strongly to the output.
pub open spec fn pop_binding(out: Seq<Tok>, ops: Seq<Tok>, c: char) -> (Seq<Tok>, Seq<Tok>)
    decreases ops.len(),
{
    if ops.len() > 0 && ops.last() is Op && prec(c) <= prec(ops.last()->Op_0) {
        pop_binding(out.push(ops.last()), ops.drop_last(), c)
    } else {
        (out, ops)
    }
}

/// One step of the shunting-yard algorithm.
pub open spec fn shunt_step(out: Seq<Tok>, ops: Seq<Tok>, t: Tok) -> (Seq<Tok>, Seq<Tok>) {
    match t {
        Tok::Value(_) => (out.push(t), ops),
        Tok::Variable(_) => (out.push(t), ops),
        Tok::Open => (out, ops.push(t)),
        Tok::Close => pop_until_open(out, ops),
        Tok::Op(c) => {
            let (o, s) = pop_binding(out, ops, c);
            (o, s.push(t))
        },
    }
}

/// Output and operator stack after the given tokens.
pub open spec fn shunt(tokens: Seq<Tok>) -> (Seq<Tok>, Seq<Tok>)
    decreases tokens.len(),
{
    if tokens.len() == 0 {
        (Seq::empty(), Seq::empty())
    } else {
        let (o, s) = shunt(tokens.drop_last());
        shunt_step(o, s, tokens.last())
    }
}

/// At the end: the remaining operators, from the top, go to the output;
/// unmatched `(` are dropped.
pub open spec fn flush(out: Seq<Tok>, ops: Seq<Tok>) -> Seq<Tok>
    decreases ops.len(),
{
    if ops.len() == 0 {
        out
    } else {
        let t = ops.last();
        flush(if t is Open { out } else { out.push(t) }, ops.drop_last())
    }
}

/// The reverse Polish form of a token sequence.
pub open spec fn rpn_of(tokens: Seq<Tok>) -> Seq<Tok> {
    let (o, s) = shunt(tokens);
    flush(o, s)
}

fn token_copy(t: &MacroToken) -> (r: MacroToken)
    ensures
        r@ == t@,
{
    match t {
        MacroToken::Value(v) => {
            let mut c: Vec<char> = Vec::new();
            let mut i: usize = 0;
            while i < v.len()
                invariant
                    i <= v@.len(),
                    c@ == v@.take(i as int),
                decreases v.len() - i,
            {
                c.push(v[i]);
                assert(v@.take(i + 1) =~= v@.take(i as int).push(v@[i as int]));
                i += 1;
            }
            assert(v@.take(v@.len() as int) =~= v@);
            MacroToken::Value(c)
        },
        MacroToken::Variable(i) => MacroToken::Variable(*i),
        MacroToken::Op(c) => MacroToken::Op(*c),
        MacroToken::Open => MacroToken::Open,
        MacroToken::Close => MacroToken::Close,
    }
}

fn precedence(c: char) -> (r: u8)
    ensures
        r == prec(c),
{
    if c == '+' || c == '-' {
        1
    } else if c == 'x' || c == '/' {
        2
    } else {
        0
    }
}

proof fn lemma_toks_push(v: Seq<MacroToken>, t: MacroToken)
    ensures
        toks(v.push(t)) == toks(v).push(t@),
{
    assert(toks(v.push(t)) =~= toks(v).push(t@));
}

proof fn lemma_toks_drop_last(v: Seq<MacroToken>)
    requires
        v.len() > 0,
    ensures
        toks(v.drop_last()) == toks(v).drop_last(),
        toks(v).last() == v.last()@,
{
    assert(toks(v.drop_last()) =~= toks(v).drop_last());
}

/// Reorders tokens from infix into reverse Polish notation (the
/// shunting-yard algorithm).
pub fn shunting_yard(tokens: &Vec<MacroToken>) -> (r: Vec<MacroToken>)
    ensures
        toks(r@) == rpn_of(toks(tokens@)),
{
    let mut output: Vec<MacroToken> = Vec::new();
    let mut ops: Vec<MacroToken> = Vec::new();
    let mut k: usize = 0;
    while k < tokens.len()
        invariant
            k <= tokens@.len(),
            (toks(output@), toks(ops@)) == shunt(toks(tokens@.take(k as int))),
        decreases tokens.len() - k,
    {
        proof {
            assert(toks(tokens@.take(k + 1)).drop_last() =~= toks(tokens@.take(k as int)));
            assert(toks(tokens@.take(k + 1)).last() == tokens@[k as int]@);
        }
        let token = &tokens[k];
        let ghost o0 = toks(output@);
        let ghost s0 = toks(ops@);
        match token {
            MacroToken::Value(_) | MacroToken::Variable(_) => {
                let t = token_copy(token);
                proof {
                    lemma_toks_push(output@, t);
                }
                output.push(t);
            },
            MacroToken::Open => {
                proof {
                    lemma_toks_push(ops@, MacroToken::Open);
                }
                ops.push(MacroToken::Open);
            },
            MacroToken::Close => {
                loop
                    invariant_except_break
                        pop_until_open(toks(output@), toks(ops@)) == pop_until_open(o0, s0),
                    ensures
                        (toks(output@), toks(ops@)) == pop_until_open(o0, s0),
                    decreases ops@.len(),
                {
                    let ghost ov = output@;
                    let ghost sv = ops@;
                    match ops.pop() {
                        None => {
                            break;
                        },
                        Some(MacroToken::Open) => {
                            proof {
                                lemma_toks_drop_last(sv);
                            }
                            break;
                        },
                        Some(op) => {
                            proof {
                                lemma_toks_drop_last(sv);
                                lemma_toks_push(ov, op);
                            }
                            output.push(op);
                        },
                    }
                }
            },
            MacroToken::Op(c) => {
                let pc = precedence(*c);
                loop
                    invariant
                        pop_binding(toks(output@), toks(ops@), *c) == pop_binding(o0, s0, *c),
                        pc == prec(*c),
                    ensures
                        (toks(output@), toks(ops@)) == pop_binding(o0, s0, *c),
                    decreases ops@.len(),
                {
                    let ghost ov = output@;
                    let ghost sv = ops@;
                    let n = ops.len();
                    if n == 0 {
                        break;
                    }
                    let top_binds = match &ops[n - 1] {
                        MacroToken::Op(t) => pc <= precedence(*t),
                        _ => false,
                    };
                    proof {
                        lemma_toks_drop_last(sv);
                    }
                    if !top_binds {
                        break;
                    }
                    let op = ops.pop().unwrap();
                    proof {
                        lemma_toks_push(ov, op);
                    }
                    output.push(op);
                }
                let ghost mid = toks(ops@);
                proof {
                    lemma_toks_push(ops@, MacroToken::Op(*c));
                }
                ops.push(MacroToken::Op(*c));
            },
        }
        k += 1;
    }
    assert(tokens@.take(tokens@.len() as int) =~= tokens@);
    let ghost o1 = toks(output@);
    let ghost s1 = toks(ops@);
    loop
        invariant
            flush(toks(output@), toks(ops@)) == flush(o1, s1),
        ensures
            toks(output@) == flush(o1, s1),
        decreases ops@.len(),
    {
        let ghost ov = output@;
        let ghost sv = ops@;
        match ops.pop() {
            None => {
                break;
            },
            Some(op) => {
                proof {
                    lemma_toks_drop_last(sv);
                }
                match op {
                    MacroToken::Open => {},
                    _ => {
                        proof {
                            lemma_toks_push(ov, op);
                        }
                        output.push(op);
                    },
                }
            },
        }
    }
    output
}

pub open spec fn is_operand(t: Tok) -> bool {
    t is Value || t is Variable
}

/// The numbers and variables of a token sequence, in order.
pub open spec fn operands(s: Seq<Tok>) -> Seq<Tok>
    decreases s.len(),
{
    if s.len() == 0 {
        Seq::empty()
    } else if is_operand(s.last()) {
        operands(s.drop_last()).push(s.last())
    } else {
        operands(s.drop_last())
    }
}

/// Number of operators in a token sequence.
pub open spec fn op_count(s: Seq<Tok>) -> nat
    decreases s.len(),
{
    if s.len() == 0 {
        0
    } else {
        op_count(s.drop_last()) + if s.last() is Op { 1nat } else { 0nat }
    }
}

/// No parenthesis in the sequence.
pub open spec fn no_parens(s: Seq<Tok>) -> bool {
    forall|k: int| 0 <= k < s.len() ==> !(#[trigger] s[k] is Open) && !(s[k] is Close)
}

/// The operator stack holds only operators and open parentheses.
pub open spec fn stack_shape(s: Seq<Tok>) -> bool {
    forall|k: int| 0 <= k < s.len() ==> #[trigger] s[k] is Open || s[k] is Op
}

proof fn lemma_push_facts(s: Seq<Tok>, t: Tok)
    ensures
        operands(s.push(t)) == if is_operand(t) { operands(s).push(t) } else { operands(s) },
        op_count(s.push(t)) == op_count(s) + if t is Op { 1nat } else { 0nat },
{
    assert(s.push(t).drop_last() =~= s);
}

proof fn lemma_pop_until_open(o: Seq<Tok>, s: Seq<Tok>)
    requires
        no_parens(o),
        stack_shape(s),
    ensures
        no_parens(pop_until_open(o, s).0),
        stack_shape(pop_until_open(o, s).1),
        operands(pop_until_open(o, s).0) == operands(o),
        op_count(pop_until_open(o, s).0) + op_count(pop_until_open(o, s).1) == op_count(o) + op_count(s),
    decreases s.len(),
{
    if s.len() > 0 {
        let t = s.last();
        assert(s =~= s.drop_last().push(t));
        lemma_push_facts(s.drop_last(), t);
        if !(t is Open) {
            lemma_push_facts(o, t);
            assert(t is Op);
            lemma_pop_until_open(o.push(t), s.drop_last());
        }
    }
}

proof fn lemma_pop_binding(o: Seq<Tok>, s: Seq<Tok>, c: char)
    requires
        no_parens(o),
        stack_shape(s),
    ensures
        no_parens(pop_binding(o, s, c).0),
        stack_shape(pop_binding(o, s, c).1),
        operands(pop_binding(o, s, c).0) == operands(o),
        op_count(pop_binding(o, s, c).0) + op_count(pop_binding(o, s, c).1) == op_count(o) + op_count(s),
    decreases s.len(),
{
    if s.len() > 0 && s.last() is Op && prec(c) <= prec(s.last()->Op_0) {
        let t = s.last();
        assert(s =~= s.drop_last().push(t));
        lemma_push_facts(s.drop_last(), t);
        lemma_push_facts(o, t);
        lemma_pop_binding(o.push(t), s.drop_last(), c);
    }
}

proof fn lemma_shunt(tokens: Seq<Tok>)
    ensures
        no_parens(shunt(tokens).0),
        stack_shape(shunt(tokens).1),
        operands(shunt(tokens).0) == operands(tokens),
        op_count(shunt(tokens).0) + op_count(shunt(tokens).1) == op_count(tokens),
    decreases tokens.len(),
{
    if tokens.len() > 0 {
        let rest = tokens.drop_last();
        let t = tokens.last();
        lemma_shunt(rest);
        lemma_push_facts(rest, t);
        assert(tokens =~= rest.push(t));
        let (o, s) = shunt(rest);
        match t {
            Tok::Value(_) => {
                lemma_push_facts(o, t);
            },
            Tok::Variable(_) => {
                lemma_push_facts(o, t);
            },
            Tok::Open => {
                lemma_push_facts(s, t);
            },
            Tok::Close => {
                lemma_pop_until_open(o, s);
            },
            Tok::Op(c) => {
                lemma_pop_binding(o, s, c);
                lemma_push_facts(pop_binding(o, s, c).1, t);
            },
        }
    }
}

proof fn lemma_flush(o: Seq<Tok>, s: Seq<Tok>)
    requires
        no_parens(o),
        stack_shape(s),
    ensures
        no_parens(flush(o, s)),
        operands(flush(o, s)) == operands(o),
        op_count(flush(o, s)) == op_count(o) + op_count(s),
    decreases s.len(),
{
    if s.len() > 0 {
        let t = s.last();
        assert(s =~= s.drop_last().push(t));
        lemma_push_facts(s.drop_last(), t);
        if t is Open {
            lemma_flush(o, s.drop_last());
        } else {
            lemma_push_facts(o, t);
            lemma_flush(o.push(t), s.drop_last());
        }
    }
}

/// The reverse Polish form has no parentheses, keeps the numbers and
/// variables in their order, and keeps every operator.
pub proof fn lemma_rpn_shape(tokens: Seq<Tok>)
    ensures
        no_parens(rpn_of(tokens)),
        operands(rpn_of(tokens)) == operands(tokens),
        op_count(rpn_of(tokens)) == op_count(tokens),
{
    lemma_shunt(tokens);
    lemma_flush(shunt(tokens).0, shunt(tokens).1);
}

/// An operator that multiplies or divides.
pub open spec fn multiplicative(c: char) -> bool {
    c == 'x' || c == '/'
}

/// An operator that adds or subtracts.
pub open spec fn additive(c: char) -> bool {
    c == '+' || c == '-'
}

/// Precedence and left associativity: in `a p b q c` the second
/// operator is applied first only when it multiplies or divides and the
/// first adds or subtracts; otherwise, operators of one level included,
/// the first is applied first.
pub proof fn lemma_rpn_binary_order(a: Tok, b: Tok, c: Tok, p: char, q: char)
    requires
        is_operand(a),
        is_operand(b),
        is_operand(c),
        multiplicative(p) || additive(p),
        multiplicative(q) || additive(q),
    ensures
        rpn_of(seq![a, Tok::Op(p), b, Tok::Op(q), c]) == if additive(p) && multiplicative(q) {
            seq![a, b, c, Tok::Op(q), Tok::Op(p)]
        } else {
            seq![a, b, Tok::Op(p), c, Tok::Op(q)]
        },
{
    let e = Seq::<Tok>::empty();
    let t5 = seq![a, Tok::Op(p), b, Tok::Op(q), c];
    let t4 = seq![a, Tok::Op(p), b, Tok::Op(q)];
    let t3 = seq![a, Tok::Op(p), b];
    let t2 = seq![a, Tok::Op(p)];
    let t1 = seq![a];
    assert(t5.drop_last() =~= t4);
    assert(t4.drop_last() =~= t3);
    assert(t3.drop_last() =~= t2);
    assert(t2.drop_last() =~= t1);
    assert(t1.drop_last() =~= e);
    assert(shunt(e) == (e, e));
    assert(shunt(t1) == (seq![a], e)) by {
        assert(e.push(a) =~= seq![a]);
    }
    assert(shunt(t2) == (seq![a], seq![Tok::Op(p)])) by {
        assert(pop_binding(seq![a], e, p) == (seq![a], e));
        assert(e.push(Tok::Op(p)) =~= seq![Tok::Op(p)]);
    }
    assert(shunt(t3) == (seq![a, b], seq![Tok::Op(p)])) by {
        assert(seq![a].push(b) =~= seq![a, b]);
    }
    let ops = seq![Tok::Op(p)];
    assert(ops.last() == Tok::Op(p));
    assert(ops.drop_last() =~= e);
    if additive(p) && multiplicative(q) {
        assert(prec(q) > prec(p));
        assert(pop_binding(seq![a, b], ops, q) == (seq![a, b], ops));
        assert(ops.push(Tok::Op(q)) =~= seq![Tok::Op(p), Tok::Op(q)]);
        assert(shunt(t4) == (seq![a, b], seq![Tok::Op(p), Tok::Op(q)]));
        assert(shunt(t5) == (seq![a, b, c], seq![Tok::Op(p), Tok::Op(q)])) by {
            assert(seq![a, b].push(c) =~= seq![a, b, c]);
        }
        let s2 = seq![Tok::Op(p), Tok::Op(q)];
        assert(s2.drop_last() =~= ops);
        assert(seq![a, b, c].push(Tok::Op(q)) =~= seq![a, b, c, Tok::Op(q)]);
        assert(seq![a, b, c, Tok::Op(q)].push(Tok::Op(p)) =~= seq![a, b, c, Tok::Op(q), Tok::Op(p)]);
        assert(flush(seq![a, b, c, Tok::Op(q), Tok::Op(p)], e) == seq![a, b, c, Tok::Op(q), Tok::Op(p)]);
        assert(flush(seq![a, b, c, Tok::Op(q)], ops) == seq![a, b, c, Tok::Op(q), Tok::Op(p)]);
        assert(flush(seq![a, b, c], s2) == seq![a, b, c, Tok::Op(q), Tok::Op(p)]);
    } else {
        assert(prec(q) <= prec(p));
        assert(seq![a, b].push(Tok::Op(p)) =~= seq![a, b, Tok::Op(p)]);
        assert(pop_binding(seq![a, b, Tok::Op(p)], e, q) == (seq![a, b, Tok::Op(p)], e));
        assert(pop_binding(seq![a, b], ops, q) == (seq![a, b, Tok::Op(p)], e));
        assert(e.push(Tok::Op(q)) =~= seq![Tok::Op(q)]);
        assert(shunt(t4) == (seq![a, b, Tok::Op(p)], seq![Tok::Op(q)]));
        assert(shunt(t5) == (seq![a, b, Tok::Op(p), c], seq![Tok::Op(q)])) by {
            assert(seq![a, b, Tok::Op(p)].push(c) =~= seq![a, b, Tok::Op(p), c]);
        }
        let s1 = seq![Tok::Op(q)];
        assert(s1.drop_last() =~= e);
        assert(seq![a, b, Tok::Op(p), c].push(Tok::Op(q)) =~= seq![a, b, Tok::Op(p), c, Tok::Op(q)]);
        assert(flush(seq![a, b, Tok::Op(p), c, Tok::Op(q)], e) == seq![a, b, Tok::Op(p), c, Tok::Op(q)]);
        assert(flush(seq![a, b, Tok::Op(p), c], s1) == seq![a, b, Tok::Op(p), c, Tok::Op(q)]);
    }
}

proof fn lemma_shunt_push(t: Seq<Tok>, x: Tok)
    ensures
        shunt(t.push(x)) == shunt_step(shunt(t).0, shunt(t).1, x),
{
    assert(t.push(x).drop_last() =~= t);
}

/// Parentheses group: `(a p b) q c` applies `p` first and `a p (b q c)`
/// applies `q` first, whatever the operators' precedence.
pub proof fn lemma_rpn_parentheses(a: Tok, b: Tok, c: Tok, p: char, q: char)
    requires
        is_operand(a),
        is_operand(b),
        is_operand(c),
        multiplicative(p) || additive(p),
        multiplicative(q) || additive(q),
    ensures
        rpn_of(seq![Tok::Open, a, Tok::Op(p), b, Tok::Close, Tok::Op(q), c]) == seq![a, b, Tok::Op(p), c, Tok::Op(q)],
        rpn_of(seq![a, Tok::Op(p), Tok::Open, b, Tok::Op(q), c, Tok::Close]) == seq![a, b, c, Tok::Op(q), Tok::Op(p)],
{
    let e = Seq::<Tok>::empty();
    let (op, oq) = (Tok::Op(p), Tok::Op(q));
    assert(shunt(e) == (e, e));
    // (a p b) q c
    let u1 = e.push(Tok::Open);
    let u2 = u1.push(a);
    let u3 = u2.push(op);
    let u4 = u3.push(b);
    let u5 = u4.push(Tok::Close);
    let u6 = u5.push(oq);
    let u7 = u6.push(c);
    lemma_shunt_push(e, Tok::Open);
    lemma_shunt_push(u1, a);
    lemma_shunt_push(u2, op);
    lemma_shunt_push(u3, b);
    lemma_shunt_push(u4, Tok::Close);
    lemma_shunt_push(u5, oq);
    lemma_shunt_push(u6, c);
    assert(shunt(u1) == (e, seq![Tok::Open])) by {
        assert(e.push(Tok::Open) =~= seq![Tok::Open]);
    }
    assert(shunt(u2) == (seq![a], seq![Tok::Open])) by {
        assert(e.push(a) =~= seq![a]);
    }
    assert(shunt(u3) == (seq![a], seq![Tok::Open, op])) by {
        assert(pop_binding(seq![a], seq![Tok::Open], p) == (seq![a], seq![Tok::Open]));
        assert(seq![Tok::Open].push(op) =~= seq![Tok::Open, op]);
    }
    assert(shunt(u4) == (seq![a, b], seq![Tok::Open, op])) by {
        assert(seq![a].push(b) =~= seq![a, b]);
    }
    assert(shunt(u5) == (seq![a, b, op], e)) by {
        assert(seq![Tok::Open, op].drop_last() =~= seq![Tok::Open]);
        assert(seq![Tok::Open].drop_last() =~= e);
        assert(seq![a, b].push(op) =~= seq![a, b, op]);
        assert(pop_until_open(seq![a, b, op], seq![Tok::Open]) == (seq![a, b, op], e));
    }
    assert(shunt(u6) == (seq![a, b, op], seq![oq])) by {
        assert(e.push(oq) =~= seq![oq]);
    }
    assert(shunt(u7) == (seq![a, b, op, c], seq![oq])) by {
        assert(seq![a, b, op].push(c) =~= seq![a, b, op, c]);
    }
    assert(u7 =~= seq![Tok::Open, a, Tok::Op(p), b, Tok::Close, Tok::Op(q), c]);
    assert(seq![oq].drop_last() =~= e);
    assert(seq![a, b, op, c].push(oq) =~= seq![a, b, op, c, oq]);
    assert(seq![oq].last() == oq);
    assert(flush(seq![a, b, op, c, oq], e) == seq![a, b, op, c, oq]);
    assert(flush(seq![a, b, op, c], seq![oq]) == seq![a, b, op, c, oq]);
    // a p (b q c)
    let v1 = e.push(a);
    let v2 = v1.push(op);
    let v3 = v2.push(Tok::Open);
    let v4 = v3.push(b);
    let v5 = v4.push(oq);
    let v6 = v5.push(c);
    let v7 = v6.push(Tok::Close);
    lemma_shunt_push(e, a);
    lemma_shunt_push(v1, op);
    lemma_shunt_push(v2, Tok::Open);
    lemma_shunt_push(v3, b);
    lemma_shunt_push(v4, oq);
    lemma_shunt_push(v5, c);
    lemma_shunt_push(v6, Tok::Close);
    assert(shunt(v1) == (seq![a], e)) by {
        assert(e.push(a) =~= seq![a]);
    }
    assert(shunt(v2) == (seq![a], seq![op])) by {
        assert(e.push(op) =~= seq![op]);
    }
    assert(shunt(v3) == (seq![a], seq![op, Tok::Open])) by {
        assert(seq![op].push(Tok::Open) =~= seq![op, Tok::Open]);
    }
    assert(shunt(v4) == (seq![a, b], seq![op, Tok::Open])) by {
        assert(seq![a].push(b) =~= seq![a, b]);
    }
    assert(shunt(v5) == (seq![a, b], seq![op, Tok::Open, oq])) by {
        let st = seq![op, Tok::Open];
        assert(st.last() == Tok::Open);
        assert(pop_binding(seq![a, b], st, q) == (seq![a, b], st));
        assert(st.push(oq) =~= seq![op, Tok::Open, oq]);
    }
    assert(shunt(v6) == (seq![a, b, c], seq![op, Tok::Open, oq])) by {
        assert(seq![a, b].push(c) =~= seq![a, b, c]);
    }
    assert(shunt(v7) == (seq![a, b, c, oq], seq![op])) by {
        let st = seq![op, Tok::Open, oq];
        assert(st.drop_last() =~= seq![op, Tok::Open]);
        assert(seq![op, Tok::Open].drop_last() =~= seq![op]);
        assert(seq![a, b, c].push(oq) =~= seq![a, b, c, oq]);
        assert(pop_until_open(seq![a, b, c, oq], seq![op, Tok::Open]) == (seq![a, b, c, oq], seq![op]));
    }
    assert(v7 =~= seq![a, Tok::Op(p), Tok::Open, b, Tok::Op(q), c, Tok::Close]);
    assert(seq![op].drop_last() =~= e);
    assert(seq![a, b, c, oq].push(op) =~= seq![a, b, c, oq, op]);
    assert(seq![op].last() == op);
    assert(flush(seq![a, b, c, oq, op], e) == seq![a, b, c, oq, op]);
    assert(flush(seq![a, b, c, oq], seq![op]) == seq![a, b, c, oq, op]);
}

} // verus!
