//! Laws of the dispatch engine, stated over the execution model and
//! proved once for all inputs they speak of.

use vstd::prelude::*;
use crate::block::BlockType;
use crate::error::WofError;
use crate::interp::{
    Model, RunOut, is_close_kw, is_define_kw, is_else_kw, is_if_kw, is_keyword, is_load_kw,
    is_open_kw, is_set_kw, skip_opens, spec_pop_scope, spec_push_scope, spec_run, spec_step,
};
use crate::registry::{Op, spec_reg_lookup};
use crate::scope::{spec_frame_lookup, spec_scopes_lookup};
use crate::token::{TokenKind, TokenModel, is_int_text, spec_int_value};
use crate::value::{AbstractValue, DOUBLE_SCALE, spec_truthy};

verus! {

/// An integer literal token with the given text.
pub open spec fn int_tok(t: Seq<char>) -> TokenModel {
    TokenModel { kind: TokenKind::Integer, text: t }
}

/// A symbol token with the given text.
pub open spec fn sym_tok(t: Seq<char>) -> TokenModel {
    TokenModel { kind: TokenKind::Symbol, text: t }
}

/// The keyword classes are disjoint: a text can belong to at most one.
pub proof fn lemma_kw_distinct(t: Seq<char>)
    ensures
        is_load_kw(t) ==> !is_define_kw(t) && !is_set_kw(t) && !is_if_kw(t) && !is_else_kw(t)
            && !is_open_kw(t) && !is_close_kw(t),
        is_define_kw(t) ==> !is_load_kw(t) && !is_set_kw(t) && !is_if_kw(t) && !is_else_kw(t)
            && !is_open_kw(t) && !is_close_kw(t),
        is_set_kw(t) ==> !is_load_kw(t) && !is_define_kw(t) && !is_if_kw(t) && !is_else_kw(t)
            && !is_open_kw(t) && !is_close_kw(t),
        is_if_kw(t) ==> !is_load_kw(t) && !is_define_kw(t) && !is_set_kw(t) && !is_else_kw(t)
            && !is_open_kw(t) && !is_close_kw(t),
        is_else_kw(t) ==> !is_load_kw(t) && !is_define_kw(t) && !is_set_kw(t) && !is_if_kw(t)
            && !is_open_kw(t) && !is_close_kw(t),
        is_close_kw(t) ==> !is_load_kw(t) && !is_define_kw(t) && !is_set_kw(t) && !is_if_kw(t)
            && !is_else_kw(t) && !is_open_kw(t),
        is_open_kw(t) ==> !is_load_kw(t) && !is_define_kw(t) && !is_set_kw(t) && !is_if_kw(t)
            && !is_else_kw(t) && !is_close_kw(t),
        is_else_kw(t) ==> !crate::interp::is_loop_kw(t),
        is_close_kw(t) ==> !crate::interp::is_loop_kw(t),
{
    assert('読' != '字' && '読' != '支' && '読' != '若' && '読' != '或' && '読' != '⺆'
        && '読' != '⺘');
    assert('字' != '支' && '字' != '若' && '字' != '或' && '字' != '⺆' && '字' != '⺘');
    assert('支' != '若' && '支' != '或' && '支' != '⺆' && '支' != '⺘');
    assert('若' != '或' && '若' != '⺆' && '若' != '⺘');
    assert('或' != '⺆' && '或' != '⺘' && '或' != '⟳');
    assert('⺆' != '⺘');
    assert('⺘' != '⟳');
    assert(seq!['⟳'].len() == 1 && seq!['⟳'][0] == '⟳');
    assert(seq!['読'].len() == 1 && seq!['字'].len() == 1 && seq!['支'].len() == 1
        && seq!['若'].len() == 1 && seq!['或'].len() == 1 && seq!['⺆'].len() == 1
        && seq!['⺘'].len() == 1);
    assert(seq!['読'][0] == '読' && seq!['字'][0] == '字' && seq!['支'][0] == '支'
        && seq!['若'][0] == '若' && seq!['或'][0] == '或' && seq!['⺆'][0] == '⺆'
        && seq!['⺘'][0] == '⺘');
    reveal_strlit("読");
    reveal_strlit("load");
    reveal_strlit("get");
    reveal_strlit("字");
    reveal_strlit("define");
    reveal_strlit("let");
    reveal_strlit("支");
    reveal_strlit("set");
    reveal_strlit("store");
    reveal_strlit("若");
    reveal_strlit("if");
    reveal_strlit("或");
    reveal_strlit("else");
    reveal_strlit("loop");
    assert("load"@.len() == 4 && "get"@.len() == 3 && "define"@.len() == 6
        && "let"@.len() == 3 && "set"@.len() == 3 && "store"@.len() == 5
        && "if"@.len() == 2 && "else"@.len() == 4);
    assert("loop"@.len() == 4);
    assert("get"@[0] == 'g' && "let"@[0] == 'l' && "set"@[0] == 's');
    assert("load"@[0] == 'l' && "else"@[0] == 'e' && "loop"@[0] == 'l');
    assert("load"@[1] == 'o' && "loop"@[1] == 'o');
    assert("load"@[2] == 'a' && "loop"@[2] == 'o');
}

/// Running two integer literals and a name registered to the add
/// operation, from an empty stack, leaves exactly one value: their sum
/// as a double.
pub proof fn lemma_add_program(
    m: Model,
    ta: Seq<char>,
    tb: Seq<char>,
    p: Seq<char>,
    a: i64,
    b: i64,
)
    requires
        m.wf(),
        m.skip == 0,
        m.stack == Seq::<AbstractValue>::empty(),
        is_int_text(ta),
        is_int_text(tb),
        spec_int_value(ta) == a as int,
        spec_int_value(tb) == b as int,
        !is_keyword(p),
        spec_reg_lookup(m.registry, p) == Some(Op::Add),
    ensures
        ({
            let ro = spec_run(m, seq![int_tok(ta), int_tok(tb), sym_tok(p)]);
            &&& ro.err is None
            &&& ro.m.stack == seq![
                AbstractValue::Dbl((a + b) * (DOUBLE_SCALE as int)),
            ]
        }),
{
    let toks = seq![int_tok(ta), int_tok(tb), sym_tok(p)];
    let s1 = spec_step(m, toks[0], Some(toks[1]));
    assert(s1.err is None && !s1.used_next);
    assert(s1.m.stack =~= seq![AbstractValue::Int(a as int)]);
    let r1 = toks.skip(1);
    assert(r1 =~= seq![int_tok(tb), sym_tok(p)]);
    let s2 = spec_step(s1.m, r1[0], Some(r1[1]));
    assert(s2.err is None && !s2.used_next);
    assert(s2.m.stack =~= seq![AbstractValue::Int(a as int), AbstractValue::Int(b as int)]);
    let r2 = r1.skip(1);
    assert(r2 =~= seq![sym_tok(p)]);
    let s3 = spec_step(s2.m, r2[0], None);
    assert(s3.err is None && !s3.used_next);
    assert((a as int) * (DOUBLE_SCALE as int) + (b as int) * (DOUBLE_SCALE as int)
        == (a + b) * (DOUBLE_SCALE as int)) by (nonlinear_arith);
    assert(s3.m.stack =~= seq![AbstractValue::Dbl((a + b) * (DOUBLE_SCALE as int))]);
    let r3 = r2.skip(1);
    assert(r3 =~= Seq::<TokenModel>::empty());
    assert(spec_run(s3.m, r3) == RunOut { m: s3.m, err: None::<WofError> });
    assert(spec_run(s2.m, r2) == spec_run(s3.m, r3));
    assert(spec_run(s1.m, r1) == spec_run(s2.m, r2));
    assert(spec_run(m, toks) == spec_run(s1.m, r1));
}

/// A registered duplicate on a one-value stack leaves that value twice.
pub proof fn lemma_dup_law(m: Model, v: AbstractValue, d: Seq<char>)
    requires
        m.wf(),
        m.skip == 0,
        m.stack == seq![v],
        !is_keyword(d),
        spec_reg_lookup(m.registry, d) == Some(Op::Dup),
    ensures
        ({
            let ro = spec_run(m, seq![sym_tok(d)]);
            &&& ro.err is None
            &&& ro.m.stack == seq![v, v]
        }),
{
    let toks = seq![sym_tok(d)];
    let s1 = spec_step(m, toks[0], None);
    assert(s1.m.stack =~= seq![v, v]);
    assert(toks.skip(1) =~= Seq::<TokenModel>::empty());
    assert(spec_run(s1.m, toks.skip(1)) == RunOut { m: s1.m, err: None::<WofError> });
    assert(spec_run(m, toks) == spec_run(s1.m, toks.skip(1)));
}

/// A registered swap on a two-value stack exchanges the two values.
pub proof fn lemma_swap_law(m: Model, a: AbstractValue, b: AbstractValue, w: Seq<char>)
    requires
        m.wf(),
        m.skip == 0,
        m.stack == seq![a, b],
        !is_keyword(w),
        spec_reg_lookup(m.registry, w) == Some(Op::Swap),
    ensures
        ({
            let ro = spec_run(m, seq![sym_tok(w)]);
            &&& ro.err is None
            &&& ro.m.stack == seq![b, a]
        }),
{
    let toks = seq![sym_tok(w)];
    let s1 = spec_step(m, toks[0], None);
    assert(s1.m.stack =~= seq![b, a]);
    assert(toks.skip(1) =~= Seq::<TokenModel>::empty());
    assert(spec_run(s1.m, toks.skip(1)) == RunOut { m: s1.m, err: None::<WofError> });
    assert(spec_run(m, toks) == spec_run(s1.m, toks.skip(1)));
}

/// A symbol that is no keyword, names no registered operation and no
/// visible variable is pushed verbatim as a symbol value.
pub proof fn lemma_bare_symbol(m: Model, t: Seq<char>)
    requires
        m.wf(),
        m.skip == 0,
        !is_keyword(t),
        spec_reg_lookup(m.registry, t) is None,
        spec_scopes_lookup(m.scopes, t) is None,
    ensures
        spec_run(m, seq![sym_tok(t)]) == (RunOut {
            m: Model { stack: m.stack.push(AbstractValue::Sym(t)), ..m },
            err: None::<WofError>,
        }),
{
    let toks = seq![sym_tok(t)];
    let s1 = spec_step(m, toks[0], None);
    assert(s1.err is None && !s1.used_next);
    assert(s1.m =~~= (Model { stack: m.stack.push(AbstractValue::Sym(t)), ..m }));
    assert(toks.skip(1) =~= Seq::<TokenModel>::empty());
    assert(spec_run(s1.m, toks.skip(1)) == RunOut { m: s1.m, err: None::<WofError> });
    assert(spec_run(m, toks) == spec_run(s1.m, toks.skip(1)));
}

/// An empty or whitespace-only line has no tokens, so running it leaves
/// the whole state unchanged and raises no error.
pub proof fn lemma_whitespace_line(m: Model, line: Seq<char>)
    requires
        forall|j: int| 0 <= j < line.len() ==> crate::token::is_ws(line[j]),
    ensures
        spec_run(m, crate::token::spec_tokenize(line)) == (RunOut { m, err: None::<WofError> }),
{
    crate::token::lemma_ws_line_no_tokens(line, 0);
}

/// Defining a variable binds the value popped from the stack; a later
/// load of that name finds exactly that value and pushes it.
pub proof fn lemma_define_then_load(
    m: Model,
    d: Seq<char>,
    l: Seq<char>,
    x: Seq<char>,
    v: AbstractValue,
)
    requires
        m.wf(),
        m.skip == 0,
        m.stack.len() > 0,
        m.stack.last() == v,
        is_define_kw(d),
        is_load_kw(l),
    ensures
        ({
            let r1 = spec_run(m, seq![sym_tok(d), sym_tok(x)]);
            let r2 = spec_run(r1.m, seq![sym_tok(l), sym_tok(x)]);
            &&& r1.err is None
            &&& spec_scopes_lookup(r1.m.scopes, x) == Some(v)
            &&& r2.err is None
            &&& r2.m.stack == r1.m.stack.push(v)
        }),
{
    lemma_kw_distinct(d);
    lemma_kw_distinct(l);
    let dtoks = seq![sym_tok(d), sym_tok(x)];
    let s1 = spec_step(m, dtoks[0], Some(dtoks[1]));
    assert(s1.err is None && s1.used_next);
    assert(dtoks.skip(2) =~= Seq::<TokenModel>::empty());
    assert(spec_run(s1.m, dtoks.skip(2)) == RunOut { m: s1.m, err: None::<WofError> });
    assert(spec_run(m, dtoks) == spec_run(s1.m, dtoks.skip(2)));
    let r1 = spec_run(m, dtoks);
    assert(r1 == RunOut { m: s1.m, err: None::<WofError> });
    assert(s1.m.scopes.last().vars.last() == (x, v));
    assert(spec_frame_lookup(s1.m.scopes.last().vars, x) == Some(v));
    let ltoks = seq![sym_tok(l), sym_tok(x)];
    let s2 = spec_step(r1.m, ltoks[0], Some(ltoks[1]));
    assert(s2.err is None && s2.used_next);
    assert(ltoks.skip(2) =~= Seq::<TokenModel>::empty());
    assert(spec_run(s2.m, ltoks.skip(2)) == RunOut { m: s2.m, err: None::<WofError> });
    assert(spec_run(r1.m, ltoks) == spec_run(s2.m, ltoks.skip(2)));
}

/// Loading a name with no visible binding fails with the
/// undefined-variable error and changes nothing.
pub proof fn lemma_load_unbound_fails(m: Model, l: Seq<char>, x: Seq<char>)
    requires
        m.wf(),
        m.skip == 0,
        is_load_kw(l),
        spec_scopes_lookup(m.scopes, x) is None,
    ensures
        spec_run(m, seq![sym_tok(l), sym_tok(x)]) == (RunOut {
            m,
            err: Some(WofError::UndefinedVariable),
        }),
{
    lemma_kw_distinct(l);
    let toks = seq![sym_tok(l), sym_tok(x)];
    let s1 = spec_step(m, toks[0], Some(toks[1]));
    assert(s1.err == Some(WofError::UndefinedVariable));
    assert(s1.m =~~= m);
}

/// When a block closes, the bindings of its scope frame go with it: a
/// name bound only in the innermost frame is unbound afterwards.
pub proof fn lemma_binding_dies_with_scope(m: Model, x: Seq<char>)
    requires
        m.scopes.len() >= 2,
        m.bstack.len() > 0,
        0 <= m.bstack.last() < m.blocks.len(),
        forall|j: int| 0 <= j < m.scopes.len() - 1
            ==> spec_frame_lookup(#[trigger] m.scopes[j].vars, x) is None,
    ensures
        spec_scopes_lookup(spec_pop_scope(m).scopes, x) is None,
{
    let after = spec_pop_scope(m).scopes;
    assert(after == m.scopes.drop_last());
    lemma_unbound_lookup(after, x);
}

/// A name bound in no frame resolves to nothing.
proof fn lemma_unbound_lookup(frames: Seq<crate::scope::FrameModel>, x: Seq<char>)
    requires
        forall|j: int| 0 <= j < frames.len()
            ==> spec_frame_lookup(#[trigger] frames[j].vars, x) is None,
    ensures
        spec_scopes_lookup(frames, x) is None,
    decreases frames.len(),
{
    if frames.len() > 0 {
        lemma_unbound_lookup(frames.drop_last(), x);
    }
}

/// How a region of tokens moves the skip counter when dispatch only
/// discards: `None` when the region would leave skip mode on its own.
pub open spec fn spec_skip_sim(toks: Seq<TokenModel>, k: int) -> Option<int>
    decreases toks.len(),
{
    if toks.len() == 0 {
        Some(k)
    } else {
        let t = toks[0].text;
        if skip_opens(t) {
            spec_skip_sim(toks.skip(1), if k < usize::MAX { k + 1 } else { k })
        } else if is_close_kw(t) {
            if k >= 2 {
                spec_skip_sim(toks.skip(1), k - 1)
            } else {
                None
            }
        } else if is_else_kw(t) {
            if k >= 2 {
                spec_skip_sim(toks.skip(1), k)
            } else {
                None
            }
        } else {
            spec_skip_sim(toks.skip(1), k)
        }
    }
}

/// While dispatch is skipping, a region whose nesting never falls back
/// to the skip level is pure discard: nothing changes but the skip
/// counter, and the run continues with whatever follows. In particular
/// an inner else inside a skipped region never ends the outer skip.
pub proof fn lemma_skip_transparent(m: Model, toks: Seq<TokenModel>, rest: Seq<TokenModel>, j: int)
    requires
        m.skip >= 1,
        spec_skip_sim(toks, m.skip) == Some(j),
    ensures
        spec_run(m, toks + rest) == spec_run(Model { skip: j, ..m }, rest),
    decreases toks.len(),
{
    if toks.len() == 0 {
        assert(toks + rest =~= rest);
        assert(Model { skip: j, ..m } =~~= m);
    } else {
        let all = toks + rest;
        assert(all[0] == toks[0]);
        let s1 = spec_step(m, all[0], if all.len() > 1 { Some(all[1]) } else { None });
        assert(s1.err is None && !s1.used_next);
        assert(all.skip(1) =~= toks.skip(1) + rest);
        let t = toks[0].text;
        if skip_opens(t) {
            let k2: int = if m.skip < usize::MAX { m.skip + 1 } else { m.skip as int };
            assert(s1.m =~~= (Model { skip: k2, ..m }));
            lemma_skip_transparent(Model { skip: k2, ..m }, toks.skip(1), rest, j);
        } else if is_close_kw(t) {
            assert(s1.m =~~= (Model { skip: m.skip - 1, ..m }));
            lemma_skip_transparent(Model { skip: m.skip - 1, ..m }, toks.skip(1), rest, j);
        } else if is_else_kw(t) {
            assert(s1.m =~~= m);
            lemma_skip_transparent(m, toks.skip(1), rest, j);
        } else {
            assert(s1.m =~~= m);
            lemma_skip_transparent(m, toks.skip(1), rest, j);
        }
    }
}

/// A true conditional opens its block and falls straight into the then
/// body: the rest of the program runs from the opened state.
pub proof fn lemma_if_true(m: Model, t: Seq<char>, rest: Seq<TokenModel>)
    requires
        m.wf(),
        m.skip == 0,
        m.stack.len() > 0,
        spec_truthy(m.stack.last()),
        is_if_kw(t),
    ensures
        spec_run(m, seq![sym_tok(t)] + rest) == spec_run(
            spec_push_scope(Model { stack: m.stack.drop_last(), ..m }, BlockType::If),
            rest,
        ),
{
    lemma_kw_distinct(t);
    let all = seq![sym_tok(t)] + rest;
    assert(all[0] == sym_tok(t));
    assert(all.skip(1) =~= rest);
    let s1 = spec_step(m, all[0], if all.len() > 1 { Some(all[1]) } else { None });
    assert(s1.err is None && !s1.used_next);
    assert(s1.m =~~= spec_push_scope(Model { stack: m.stack.drop_last(), ..m }, BlockType::If));
    assert(spec_run(m, all) == spec_run(s1.m, rest));
}

/// A false conditional opens its block too, then discards the whole then
/// body: only the else body's effects happen. The then body may nest
/// further conditionals; its inner else keywords stay inside it.
pub proof fn lemma_if_false(
    m: Model,
    t: Seq<char>,
    then_body: Seq<TokenModel>,
    e: Seq<char>,
    rest: Seq<TokenModel>,
)
    requires
        m.wf(),
        m.skip == 0,
        m.stack.len() > 0,
        !spec_truthy(m.stack.last()),
        is_if_kw(t),
        is_else_kw(e),
        spec_skip_sim(then_body, 1) == Some(1int),
    ensures
        spec_run(m, seq![sym_tok(t)] + then_body + seq![sym_tok(e)] + rest) == spec_run(
            spec_push_scope(Model { stack: m.stack.drop_last(), ..m }, BlockType::If),
            rest,
        ),
{
    lemma_kw_distinct(t);
    lemma_kw_distinct(e);
    let all = seq![sym_tok(t)] + then_body + seq![sym_tok(e)] + rest;
    assert(all[0] == sym_tok(t));
    let s1 = spec_step(m, all[0], if all.len() > 1 { Some(all[1]) } else { None });
    assert(s1.err is None && !s1.used_next);
    let opened = spec_push_scope(Model { stack: m.stack.drop_last(), ..m }, BlockType::If);
    assert(s1.m =~~= (Model { skip: 1, ..opened }));
    assert(all.skip(1) =~= then_body + (seq![sym_tok(e)] + rest));
    lemma_skip_transparent(
        Model { skip: 1, ..opened },
        then_body,
        seq![sym_tok(e)] + rest,
        1int,
    );
    let m2 = Model { skip: 1, ..opened };
    let etoks = seq![sym_tok(e)] + rest;
    assert(etoks[0] == sym_tok(e));
    let s2 = spec_step(m2, etoks[0], if etoks.len() > 1 { Some(etoks[1]) } else { None });
    assert(s2.err is None && !s2.used_next);
    assert(s2.m =~~= opened);
    assert(etoks.skip(1) =~= rest);
}

/// After a then body has run, the else keyword skips the whole else body
/// and the closing keyword closes the conditional's block: only the then
/// body's effects remain.
pub proof fn lemma_else_skips(
    m: Model,
    e: Seq<char>,
    else_body: Seq<TokenModel>,
    c: Seq<char>,
    rest: Seq<TokenModel>,
)
    requires
        m.wf(),
        m.skip == 0,
        is_else_kw(e),
        is_close_kw(c),
        spec_skip_sim(else_body, 1) == Some(1int),
    ensures
        spec_run(m, seq![sym_tok(e)] + else_body + seq![sym_tok(c)] + rest) == spec_run(
            spec_pop_scope(m),
            rest,
        ),
{
    lemma_kw_distinct(e);
    lemma_kw_distinct(c);
    let all = seq![sym_tok(e)] + else_body + seq![sym_tok(c)] + rest;
    assert(all[0] == sym_tok(e));
    let s1 = spec_step(m, all[0], if all.len() > 1 { Some(all[1]) } else { None });
    assert(s1.err is None && !s1.used_next);
    assert(s1.m =~~= (Model { skip: 1, ..m }));
    assert(all.skip(1) =~= else_body + (seq![sym_tok(c)] + rest));
    lemma_skip_transparent(Model { skip: 1, ..m }, else_body, seq![sym_tok(c)] + rest, 1int);
    let m2 = Model { skip: 1, ..m };
    let ctoks = seq![sym_tok(c)] + rest;
    assert(ctoks[0] == sym_tok(c));
    let s2 = spec_step(m2, ctoks[0], if ctoks.len() > 1 { Some(ctoks[1]) } else { None });
    assert(s2.err is None && !s2.used_next);
    assert(s2.m =~~= spec_pop_scope(m));
    assert(ctoks.skip(1) =~= rest);
}

/// The variable keywords, whose following token is consumed as a name.
pub open spec fn is_var_kw(t: Seq<char>) -> bool {
    is_load_kw(t) || is_define_kw(t) || is_set_kw(t)
}

/// The structural weight of a token: a conditional or a block open
/// pushes one block, the close pops one, everything else leaves the
/// block structure alone.
pub open spec fn tok_nest(t: TokenModel) -> int {
    if is_open_kw(t.text) || is_if_kw(t.text) {
        1
    } else if is_close_kw(t.text) {
        -1
    } else {
        0
    }
}

/// The total nesting weight of a token sequence.
pub open spec fn nest(toks: Seq<TokenModel>) -> int
    decreases toks.len(),
{
    if toks.len() == 0 {
        0
    } else {
        tok_nest(toks[0]) + nest(toks.skip(1))
    }
}

/// Starting from `b` surplus opens, no prefix of the sequence closes a
/// block it did not open.
pub open spec fn prefix_ok(toks: Seq<TokenModel>, b: int) -> bool
    decreases toks.len(),
{
    if toks.len() == 0 {
        true
    } else {
        let t = toks[0];
        if is_close_kw(t.text) {
            b >= 1 && prefix_ok(toks.skip(1), b - 1)
        } else if is_open_kw(t.text) || is_if_kw(t.text) {
            prefix_ok(toks.skip(1), b + 1)
        } else {
            prefix_ok(toks.skip(1), b)
        }
    }
}

/// No reserved loop keyword: those are structural in skip mode only.
pub open spec fn no_loop_kw(toks: Seq<TokenModel>) -> bool {
    forall|i: int| 0 <= i < toks.len() ==> !crate::interp::is_loop_kw(#[trigger] toks[i].text)
}

/// Structural and else texts ride only on symbol tokens, as the
/// tokenizer produces them.
pub open spec fn structural_are_symbols(toks: Seq<TokenModel>) -> bool {
    forall|i: int| 0 <= i < toks.len()
        && (tok_nest(#[trigger] toks[i]) != 0 || is_else_kw(toks[i].text))
        ==> toks[i].kind == TokenKind::Symbol
}

/// No structural or else token stands right after a variable keyword,
/// so none is ever consumed as a variable name.
pub open spec fn var_names_plain(toks: Seq<TokenModel>) -> bool {
    forall|i: int| 0 <= i < toks.len() - 1
        && (#[trigger] toks[i]).kind == TokenKind::Symbol && is_var_kw(toks[i].text)
        ==> tok_nest(toks[i + 1]) == 0 && !is_else_kw(toks[i + 1].text)
}

/// A well-formed program for the scope-balance law: balanced block
/// structure and none of the shapes that make structure ambiguous.
pub open spec fn balanced_program(toks: Seq<TokenModel>) -> bool {
    &&& prefix_ok(toks, 0)
    &&& nest(toks) == 0
    &&& no_loop_kw(toks)
    &&& structural_are_symbols(toks)
    &&& var_names_plain(toks)
}

/// The scope frames move in lock step with the open blocks, and every
/// stacked block identity names a record.
pub open spec fn scopes_track_blocks(m: Model) -> bool {
    &&& m.scopes.len() == m.bstack.len() + 1
    &&& forall|i: int| 0 <= i < m.bstack.len()
        ==> 0 <= #[trigger] m.bstack[i] < m.blocks.len()
}

/// How many block levels skip mode still owes: while skipping, the
/// outermost skipped block is on the block stack and the deeper levels
/// are counted only in the skip depth.
pub open spec fn skip_excess(m: Model) -> int {
    if m.skip > 0 {
        m.skip - 1
    } else {
        0
    }
}

/// The structural depth of the state: open blocks plus the levels the
/// skip counter still owes.
pub open spec fn struct_depth(m: Model) -> int {
    m.bstack.len() + skip_excess(m)
}

/// Scope balance, generalized for induction: running tokens whose
/// prefixes never close more than `b` surplus opens moves the
/// structural depth by exactly the nesting weight, keeps the scope
/// frames in lock step with the blocks, and never drops the block stack
/// below its floor.
#[verifier::rlimit(100)]
pub proof fn lemma_balance_run(m: Model, toks: Seq<TokenModel>, b: int)
    requires
        scopes_track_blocks(m),
        0 <= b,
        0 <= m.skip,
        skip_excess(m) <= b,
        struct_depth(m) - b >= 0,
        m.skip + toks.len() <= usize::MAX,
        prefix_ok(toks, b),
        no_loop_kw(toks),
        structural_are_symbols(toks),
        var_names_plain(toks),
    ensures
        ({
            let ro = spec_run(m, toks);
            ro.err is None ==> {
                &&& scopes_track_blocks(ro.m)
                &&& 0 <= ro.m.skip
                &&& struct_depth(ro.m) == struct_depth(m) + nest(toks)
                &&& skip_excess(ro.m) <= b + nest(toks)
                &&& ro.m.bstack.len() >= struct_depth(m) - b
            }
        }),
    decreases toks.len(),
{
    if toks.len() == 0 {
        return;
    }
    let t = toks[0];
    let next = if toks.len() > 1 {
        Some(toks[1])
    } else {
        None
    };
    let so = spec_step(m, t, next);
    if so.err is Some {
        return;
    }
    lemma_kw_distinct(t.text);
    let one = toks.skip(1);
    assert(no_loop_kw(one) && structural_are_symbols(one) && var_names_plain(one)) by {
        assert(forall|i: int| 0 <= i < one.len() ==> #[trigger] one[i] == toks[i + 1]);
    }
    let m2 = so.m;
    let b2: int = b + tok_nest(t);
    if so.used_next && toks.len() >= 2 {
        // a variable form consumed its name token, which the guards keep
        // structurally neutral
        let rest = toks.skip(2);
        assert(rest =~= one.skip(1));
        assert(no_loop_kw(rest) && structural_are_symbols(rest) && var_names_plain(rest)) by {
            assert(forall|i: int| 0 <= i < rest.len() ==> #[trigger] rest[i] == one[i + 1]);
        }
        assert(m.skip == 0 && t.kind == TokenKind::Symbol && is_var_kw(t.text));
        assert(tok_nest(t) == 0);
        assert(tok_nest(toks[1]) == 0);
        assert(prefix_ok(one, b));
        assert(prefix_ok(rest, b));
        if is_set_kw(t.text) {
            lemma_scopes_set_len(m.scopes, toks[1].text, m.stack.last());
        }
        assert(m2.bstack == m.bstack && m2.blocks == m.blocks && m2.skip == m.skip
            && m2.scopes.len() == m.scopes.len());
        assert(scopes_track_blocks(m2));
        lemma_balance_run(m2, rest, b);
        assert(nest(one) == tok_nest(toks[1]) + nest(rest));
        assert(nest(toks) == nest(rest));
        assert(spec_run(m, toks) == spec_run(m2, rest));
        return;
    }
    // exactly the front token was consumed
    assert(prefix_ok(one, b2));
    if m.skip > 0 {
        // skip mode: only the structural texts act
        if skip_opens(t.text) {
            assert(is_open_kw(t.text) || is_if_kw(t.text));
            assert(m.skip < usize::MAX);
            assert(m2 =~~= (Model { skip: m.skip + 1, ..m }));
            assert(skip_excess(m2) == skip_excess(m) + 1);
            lemma_balance_run(m2, one, b2);
        } else if is_close_kw(t.text) {
            assert(b >= 1);
            if m.skip == 1 {
                assert(skip_excess(m) == 0);
                assert(m.bstack.len() == struct_depth(m) >= b >= 1);
                let id = m.bstack.last();
                assert(0 <= id < m.blocks.len());
                assert(crate::block::spec_creates_scope(m.blocks[id].block_type));
                assert(m2.bstack == m.bstack.drop_last());
                assert(m2.scopes == m.scopes.drop_last());
                assert(m2.blocks.len() == m.blocks.len());
                assert(scopes_track_blocks(m2));
                assert(struct_depth(m2) == struct_depth(m) - 1);
                lemma_balance_run(m2, one, b2);
            } else {
                assert(m2 =~~= (Model { skip: m.skip - 1, ..m }));
                assert(skip_excess(m2) == skip_excess(m) - 1);
                lemma_balance_run(m2, one, b2);
            }
        } else if is_else_kw(t.text) {
            if m.skip == 1 {
                assert(m2 =~~= (Model { skip: 0, ..m }));
            } else {
                assert(m2 =~~= m);
            }
            assert(skip_excess(m2) == skip_excess(m));
            lemma_balance_run(m2, one, b2);
        } else {
            assert(m2 =~~= m);
            lemma_balance_run(m2, one, b2);
        }
    } else {
        // normal dispatch
        if t.kind != TokenKind::Symbol {
            assert(tok_nest(t) == 0);
            assert(m2.bstack == m.bstack && m2.blocks == m.blocks && m2.skip == m.skip
                && m2.scopes == m.scopes);
            lemma_balance_run(m2, one, b2);
        } else if is_var_kw(t.text) {
            // the consuming case returned above; here the form failed
            assert(so.err is Some);
        } else if is_if_kw(t.text) {
            let opened = spec_push_scope(Model { stack: m.stack.drop_last(), ..m }, BlockType::If);
            assert(opened.bstack.len() == m.bstack.len() + 1);
            assert(opened.scopes.len() == m.scopes.len() + 1);
            assert(scopes_track_blocks(opened)) by {
                assert(forall|i: int| 0 <= i < m.bstack.len()
                    ==> #[trigger] opened.bstack[i] == m.bstack[i]);
            }
            assert(m2 == opened || m2 == (Model { skip: 1, ..opened }));
            assert(skip_excess(m2) == 0);
            assert(scopes_track_blocks(m2));
            assert(struct_depth(m2) == struct_depth(m) + 1);
            lemma_balance_run(m2, one, b2);
        } else if is_else_kw(t.text) {
            assert(m2 =~~= (Model { skip: 1, ..m }));
            assert(skip_excess(m2) == 0 && skip_excess(m) == 0);
            lemma_balance_run(m2, one, b2);
        } else if is_open_kw(t.text) {
            let opened = spec_push_scope(m, BlockType::Generic);
            assert(m2 == opened);
            assert(scopes_track_blocks(m2)) by {
                assert(forall|i: int| 0 <= i < m.bstack.len()
                    ==> #[trigger] m2.bstack[i] == m.bstack[i]);
            }
            assert(struct_depth(m2) == struct_depth(m) + 1);
            lemma_balance_run(m2, one, b2);
        } else if is_close_kw(t.text) {
            assert(b >= 1);
            assert(skip_excess(m) == 0);
            assert(m.bstack.len() == struct_depth(m) >= b >= 1);
            let id = m.bstack.last();
            assert(0 <= id < m.blocks.len());
            assert(crate::block::spec_creates_scope(m.blocks[id].block_type));
            assert(m2.bstack == m.bstack.drop_last());
            assert(m2.scopes == m.scopes.drop_last());
            assert(m2.blocks.len() == m.blocks.len());
            assert(scopes_track_blocks(m2));
            assert(struct_depth(m2) == struct_depth(m) - 1);
            lemma_balance_run(m2, one, b2);
        } else {
            assert(tok_nest(t) == 0);
            assert(m2.bstack == m.bstack && m2.blocks == m.blocks && m2.skip == m.skip
                && m2.scopes.len() == m.scopes.len());
            assert(scopes_track_blocks(m2));
            lemma_balance_run(m2, one, b2);
        }
    }
    assert(nest(toks) == tok_nest(t) + nest(one));
    assert(spec_run(m, toks) == if so.err is Some {
        RunOut { m: so.m, err: so.err }
    } else {
        spec_run(m2, one)
    });
}

/// Overwriting a binding never changes how many frames are open.
proof fn lemma_scopes_set_len(
    frames: Seq<crate::scope::FrameModel>,
    name: Seq<char>,
    value: AbstractValue,
)
    ensures
        crate::scope::spec_scopes_set(frames, name, value).len() == frames.len(),
    decreases frames.len(),
{
    if frames.len() > 0 && !(spec_frame_lookup(frames.last().vars, name) is Some) {
        lemma_scopes_set_len(frames.drop_last(), name, value);
    }
}

/// Scope balance: a well-formed program of balanced block-open, if,
/// else and close constructs, run without error from a state that is
/// not skipping, closes exactly the scopes it opens, whichever branches
/// its conditionals take.
pub proof fn lemma_balanced_scopes(m: Model, toks: Seq<TokenModel>)
    requires
        scopes_track_blocks(m),
        m.skip == 0,
        toks.len() <= usize::MAX,
        balanced_program(toks),
    ensures
        ({
            let ro = spec_run(m, toks);
            ro.err is None ==> {
                &&& ro.m.bstack.len() == m.bstack.len()
                &&& ro.m.scopes.len() == m.scopes.len()
                &&& ro.m.skip <= 1
            }
        }),
{
    lemma_balance_run(m, toks, 0);
    let ro = spec_run(m, toks);
    if ro.err is None {
        assert(struct_depth(ro.m) == struct_depth(m));
        assert(ro.m.bstack.len() >= struct_depth(m));
        assert(skip_excess(ro.m) == 0);
    }
}

} // verus!
