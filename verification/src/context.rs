//! The scope resolver: a tree of lexical scopes held in an arena and
//! addressed by stable integer index, registration of declarations, and
//! resolution of identifier occurrences by walking outward through the
//! parent chain, innermost declaration first.

use vstd::prelude::*;
use crate::ast::{ExprV, Expression, Program, Statement, StmtV};

verus! {

/// One lexical scope: its declared names in declaration order (a name may
/// repeat; later entries shadow earlier ones), and its parent scope.
#[derive(Debug, Clone, PartialEq, Eq)]
pub struct Context {
    pub idents: Vec<String>,
    pub parent: Option<usize>,
}

/// The mathematical image of a scope.
#[verifier::ext_equal]
pub struct ContextV {
    pub idents: Seq<Seq<char>>,
    pub parent: Option<nat>,
}

impl View for Context {
    type V = ContextV;

    open spec fn view(&self) -> ContextV {
        ContextV {
            idents: self.idents@.map_values(|s: String| s@),
            parent: match self.parent {
                Some(p) => Some(p as nat),
                None => None,
            },
        }
    }
}

/// The arena of scopes. Contexts form a tree: every scope's parent stands
/// earlier in the arena, so walking parent links always terminates.
#[derive(Debug, PartialEq, Eq)]
pub struct ContextArena {
    pub contexts: Vec<Context>,
}

impl View for ContextArena {
    type V = Seq<ContextV>;

    open spec fn view(&self) -> Seq<ContextV> {
        self.contexts@.map_values(|c: Context| c@)
    }
}

/// Every scope's parent stands strictly earlier in the arena.
pub open spec fn arena_wf(a: Seq<ContextV>) -> bool {
    forall|i: int|
        0 <= i < a.len() ==> match (#[trigger] a[i]).parent {
            Some(p) => p < i,
            None => true,
        }
}

/// A resolved identifier: the durable name of a declaration site, as the
/// scope it was declared in (an arena index) and its slot in that scope's
/// declaration list.
#[derive(Debug, Clone, Copy, PartialEq, Eq, Structural)]
pub struct Identifier {
    pub context: usize,
    pub slot: usize,
}

/// The innermost slot of `name` in one scope's declaration list: the
/// highest-indexed entry equal to `name`.
pub open spec fn last_slot(names: Seq<Seq<char>>, name: Seq<char>) -> Option<int>
    decreases names.len(),
{
    if names.len() == 0 {
        None
    } else if names.last() == name {
        Some(names.len() - 1)
    } else {
        last_slot(names.drop_last(), name)
    }
}

/// What `last_slot` finds is a match, and nothing above it matches.
pub proof fn lemma_last_slot(names: Seq<Seq<char>>, name: Seq<char>)
    ensures
        match last_slot(names, name) {
            Some(j) => {
                &&& 0 <= j < names.len()
                &&& names[j] == name
                &&& forall|k: int| j < k < names.len() ==> names[k] != name
            },
            None => forall|k: int| 0 <= k < names.len() ==> names[k] != name,
        },
    decreases names.len(),
{
    if names.len() > 0 && names.last() != name {
        lemma_last_slot(names.drop_last(), name);
        assert forall|k: int| 0 <= k < names.len() - 1 implies names.drop_last()[k] == names[k] by {}
    }
}

/// The resolution of `name` looked up from scope `c`: scan `c`'s slots
/// innermost-first, then repeat at the parent; `None` when no enclosing
/// scope declares the name. The reference description of lexical lookup.
pub open spec fn resolve_v(arena: Seq<ContextV>, c: nat, name: Seq<char>) -> Option<(nat, nat)>
    decreases c,
        when c < arena.len() && arena_wf(arena)
{
    match last_slot(arena[c as int].idents, name) {
        Some(j) => Some((c, j as nat)),
        None => match arena[c as int].parent {
            Some(p) => resolve_v(arena, p, name),
            None => None,
        },
    }
}

/// The shadowing invariant of lookup: whatever scope `c` a lookup starts
/// from, what it hands back is a real declaration slot of `name`, and the
/// innermost one of its scope — no higher-indexed (more recently declared)
/// slot there holds the same name.
pub proof fn lemma_resolve_innermost(arena: Seq<ContextV>, c: nat, name: Seq<char>)
    requires
        arena_wf(arena),
        c < arena.len(),
    ensures
        match resolve_v(arena, c, name) {
            Some(t) => {
                &&& t.0 < arena.len()
                &&& t.1 < arena[t.0 as int].idents.len()
                &&& arena[t.0 as int].idents[t.1 as int] == name
                &&& forall|k: int|
                    t.1 < k < arena[t.0 as int].idents.len() ==> arena[t.0 as int].idents[k]
                        != name
            },
            None => forall|k: int|
                0 <= k < arena[c as int].idents.len() ==> arena[c as int].idents[k] != name,
        },
    decreases c,
{
    lemma_last_slot(arena[c as int].idents, name);
    if last_slot(arena[c as int].idents, name) is None {
        if let Some(p) = arena[c as int].parent {
            lemma_resolve_innermost(arena, p, name);
        }
    }
}

impl Identifier {
    /// The declared name this handle stands for, read back from the arena.
    pub fn get_name(&self, arena: &ContextArena) -> (r: Option<String>)
        ensures
            match r {
                Some(n) => {
                    &&& self.context < arena@.len()
                    &&& self.slot < arena@[self.context as int].idents.len()
                    &&& n@ == arena@[self.context as int].idents[self.slot as int]
                },
                None => self.context >= arena@.len() || self.slot >= arena@[
                    self.context as int
                ].idents.len(),
            },
    {
        if self.context < arena.contexts.len() && self.slot
            < arena.contexts[self.context].idents.len() {
            Some(arena.contexts[self.context].idents[self.slot].clone())
        } else {
            None
        }
    }
}

impl ContextArena {
    /// An arena holding only the outermost scope, which has no parent.
    pub fn new() -> (r: ContextArena)
        ensures
            r@.len() == 1,
            r@[0].idents.len() == 0,
            r@[0].parent is None,
            arena_wf(r@),
    {
        let mut contexts: Vec<Context> = Vec::new();
        contexts.push(Context { idents: Vec::new(), parent: None });
        ContextArena { contexts }
    }

    /// Opens a new scope whose parent is `parent`, and hands back its index.
    pub fn new_context(&mut self, parent: usize) -> (r: usize)
        requires
            parent < old(self)@.len(),
        ensures
            r == old(self)@.len(),
            final(self)@ == old(self)@.push(
                ContextV { idents: Seq::empty(), parent: Some(parent as nat) },
            ),
            arena_wf(old(self)@) ==> arena_wf(final(self)@),
    {
        let r = self.contexts.len();
        self.contexts.push(Context { idents: Vec::new(), parent: Some(parent) });
        proof {
            assert(self@ =~~= old(self)@.push(
                ContextV { idents: Seq::empty(), parent: Some(parent as nat) },
            ));
        }
        r
    }

    /// Registers a declaration of `name` in scope `ctx`: always appends a
    /// new, higher-indexed slot — an earlier declaration of the same name is
    /// shadowed, never overwritten — and hands back the new slot's handle.
    pub fn register_named(&mut self, ctx: usize, name: String) -> (r: Identifier)
        requires
            ctx < old(self)@.len(),
        ensures
            r.context == ctx,
            r.slot == old(self)@[ctx as int].idents.len(),
            final(self)@ == old(self)@.update(
                ctx as int,
                ContextV {
                    idents: old(self)@[ctx as int].idents.push(name@),
                    parent: old(self)@[ctx as int].parent,
                },
            ),
            arena_wf(old(self)@) ==> arena_wf(final(self)@),
    {
        let slot = self.contexts[ctx].idents.len();
        let ghost oldv = self@;
        let ghost nv = name@;
        let c = &mut self.contexts[ctx];
        c.idents.push(name);
        proof {
            assert(self@ =~~= oldv.update(
                ctx as int,
                ContextV {
                    idents: oldv[ctx as int].idents.push(nv),
                    parent: oldv[ctx as int].parent,
                },
            ));
        }
        Identifier { context: ctx, slot }
    }

    /// Resolves `name` from scope `ctx` outward: the innermost (highest
    /// indexed) matching slot of the nearest enclosing scope that declares
    /// the name, or `None` when no enclosing scope does.
    pub fn find_named_ident(&self, ctx: usize, name: &String) -> (r: Option<Identifier>)
        requires
            ctx < self@.len(),
            arena_wf(self@),
        ensures
            match r {
                Some(id) => resolve_v(self@, ctx as nat, name@) == Some(
                    (id.context as nat, id.slot as nat),
                ),
                None => resolve_v(self@, ctx as nat, name@) is None,
            },
    {
        let mut c = ctx;
        loop
            invariant
                c < self@.len(),
                arena_wf(self@),
                ctx < self@.len(),
                resolve_v(self@, c as nat, name@) == resolve_v(self@, ctx as nat, name@),
            decreases c,
        {
            proof {
                assert(self@[c as int] == self.contexts@[c as int]@);
            }
            let names = &self.contexts[c].idents;
            let mut j = names.len();
            proof {
                assert(self@[c as int].idents =~= names@.map_values(|s: String| s@));
                assert(self@[c as int].idents.take(j as int) =~= self@[c as int].idents);
            }
            while j > 0
                invariant
                    j <= names@.len(),
                    self@[c as int].idents == names@.map_values(|s: String| s@),
                    c < self@.len(),
                    ctx < self@.len(),
                    arena_wf(self@),
                    resolve_v(self@, c as nat, name@) == resolve_v(self@, ctx as nat, name@),
                    last_slot(self@[c as int].idents.take(j as int), name@) == last_slot(
                        self@[c as int].idents,
                        name@,
                    ),
                decreases j,
            {
                proof {
                    assert(self@[c as int].idents.take(j as int).last() == self@[
                        c as int
                    ].idents[j - 1]);
                    assert(self@[c as int].idents.take(j as int).drop_last() =~= self@[
                        c as int
                    ].idents.take(j - 1));
                }
                if names[j - 1].eq(name) {
                    proof {
                        assert(last_slot(self@[c as int].idents.take(j as int), name@) == Some(
                            j - 1,
                        ));
                    }
                    return Some(Identifier { context: c, slot: j - 1 });
                }
                j = j - 1;
            }
            proof {
                assert(self@[c as int].idents.take(0) =~= Seq::<Seq<char>>::empty());
            }
            match self.contexts[c].parent {
                Some(p) => {
                    c = p;
                },
                None => {
                    return None;
                },
            }
        }
    }
}

/// An identifier occurrence whose name no enclosing scope declares. These
/// are collected across the whole resolution pass, not raised one at a time.
#[derive(Debug, Clone, PartialEq, Eq)]
pub struct ResolutionError {
    pub name: String,
}

/// One identifier occurrence, in textual order, with the declaration slot it
/// resolved to, if any.
#[derive(Debug, Clone, PartialEq, Eq)]
pub struct NameRef {
    pub name: String,
    pub target: Option<Identifier>,
}

/// The mathematical image of an identifier occurrence.
#[verifier::ext_equal]
pub struct RefV {
    pub name: Seq<char>,
    pub target: Option<(nat, nat)>,
}

impl View for NameRef {
    type V = RefV;

    open spec fn view(&self) -> RefV {
        RefV {
            name: self.name@,
            target: match self.target {
                Some(id) => Some((id.context as nat, id.slot as nat)),
                None => None,
            },
        }
    }
}

/// The outcome of a resolution pass: the scope tree it built, every
/// identifier occurrence with what it resolved to, and the unresolved names.
#[derive(Debug, PartialEq, Eq)]
pub struct Resolution {
    pub arena: ContextArena,
    pub refs: Vec<NameRef>,
    pub errors: Vec<ResolutionError>,
}

/// The mathematical image of a resolution pass's state.
#[verifier::ext_equal]
pub struct ResolveStV {
    pub arena: Seq<ContextV>,
    pub refs: Seq<RefV>,
    pub errors: Seq<Seq<char>>,
}

impl View for Resolution {
    type V = ResolveStV;

    open spec fn view(&self) -> ResolveStV {
        ResolveStV {
            arena: self.arena@,
            refs: self.refs@.map_values(|r: NameRef| r@),
            errors: self.errors@.map_values(|e: ResolutionError| e.name@),
        }
    }
}

/// One identifier occurrence is resolved from scope `c`: the occurrence is
/// recorded with its target, and an unresolved name is also recorded as an
/// error.
pub open spec fn resolve_ident_v(st: ResolveStV, c: nat, name: Seq<char>) -> ResolveStV {
    if c < st.arena.len() && arena_wf(st.arena) {
        match resolve_v(st.arena, c, name) {
            Some(t) => ResolveStV {
                arena: st.arena,
                refs: st.refs.push(RefV { name, target: Some(t) }),
                errors: st.errors,
            },
            None => ResolveStV {
                arena: st.arena,
                refs: st.refs.push(RefV { name, target: None }),
                errors: st.errors.push(name),
            },
        }
    } else {
        st
    }
}

/// The resolution pass over an expression, threading the pass's state in
/// textual order. A block or function literal opens a new scope whose parent
/// is the scope active at its opening delimiter.
pub open spec fn resolve_expr_v(st: ResolveStV, c: nat, e: ExprV) -> ResolveStV
    decreases e,
{
    match e {
        ExprV::Ident(name) => resolve_ident_v(st, c, name),
        ExprV::Int(_) => st,
        ExprV::Boolean(_) => st,
        ExprV::Unit => st,
        ExprV::PrefixExpression { operator, right } => resolve_expr_v(st, c, *right),
        ExprV::InfixExpression { left, op, right } => resolve_expr_v(
            resolve_expr_v(st, c, *left),
            c,
            *right,
        ),
        ExprV::CallExpression { lambda, parameters } => resolve_exprs_v(
            resolve_expr_v(st, c, *lambda),
            c,
            parameters,
        ),
        ExprV::Function { params, body } => {
            let c2 = st.arena.len();
            let st1 = ResolveStV {
                arena: st.arena.push(ContextV { idents: params, parent: Some(c) }),
                refs: st.refs,
                errors: st.errors,
            };
            resolve_expr_v(st1, c2, *body)
        },
        ExprV::BlockExpression(ss) => {
            let c2 = st.arena.len();
            let st1 = ResolveStV {
                arena: st.arena.push(ContextV { idents: Seq::empty(), parent: Some(c) }),
                refs: st.refs,
                errors: st.errors,
            };
            resolve_stmts_v(st1, c2, ss)
        },
    }
}

/// The resolution pass over one statement. A `let` resolves its value first
/// and only then registers the declared name, so the binding cannot refer to
/// itself.
pub open spec fn resolve_stmt_v(st: ResolveStV, c: nat, s: StmtV) -> ResolveStV
    decreases s,
{
    match s {
        StmtV::Expr(e) => resolve_expr_v(st, c, e),
        StmtV::Return(e) => resolve_expr_v(st, c, e),
        StmtV::Let { name, value } => {
            let st1 = resolve_expr_v(st, c, value);
            if c < st1.arena.len() {
                ResolveStV {
                    arena: st1.arena.update(
                        c as int,
                        ContextV {
                            idents: st1.arena[c as int].idents.push(name),
                            parent: st1.arena[c as int].parent,
                        },
                    ),
                    refs: st1.refs,
                    errors: st1.errors,
                }
            } else {
                st1
            }
        },
    }
}

/// The resolution pass over a statement list, in order.
pub open spec fn resolve_stmts_v(st: ResolveStV, c: nat, ss: Seq<StmtV>) -> ResolveStV
    decreases ss,
{
    if ss.len() == 0 {
        st
    } else {
        resolve_stmts_v(resolve_stmt_v(st, c, ss[0]), c, ss.drop_first())
    }
}

/// The resolution pass over a list of call arguments, in order.
pub open spec fn resolve_exprs_v(st: ResolveStV, c: nat, es: Seq<ExprV>) -> ResolveStV
    decreases es,
{
    if es.len() == 0 {
        st
    } else {
        resolve_exprs_v(resolve_expr_v(st, c, es[0]), c, es.drop_first())
    }
}

/// The resolution pass over a whole program: its statements stand in the
/// outermost scope, which has no parent. The reference description of the
/// resolver.
pub open spec fn resolve_program_v(prog: Seq<StmtV>) -> ResolveStV {
    let st0 = ResolveStV {
        arena: seq![ContextV { idents: Seq::empty(), parent: None }],
        refs: Seq::empty(),
        errors: Seq::empty(),
    };
    resolve_stmts_v(st0, 0, prog)
}

/// Resolves one expression from scope `c`, threading the pass's state in
/// textual order.
pub fn resolve_expression(res: &mut Resolution, c: usize, e: &Expression)
    requires
        arena_wf(old(res)@.arena),
        c < old(res)@.arena.len(),
    ensures
        final(res)@ == resolve_expr_v(old(res)@, c as nat, crate::ast::expr_view(e)),
        arena_wf(final(res)@.arena),
        old(res)@.arena.len() <= final(res)@.arena.len(),
    decreases e,
{
    let ghost st0 = res@;
    match e {
        Expression::Ident(s) => {
            match res.arena.find_named_ident(c, s) {
                Some(id) => {
                    res.refs.push(NameRef { name: s.clone(), target: Some(id) });
                },
                None => {
                    res.refs.push(NameRef { name: s.clone(), target: None });
                    res.errors.push(ResolutionError { name: s.clone() });
                },
            }
            proof {
                assert(res@ =~~= resolve_ident_v(st0, c as nat, s@));
            }
        },
        Expression::Int(_) => {},
        Expression::Boolean(_) => {},
        Expression::Unit => {},
        Expression::PrefixExpression { operator, right } => {
            resolve_expression(res, c, right);
        },
        Expression::InfixExpression { left, op, right } => {
            resolve_expression(res, c, left);
            resolve_expression(res, c, right);
        },
        Expression::CallExpression { lambda, parameters } => {
            resolve_expression(res, c, lambda);
            let ghost st1 = res@;
            let ghost pv = crate::ast::exprs_view(parameters@);
            let mut i: usize = 0;
            proof {
                crate::ast::lemma_exprs_view_index(parameters@);
                assert(pv.skip(0) =~= pv);
                assert(decreases_to!(e => parameters));
            }
            while i < parameters.len()
                invariant
                    decreases_to!(e => parameters),
                    i <= parameters@.len(),
                    pv == crate::ast::exprs_view(parameters@),
                    pv.len() == parameters@.len(),
                    arena_wf(res@.arena),
                    c < res@.arena.len(),
                    st1.arena.len() <= res@.arena.len(),
                    resolve_exprs_v(res@, c as nat, pv.skip(i as int)) == resolve_exprs_v(
                        st1,
                        c as nat,
                        pv,
                    ),
                decreases parameters@.len() - i,
            {
                proof {
                    crate::ast::lemma_exprs_view_index(parameters@);
                    assert(pv.skip(i as int)[0] == crate::ast::expr_view(&parameters@[i as int]));
                    assert(pv.skip(i as int).drop_first() =~= pv.skip(i as int + 1));
                    assert(decreases_to!(parameters@ => parameters@[i as int]));
                    assert(decreases_to!(e => parameters@[i as int]));
                }
                resolve_expression(res, c, &parameters[i]);
                i = i + 1;
            }
            proof {
                assert(pv.skip(parameters@.len() as int) =~= Seq::<ExprV>::empty());
            }
        },
        Expression::Function { params, body } => {
            let ghost pv = Seq::new(params@.len(), |k: int| params@[k as int]@);
            let c2 = res.arena.new_context(c);
            proof {
                assert(pv.take(0) =~= Seq::<Seq<char>>::empty());
                assert(res@.arena =~~= st0.arena.push(
                    ContextV { idents: pv.take(0), parent: Some(c as nat) },
                ));
            }
            let mut i: usize = 0;
            while i < params.len()
                invariant
                    i <= params@.len(),
                    pv == Seq::new(params@.len(), |k: int| params@[k as int]@),
                    pv.len() == params@.len(),
                    c < st0.arena.len(),
                    c2 == st0.arena.len(),
                    res@.arena =~~= st0.arena.push(
                        ContextV { idents: pv.take(i as int), parent: Some(c as nat) },
                    ),
                    res@.refs == st0.refs,
                    res@.errors == st0.errors,
                    arena_wf(res@.arena),
                decreases params@.len() - i,
            {
                let ghost before = res@.arena;
                let _handle = res.arena.register_named(c2, params[i].clone());
                proof {
                    assert(pv.take(i as int).push(pv[i as int]) =~= pv.take(i as int + 1));
                    assert(res@.arena =~~= st0.arena.push(
                        ContextV { idents: pv.take(i as int + 1), parent: Some(c as nat) },
                    ));
                }
                i = i + 1;
            }
            proof {
                assert(pv.take(params@.len() as int) =~= pv);
                assert(res@ =~~= ResolveStV {
                    arena: st0.arena.push(ContextV { idents: pv, parent: Some(c as nat) }),
                    refs: st0.refs,
                    errors: st0.errors,
                });
            }
            resolve_expression(res, c2, body);
        },
        Expression::BlockExpression(stmts) => {
            let ghost sv = crate::ast::stmts_view(stmts@);
            let c2 = res.arena.new_context(c);
            let ghost st1 = res@;
            proof {
                crate::ast::lemma_stmts_view_index(stmts@);
                assert(sv.skip(0) =~= sv);
                assert(st1 =~~= ResolveStV {
                    arena: st0.arena.push(ContextV { idents: Seq::empty(), parent: Some(c as nat) }),
                    refs: st0.refs,
                    errors: st0.errors,
                });
            }
            proof {
                assert(decreases_to!(e => stmts));
            }
            let mut i: usize = 0;
            while i < stmts.len()
                invariant
                    decreases_to!(e => stmts),
                    i <= stmts@.len(),
                    sv == crate::ast::stmts_view(stmts@),
                    sv.len() == stmts@.len(),
                    arena_wf(res@.arena),
                    c2 < st1.arena.len() <= res@.arena.len(),
                    resolve_stmts_v(res@, c2 as nat, sv.skip(i as int)) == resolve_stmts_v(
                        st1,
                        c2 as nat,
                        sv,
                    ),
                decreases stmts@.len() - i,
            {
                proof {
                    crate::ast::lemma_stmts_view_index(stmts@);
                    assert(sv.skip(i as int)[0] == crate::ast::stmt_view(&stmts@[i as int]));
                    assert(sv.skip(i as int).drop_first() =~= sv.skip(i as int + 1));
                    assert(decreases_to!(stmts@ => stmts@[i as int]));
                    assert(decreases_to!(e => stmts@[i as int]));
                }
                resolve_statement(res, c2, &stmts[i]);
                i = i + 1;
            }
            proof {
                assert(sv.skip(stmts@.len() as int) =~= Seq::<StmtV>::empty());
            }
        },
    }
}

/// Resolves one statement from scope `c`. A `let` resolves its value first
/// and only then registers the declared name in the innermost scope.
pub fn resolve_statement(res: &mut Resolution, c: usize, s: &Statement)
    requires
        arena_wf(old(res)@.arena),
        c < old(res)@.arena.len(),
    ensures
        final(res)@ == resolve_stmt_v(old(res)@, c as nat, crate::ast::stmt_view(s)),
        arena_wf(final(res)@.arena),
        old(res)@.arena.len() <= final(res)@.arena.len(),
    decreases s,
{
    match s {
        Statement::Expr(e) => {
            resolve_expression(res, c, e);
        },
        Statement::Return(e) => {
            resolve_expression(res, c, e);
        },
        Statement::Let { name, value } => {
            resolve_expression(res, c, value);
            let ghost st1 = res@;
            let _handle = res.arena.register_named(c, name.clone());
            proof {
                assert(res@ =~~= ResolveStV {
                    arena: st1.arena.update(
                        c as int,
                        ContextV {
                            idents: st1.arena[c as int].idents.push(name@),
                            parent: st1.arena[c as int].parent,
                        },
                    ),
                    refs: st1.refs,
                    errors: st1.errors,
                });
            }
        },
    }
}

/// Runs the resolution pass over a whole program: builds the scope tree,
/// resolves every identifier occurrence in textual order, and collects every
/// unresolved name. Unresolved names do not stop the pass.
pub fn resolve_program(prog: &Program) -> (r: Resolution)
    ensures
        r@ == resolve_program_v(crate::ast::stmts_view(prog.global@)),
        arena_wf(r@.arena),
{
    let mut res = Resolution { arena: ContextArena::new(), refs: Vec::new(), errors: Vec::new() };
    let ghost st0 = ResolveStV {
        arena: seq![ContextV { idents: Seq::empty(), parent: None }],
        refs: Seq::empty(),
        errors: Seq::empty(),
    };
    proof {
        assert(res@ =~~= st0);
    }
    let ghost sv = crate::ast::stmts_view(prog.global@);
    proof {
        crate::ast::lemma_stmts_view_index(prog.global@);
        assert(sv.skip(0) =~= sv);
    }
    let mut i: usize = 0;
    while i < prog.global.len()
        invariant
            i <= prog.global@.len(),
            sv == crate::ast::stmts_view(prog.global@),
            sv.len() == prog.global@.len(),
            arena_wf(res@.arena),
            0 < res@.arena.len(),
            resolve_stmts_v(res@, 0, sv.skip(i as int)) == resolve_stmts_v(st0, 0, sv),
        decreases prog.global@.len() - i,
    {
        proof {
            crate::ast::lemma_stmts_view_index(prog.global@);
            assert(sv.skip(i as int)[0] == crate::ast::stmt_view(&prog.global@[i as int]));
            assert(sv.skip(i as int).drop_first() =~= sv.skip(i as int + 1));
        }
        resolve_statement(&mut res, 0, &prog.global[i]);
        i = i + 1;
    }
    proof {
        assert(sv.skip(prog.global@.len() as int) =~= Seq::<StmtV>::empty());
    }
    res
}

} // verus!
