use vstd::prelude::*;

use inkwell::basic_block::BasicBlock;
use inkwell::builder::Builder;
use inkwell::context::Context;
use inkwell::module::Module;
use inkwell::values::{FloatValue, FunctionValue, IntValue, PhiValue};

use crate::ast::{Expr, ExprKind, IfVal};
use crate::backend::{
    append_basic_block, build_br, build_call, build_cond_br, build_fadd, build_fcmp_one,
    build_fcmp_ult, build_fmul, build_fsub, build_phi_double, build_ret, build_uitofp,
    builder_ready, call_of, clear_position, cmp_one_of, cmp_ult_of, const_float_from_text,
    create_builder, declare_float_function, float_add_of, float_is_const, float_mul_of,
    float_of_bool, float_sub_of, fn_blocks, fn_sig_ok, fn_verify, get_insert_block, nth_param,
    param_of, phi_add_two_incoming, phi_as_float, phi_float, phi_incoming, phi_is_double,
    position_at_end, remove_block, ret_emitted, set_param_name,
};
use crate::parser::anon_name;

verus! {

// ---------------------------------------------------------------------------
// The code generator's model: what it knows about the module it builds
// ---------------------------------------------------------------------------

/// What the registry records of one function: its parameter count and
/// whether it already has a body.
pub ghost struct FnInfo {
    pub arity: nat,
    pub defined: bool,
}

/// One registry entry: a function declared in the module.
pub struct FnEntry<'ctx> {
    pub name: String,
    pub func: FunctionValue<'ctx>,
    pub arity: usize,
    pub defined: bool,
}

/// The registry as a map from function name to its record; a later entry
/// for the same name wins.
pub open spec fn reg_map(s: Seq<FnEntry>) -> Map<Seq<char>, FnInfo>
    decreases s.len(),
{
    if s.len() == 0 {
        Map::empty()
    } else {
        reg_map(s.drop_last()).insert(
            s.last().name@,
            FnInfo { arity: s.last().arity as nat, defined: s.last().defined },
        )
    }
}

/// Registry lookup, later entries winning.
pub open spec fn reg_get(s: Seq<FnEntry>, n: Seq<char>) -> Option<FnEntry>
    decreases s.len(),
{
    if s.len() == 0 {
        None
    } else if s.last().name@ == n {
        Some(s.last())
    } else {
        reg_get(s.drop_last(), n)
    }
}

/// `reg_get` agrees with `reg_map`, and yields an entry of the list.
proof fn lemma_reg_get_map(s: Seq<FnEntry>, n: Seq<char>)
    ensures
        match reg_get(s, n) {
            Some(e) => reg_map(s).contains_key(n) && e.name@ == n && reg_map(s)[n] == (FnInfo {
                arity: e.arity as nat,
                defined: e.defined,
            }) && exists|i: int| 0 <= i < s.len() && s[i] == e,
            None => !reg_map(s).contains_key(n),
        },
    decreases s.len(),
{
    if s.len() > 0 {
        lemma_reg_get_map(s.drop_last(), n);
        if reg_get(s, n) is Some && s.last().name@ != n {
            let e = reg_get(s.drop_last(), n)->0;
            let i = choose|i: int| 0 <= i < s.drop_last().len() && s.drop_last()[i] == e;
            assert(s[i] == e);
        }
    }
}

/// The symbol table as a map from variable name to its value; a later
/// binding wins.
pub open spec fn vmap(s: Seq<(String, FloatValue)>) -> Map<Seq<char>, FloatValue>
    decreases s.len(),
{
    if s.len() == 0 {
        Map::empty()
    } else {
        vmap(s.drop_last()).insert(s.last().0@, s.last().1)
    }
}

/// Symbol lookup, later entries winning.
pub open spec fn vget(s: Seq<(String, FloatValue)>, n: Seq<char>) -> Option<FloatValue>
    decreases s.len(),
{
    if s.len() == 0 {
        None
    } else if s.last().0@ == n {
        Some(s.last().1)
    } else {
        vget(s.drop_last(), n)
    }
}

/// `vget` agrees with `vmap`.
proof fn lemma_vget_map(s: Seq<(String, FloatValue)>, n: Seq<char>)
    ensures
        vget(s, n) == (if vmap(s).contains_key(n) {
            Some(vmap(s)[n])
        } else {
            None::<FloatValue>
        }),
    decreases s.len(),
{
    if s.len() > 0 {
        lemma_vget_map(s.drop_last(), n);
    }
}

// ---------------------------------------------------------------------------
// When code generation succeeds: the structural conditions of the model
// ---------------------------------------------------------------------------

/// The size of an expression tree, for termination.
pub open spec fn esize(e: Expr) -> nat
    decreases e,
{
    match e.kind {
        ExprKind::Number(_) => 1,
        ExprKind::Variable { .. } => 1,
        ExprKind::Binary { operator: _, ref lhs, ref rhs } => 1 + esize(**lhs) + esize(**rhs),
        ExprKind::Call { callee: _, ref args } => 1 + ssize(args@),
        ExprKind::Prototype { .. } => 1,
        ExprKind::Function { ref prototype, ref body } => 1 + esize(**prototype) + esize(**body),
        ExprKind::If(ref v) => 1 + esize(*v.if_boolish_test) + esize(*v.then_branch) + esize(
            *v.elves,
        ),
    }
}

/// The total size of a sequence of expressions.
pub open spec fn ssize(s: Seq<Expr>) -> nat
    decreases s,
{
    if s.len() == 0 {
        0
    } else {
        ssize(s.drop_last()) + esize(s.last())
    }
}

/// An element never outweighs the sequence it belongs to.
pub proof fn lemma_ssize(s: Seq<Expr>)
    ensures
        forall|i: int| 0 <= i < s.len() ==> esize(s[i]) <= ssize(s),
    decreases s,
{
    if s.len() > 0 {
        lemma_ssize(s.drop_last());
        assert forall|i: int| 0 <= i < s.len() implies esize(s[i]) <= ssize(s) by {
            if i < s.len() - 1 {
                assert(s.drop_last()[i] == s[i]);
            }
        }
    }
}

/// The value an expression's lowering produced, under a symbol table:
/// a constant carrying the literal text for a number, the bound value for
/// a variable, and for every compound form the instruction facts of the
/// backend calls that built it, with each subvalue emitted from the
/// corresponding subexpression.
pub open spec fn emitted_expr(v: FloatValue, e: Expr, vars: Map<Seq<char>, FloatValue>) -> bool
    decreases esize(e), 1int,
{
    match e.kind {
        ExprKind::Number(ref s) => float_is_const(v, s@),
        ExprKind::Variable { ref name } => vars.contains_key(name@) && v == vars[name@],
        ExprKind::Binary { operator, ref lhs, ref rhs } => emitted_binary(
            v,
            operator,
            **lhs,
            **rhs,
            vars,
        ),
        ExprKind::Call { callee: _, ref args } => emitted_call(v, args@, vars),
        ExprKind::If(ref iv) => emitted_if(
            v,
            *iv.if_boolish_test,
            *iv.then_branch,
            *iv.elves,
            vars,
        ),
        _ => false,
    }
}

/// The value of a binary operation: the operator's own instruction,
/// applied to operands emitted from the two operand expressions.
pub open spec fn emitted_binary(
    v: FloatValue,
    op: char,
    lhs: Expr,
    rhs: Expr,
    vars: Map<Seq<char>, FloatValue>,
) -> bool
    decreases esize(lhs) + esize(rhs), 2int,
    via emitted_binary_decreases
{
    if op == '+' {
        exists|a: FloatValue, b: FloatValue|
            #![trigger float_add_of(v, a, b)]
            float_add_of(v, a, b) && emitted_expr(a, lhs, vars) && emitted_expr(b, rhs, vars)
    } else if op == '-' {
        exists|a: FloatValue, b: FloatValue|
            #![trigger float_sub_of(v, a, b)]
            float_sub_of(v, a, b) && emitted_expr(a, lhs, vars) && emitted_expr(b, rhs, vars)
    } else if op == '*' {
        exists|a: FloatValue, b: FloatValue|
            #![trigger float_mul_of(v, a, b)]
            float_mul_of(v, a, b) && emitted_expr(a, lhs, vars) && emitted_expr(b, rhs, vars)
    } else if op == '<' {
        exists|i: IntValue, a: FloatValue, b: FloatValue|
            #![trigger cmp_ult_of(i, a, b)]
            float_of_bool(v, i) && cmp_ult_of(i, a, b) && emitted_expr(a, lhs, vars)
                && emitted_expr(b, rhs, vars)
    } else {
        false
    }
}

#[via_fn]
proof fn emitted_binary_decreases(
    v: FloatValue,
    op: char,
    lhs: Expr,
    rhs: Expr,
    vars: Map<Seq<char>, FloatValue>,
) {
    assert(esize(lhs) >= 1);
    assert(esize(rhs) >= 1);
}

/// The value of a call: one call instruction to some function, handed
/// exactly one value per argument expression, in order, each emitted from
/// its expression.
pub open spec fn emitted_call(v: FloatValue, args: Seq<Expr>, vars: Map<Seq<char>, FloatValue>) -> bool
    decreases ssize(args), 2int,
    via emitted_call_decreases
{
    exists|f: FunctionValue, vs: Seq<FloatValue>|
        #[trigger] call_of(v, f, vs) && vs.len() == args.len() && (forall|i: int|
            0 <= i < args.len() ==> emitted_expr(#[trigger] vs[i], args[i], vars))
}

#[via_fn]
proof fn emitted_call_decreases(v: FloatValue, args: Seq<Expr>, vars: Map<Seq<char>, FloatValue>) {
    lemma_ssize(args);
}

/// The value of an if/then/else: the float view of a double-typed phi
/// whose two incoming values are emitted from the then and else branches,
/// each paired with its own predecessor block, after the value emitted
/// from the test expression was compared not-equal against the constant
/// written `0.0`.
pub open spec fn emitted_if(
    v: FloatValue,
    test: Expr,
    then_arm: Expr,
    else_arm: Expr,
    vars: Map<Seq<char>, FloatValue>,
) -> bool
    decreases esize(test) + esize(then_arm) + esize(else_arm), 2int,
    via emitted_if_decreases
{
    (exists|i: IntValue, c: FloatValue, z: FloatValue|
        #![trigger cmp_one_of(i, c, z)]
        cmp_one_of(i, c, z) && emitted_expr(c, test, vars) && float_is_const(
            z,
            seq!['0', '.', '0'],
        )) && (exists|
        p: PhiValue,
        tv: FloatValue,
        tb: BasicBlock,
        ev: FloatValue,
        eb: BasicBlock,
    |
        #![trigger phi_incoming(p, tv, tb, ev, eb)]
        phi_incoming(p, tv, tb, ev, eb) && phi_is_double(p) && phi_float(v, p) && emitted_expr(
            tv,
            then_arm,
            vars,
        ) && emitted_expr(ev, else_arm, vars))
}

#[via_fn]
proof fn emitted_if_decreases(
    v: FloatValue,
    test: Expr,
    then_arm: Expr,
    else_arm: Expr,
    vars: Map<Seq<char>, FloatValue>,
) {
    assert(esize(test) >= 1);
    assert(esize(then_arm) >= 1);
    assert(esize(else_arm) >= 1);
}

/// The symbol table a definition builds: the first `k` parameter names,
/// each bound to the function's parameter value at its index, later names
/// winning.
pub open spec fn params_map(f: FunctionValue, args: Seq<String>, k: int) -> Map<
    Seq<char>,
    FloatValue,
>
    decreases k,
{
    if k <= 0 {
        Map::empty()
    } else {
        params_map(f, args, k - 1).insert(args[k - 1]@, param_of(f, (k - 1) as nat))
    }
}

/// A body value emitted under a symbol table and handed to the builder's
/// return instruction.
pub open spec fn body_ret_ok(body: Expr, vars: Map<Seq<char>, FloatValue>, b: Builder) -> bool {
    exists|v: FloatValue| #[trigger] emitted_expr(v, body, vars) && ret_emitted(b, v)
}

/// The LLVM parameter count is 32 bits wide.
pub open spec fn arity_fits(n: nat) -> bool {
    n <= 0xffff_ffff
}

/// Whether generating code for an expression succeeds, given which
/// variables are in scope, which functions are registered with which
/// parameter count, whether a function is being generated, and whether
/// the builder has a position to emit instructions at.
pub open spec fn gen_ok(
    e: Expr,
    vars: Set<Seq<char>>,
    funcs: Map<Seq<char>, FnInfo>,
    in_fn: bool,
    ready: bool,
) -> bool
    decreases esize(e), 0int,
{
    match e.kind {
        ExprKind::Number(_) => true,
        ExprKind::Variable { ref name } => vars.contains(name@),
        ExprKind::Binary { operator, ref lhs, ref rhs } => ready && (operator == '+' || operator
            == '-' || operator == '*' || operator == '<') && gen_ok(**lhs, vars, funcs, in_fn, ready)
            && gen_ok(**rhs, vars, funcs, in_fn, ready),
        ExprKind::Call { ref callee, ref args } => ready && funcs.contains_key(callee@)
            && funcs[callee@].arity == args@.len() && all_gen_ok(args@, vars, funcs, in_fn, ready),
        ExprKind::If(ref v) => ready && in_fn && gen_ok(*v.if_boolish_test, vars, funcs, in_fn, ready)
            && gen_ok(*v.then_branch, vars, funcs, in_fn, ready) && gen_ok(
            *v.elves,
            vars,
            funcs,
            in_fn,
            ready,
        ),
        _ => false,
    }
}

/// Whether every expression of a sequence generates successfully.
pub open spec fn all_gen_ok(
    s: Seq<Expr>,
    vars: Set<Seq<char>>,
    funcs: Map<Seq<char>, FnInfo>,
    in_fn: bool,
    ready: bool,
) -> bool
    decreases ssize(s), 1int,
    via all_gen_ok_decreases
{
    if s.len() == 0 {
        true
    } else {
        all_gen_ok(s.drop_last(), vars, funcs, in_fn, ready) && gen_ok(
            s.last(),
            vars,
            funcs,
            in_fn,
            ready,
        )
    }
}

#[via_fn]
proof fn all_gen_ok_decreases(
    s: Seq<Expr>,
    vars: Set<Seq<char>>,
    funcs: Map<Seq<char>, FnInfo>,
    in_fn: bool,
    ready: bool,
) {
    if s.len() > 0 {
        assert(ssize(s) == ssize(s.drop_last()) + esize(s.last()));
        assert(esize(s.last()) >= 1);
    }
}

/// A prefix of successfully generated arguments.
pub proof fn lemma_all_gen_ok_index(
    s: Seq<Expr>,
    vars: Set<Seq<char>>,
    funcs: Map<Seq<char>, FnInfo>,
    in_fn: bool,
    ready: bool,
)
    requires
        all_gen_ok(s, vars, funcs, in_fn, ready),
    ensures
        forall|i: int| 0 <= i < s.len() ==> gen_ok(#[trigger] s[i], vars, funcs, in_fn, ready),
    decreases s.len(),
{
    if s.len() > 0 {
        lemma_all_gen_ok_index(s.drop_last(), vars, funcs, in_fn, ready);
        assert forall|i: int| 0 <= i < s.len() implies gen_ok(s[i], vars, funcs, in_fn, ready) by {
            if i < s.len() - 1 {
                assert(s.drop_last()[i] == s[i]);
            } else {
                assert(s[i] == s.last());
            }
        }
    }
}

/// The converse: pointwise success gives sequence success.
pub proof fn lemma_all_gen_ok_intro(
    s: Seq<Expr>,
    vars: Set<Seq<char>>,
    funcs: Map<Seq<char>, FnInfo>,
    in_fn: bool,
    ready: bool,
)
    requires
        forall|i: int| 0 <= i < s.len() ==> gen_ok(#[trigger] s[i], vars, funcs, in_fn, ready),
    ensures
        all_gen_ok(s, vars, funcs, in_fn, ready),
    decreases s.len(),
{
    if s.len() > 0 {
        assert forall|i: int|
            0 <= i < s.drop_last().len() implies gen_ok(
            #[trigger] s.drop_last()[i],
            vars,
            funcs,
            in_fn,
            ready,
        ) by {
            assert(s.drop_last()[i] == s[i]);
        }
        lemma_all_gen_ok_intro(s.drop_last(), vars, funcs, in_fn, ready);
        assert(s.last() == s[s.len() - 1]);
    }
}

/// The names of the first `k` formal parameters.
pub open spec fn params_dom(args: Seq<String>, k: int) -> Set<Seq<char>> {
    Set::new(|n: Seq<char>| exists|i: int| 0 <= i < k && i < args.len() && args[i]@ == n)
}


/// A prototype whose shape and registry state admit (re)definition: it is
/// a `Prototype` node, a name with a body may only be redefined when it is
/// the anonymous top-level name, and a fresh name's parameter count must
/// fit the backend.
pub open spec fn fn_guard_ok(proto: Expr, funcs: Map<Seq<char>, FnInfo>) -> bool {
    match proto.kind {
        ExprKind::Prototype { ref name, ref args } => (funcs.contains_key(name@) ==> (
        !funcs[name@].defined || name@ == anon_name())) && (!funcs.contains_key(
            name@,
        ) ==> arity_fits(args@.len() as nat)),
        _ => false,
    }
}

/// The parameter count a definition is generated with: the registered one
/// when the name is already declared, else the prototype's own.
pub open spec fn fn_arity_of(proto: Expr, funcs: Map<Seq<char>, FnInfo>) -> nat {
    match proto.kind {
        ExprKind::Prototype { ref name, ref args } => if funcs.contains_key(name@) {
            funcs[name@].arity
        } else {
            args@.len() as nat
        },
        _ => 0,
    }
}

/// The registry after the prototype of a definition has been resolved,
/// before its body is generated.
pub open spec fn fn_funcs_after(proto: Expr, funcs: Map<Seq<char>, FnInfo>) -> Map<
    Seq<char>,
    FnInfo,
> {
    match proto.kind {
        ExprKind::Prototype { ref name, ref args } => funcs.insert(
            name@,
            FnInfo { arity: fn_arity_of(proto, funcs), defined: false },
        ),
        _ => funcs,
    }
}

/// The registry after a definition attempt that got past the guard: on
/// success the name is recorded as defined; on failure a name that was
/// already declared stays a declaration, while a name this attempt
/// introduced is forgotten again, so a failed definition never pollutes
/// the registry.
pub open spec fn fn_funcs_final(proto: Expr, funcs: Map<Seq<char>, FnInfo>, success: bool) -> Map<
    Seq<char>,
    FnInfo,
> {
    match proto.kind {
        ExprKind::Prototype { ref name, ref args } => if success {
            funcs.insert(name@, FnInfo { arity: fn_arity_of(proto, funcs), defined: true })
        } else if funcs.contains_key(name@) {
            funcs.insert(name@, FnInfo { arity: fn_arity_of(proto, funcs), defined: false })
        } else {
            funcs
        },
        _ => funcs,
    }
}

/// The variables a definition's body sees: its formal parameter names, as
/// far as the resolved function has parameters for them.
pub open spec fn fn_body_vars(proto: Expr, funcs: Map<Seq<char>, FnInfo>) -> Set<Seq<char>> {
    match proto.kind {
        ExprKind::Prototype { ref name, ref args } => params_dom(
            args@,
            if fn_arity_of(proto, funcs) <= args@.len() {
                fn_arity_of(proto, funcs) as int
            } else {
                args@.len() as int
            },
        ),
        _ => Set::empty(),
    }
}

/// The symbol table a definition of this prototype builds over the
/// resolved function: each usable parameter name bound to the function's
/// parameter value at its index.
pub open spec fn fn_params_map(
    proto: Expr,
    funcs: Map<Seq<char>, FnInfo>,
    f: FunctionValue,
) -> Map<Seq<char>, FloatValue> {
    match proto.kind {
        ExprKind::Prototype { ref name, ref args } => params_map(
            f,
            args@,
            if fn_arity_of(proto, funcs) <= args@.len() {
                fn_arity_of(proto, funcs) as int
            } else {
                args@.len() as int
            },
        ),
        _ => Map::empty(),
    }
}

/// Everything a definition needs in order to succeed, short of the
/// backend's own acceptance of the finished function.
pub open spec fn fn_gen_precond(proto: Expr, body: Expr, funcs: Map<Seq<char>, FnInfo>) -> bool {
    fn_guard_ok(proto, funcs) && gen_ok(
        body,
        fn_body_vars(proto, funcs),
        fn_funcs_after(proto, funcs),
        true,
        true,
    )
}

/// A name that was given a body, other than the anonymous one, never
/// passes the definition guard again, whatever prototype carries it; the
/// registry is left as it was. This is the redefinition protection.
pub proof fn lemma_redefinition_guard(
    proto1: Expr,
    proto2: Expr,
    funcs: Map<Seq<char>, FnInfo>,
    name: Seq<char>,
)
    requires
        proto1.kind matches ExprKind::Prototype { name: ref n1, .. } && n1@ == name,
        proto2.kind matches ExprKind::Prototype { name: ref n2, .. } && n2@ == name,
        name != anon_name(),
    ensures
        !fn_guard_ok(proto2, fn_funcs_final(proto1, funcs, true)),
        !fn_gen_precond(proto2, proto2, fn_funcs_final(proto1, funcs, true)),
{
}

/// A value the unified entry point can yield: expressions lower to a
/// float value, prototypes and definitions to a function handle.
pub enum GenValue<'ctx> {
    Float(FloatValue<'ctx>),
    Func(FunctionValue<'ctx>),
}

/// Walks an abstract syntax tree and lowers it to LLVM IR through the
/// backend, keeping a per-function symbol table and a mirror of the
/// module's function registry.
pub struct CodeGen<'ctx> {
    pub context: &'ctx Context,
    pub builder: Builder<'ctx>,
    pub module: Module<'ctx>,
    pub current_function: Option<FunctionValue<'ctx>>,
    pub named_values: Vec<(String, FloatValue<'ctx>)>,
    pub registry: Vec<FnEntry<'ctx>>,
    pub orphans: Vec<FnEntry<'ctx>>,
    pub ready: bool,
    pub open_blocks: Vec<BasicBlock<'ctx>>,
}

impl<'ctx> CodeGen<'ctx> {
    /// The builder-position flag mirrors the builder, and every registered
    /// function has the signature its entry records.
    pub closed spec fn wf(&self) -> bool {
        &&& self.ready == builder_ready(self.builder)
        &&& forall|i: int|
            0 <= i < self.registry@.len() ==> fn_sig_ok(
                (#[trigger] self.registry@[i]).func,
                self.registry@[i].arity as nat,
            ) && arity_fits(self.registry@[i].arity as nat)
        &&& forall|i: int|
            0 <= i < self.orphans@.len() ==> fn_sig_ok(
                (#[trigger] self.orphans@[i]).func,
                self.orphans@[i].arity as nat,
            ) && arity_fits(self.orphans@[i].arity as nat)
    }

    /// Whether the builder is positioned somewhere to emit instructions.
    pub closed spec fn is_ready(&self) -> bool {
        self.ready
    }

    /// The function registry: name, parameter count, defined or not.
    pub closed spec fn funcs(&self) -> Map<Seq<char>, FnInfo> {
        reg_map(self.registry@)
    }

    /// The symbol table of the function being generated.
    pub closed spec fn vars(&self) -> Map<Seq<char>, FloatValue<'ctx>> {
        vmap(self.named_values@)
    }

    /// Whether a function is being generated.
    pub closed spec fn in_fn(&self) -> bool {
        self.current_function is Some
    }

    /// The model state an expression lowering leaves untouched.
    pub closed spec fn same_gen_state(&self, other: &CodeGen<'ctx>) -> bool {
        &&& self.registry == other.registry
        &&& self.funcs() == other.funcs()
        &&& self.vars() == other.vars()
        &&& self.current_function == other.current_function
        &&& self.is_ready() == other.is_ready()
        &&& self.context == other.context
    }

    pub fn new(context: &'ctx Context, module: Module<'ctx>) -> (r: CodeGen<'ctx>)
        ensures
            r.wf(),
            !r.is_ready(),
            r.funcs() == Map::<Seq<char>, FnInfo>::empty(),
            r.vars() == Map::<Seq<char>, FloatValue<'ctx>>::empty(),
            r.current_function is None,
            r.context == context,
    {
        let builder = create_builder(context);
        CodeGen {
            context,
            builder,
            module,
            current_function: None,
            named_values: Vec::new(),
            registry: Vec::new(),
            orphans: Vec::new(),
            ready: false,
            open_blocks: Vec::new(),
        }
    }

    /// A declaration left over from a failed definition of this name with
    /// this parameter count, if one was kept aside for reuse.
    fn orphan_find(&self, name: &String, arity: usize) -> (r: Option<FunctionValue<'ctx>>)
        requires
            self.wf(),
        ensures
            r matches Some(f) ==> fn_sig_ok(f, arity as nat) && arity_fits(arity as nat),
    {
        let mut i: usize = self.orphans.len();
        while i > 0
            invariant
                self.wf(),
                i <= self.orphans@.len(),
            decreases i,
        {
            i = i - 1;
            let e = &self.orphans[i];
            if e.name == *name && e.arity == arity {
                proof {
                    assert(fn_sig_ok(self.orphans@[i as int].func, self.orphans@[i as int].arity as nat));
                }
                return Some(e.func);
            }
        }
        None
    }

    /// The registry entry for a name, scanning later entries first.
    fn find_function(&self, name: &String) -> (r: Option<(FunctionValue<'ctx>, usize, bool)>)
        requires
            self.wf(),
        ensures
            r is Some <==> self.funcs().contains_key(name@),
            match r {
                Some((f, a, d)) => self.funcs()[name@] == (FnInfo { arity: a as nat, defined: d })
                    && fn_sig_ok(f, a as nat) && arity_fits(a as nat),
                None => true,
            },
    {
        proof {
            assert(self.registry@.take(self.registry@.len() as int) =~= self.registry@);
            lemma_reg_get_map(self.registry@, name@);
            if reg_get(self.registry@, name@) is Some {
                let e = reg_get(self.registry@, name@)->0;
                let i = choose|i: int| 0 <= i < self.registry@.len() && self.registry@[i] == e;
                assert(fn_sig_ok(self.registry@[i].func, self.registry@[i].arity as nat));
            }
        }
        reg_find(&self.registry, self.registry.len(), name)
    }
}

fn reg_find<'ctx>(v: &Vec<FnEntry<'ctx>>, i: usize, name: &String) -> (r: Option<
    (FunctionValue<'ctx>, usize, bool),
>)
    requires
        i <= v@.len(),
    ensures
        r == match reg_get(v@.take(i as int), name@) {
            Some(e) => Some((e.func, e.arity, e.defined)),
            None => None::<(FunctionValue<'ctx>, usize, bool)>,
        },
    decreases i,
{
    if i == 0 {
        None
    } else {
        proof {
            assert(v@.take(i as int).drop_last() =~= v@.take(i - 1));
            assert(v@.take(i as int).last() == v@[i - 1]);
        }
        let e = &v[i - 1];
        if e.name == *name {
            Some((e.func, e.arity, e.defined))
        } else {
            reg_find(v, i - 1, name)
        }
    }
}

fn var_find<'ctx>(v: &Vec<(String, FloatValue<'ctx>)>, i: usize, name: &String) -> (r: Option<
    FloatValue<'ctx>,
>)
    requires
        i <= v@.len(),
    ensures
        r == vget(v@.take(i as int), name@),
    decreases i,
{
    if i == 0 {
        None
    } else {
        proof {
            assert(v@.take(i as int).drop_last() =~= v@.take(i - 1));
            assert(v@.take(i as int).last() == v@[i - 1]);
        }
        let e = &v[i - 1];
        if e.0 == *name {
            Some(e.1)
        } else {
            var_find(v, i - 1, name)
        }
    }
}


impl<'ctx> CodeGen<'ctx> {
    /// A floating-point constant with the given literal text.
    pub fn codegen_number(&self, num: &str) -> (r: FloatValue<'ctx>)
        ensures
            float_is_const(r, num@),
    {
        const_float_from_text(self.context, num)
    }

    /// The value bound to a variable in the current symbol table.
    pub fn codegen_variable(&self, name: &str) -> (r: Option<FloatValue<'ctx>>)
        ensures
            r == (if self.vars().contains_key(name@) {
                Some(self.vars()[name@])
            } else {
                None::<FloatValue<'ctx>>
            }),
            r is Some <==> self.vars().dom().contains(name@),
    {
        proof {
            assert(self.named_values@.take(self.named_values@.len() as int)
                =~= self.named_values@);
            lemma_vget_map(self.named_values@, name@);
        }
        let key = name.to_owned();
        var_find(&self.named_values, self.named_values.len(), &key)
    }

    /// A binary operation: `+`, `-`, `*` lower to float arithmetic, `<` to
    /// an unsigned float comparison converted back to a float; any other
    /// operator yields no value.
    pub fn codegen_binary(&mut self, op: char, lhs: &Expr, rhs: &Expr) -> (r: Option<
        FloatValue<'ctx>,
    >)
        requires
            old(self).wf(),
        ensures
            final(self).wf(),
            final(self).same_gen_state(old(self)),
            r is Some <==> (old(self).is_ready() && (op == '+' || op == '-' || op == '*' || op
                == '<') && gen_ok(
                *lhs,
                old(self).vars().dom(),
                old(self).funcs(),
                old(self).in_fn(),
                old(self).is_ready(),
            ) && gen_ok(
                *rhs,
                old(self).vars().dom(),
                old(self).funcs(),
                old(self).in_fn(),
                old(self).is_ready(),
            )),
            r is Some ==> emitted_binary(r->0, op, *lhs, *rhs, old(self).vars()),
        decreases esize(*lhs) + esize(*rhs), 1int,
    {
        let ghost vars0 = old(self).vars();
        if !self.ready {
            return None;
        }
        let l = match self.codegen_expr(lhs) {
            Some(v) => v,
            None => {
                return None;
            },
        };
        let r = match self.codegen_expr(rhs) {
            Some(v) => v,
            None => {
                return None;
            },
        };
        proof {
            assert(emitted_expr(l, *lhs, vars0));
            assert(emitted_expr(r, *rhs, vars0));
        }
        if op == '+' {
            let v = build_fadd(&self.builder, l, r, "addtmp");
            proof {
                assert(emitted_binary(v, op, *lhs, *rhs, vars0)) by {
                    assert(float_add_of(v, l, r));
                }
            }
            Some(v)
        } else if op == '-' {
            let v = build_fsub(&self.builder, l, r, "subtmp");
            proof {
                assert(emitted_binary(v, op, *lhs, *rhs, vars0)) by {
                    assert(float_sub_of(v, l, r));
                }
            }
            Some(v)
        } else if op == '*' {
            let v = build_fmul(&self.builder, l, r, "multmp");
            proof {
                assert(emitted_binary(v, op, *lhs, *rhs, vars0)) by {
                    assert(float_mul_of(v, l, r));
                }
            }
            Some(v)
        } else if op == '<' {
            let cmp = build_fcmp_ult(&self.builder, l, r, "cmptmp");
            let v = build_uitofp(&self.builder, self.context, cmp, "booltmp");
            proof {
                assert(emitted_binary(v, op, *lhs, *rhs, vars0)) by {
                    assert(cmp_ult_of(cmp, l, r));
                    assert(float_of_bool(v, cmp));
                }
            }
            Some(v)
        } else {
            None
        }
    }

    /// A call: the callee must be registered with exactly as many
    /// parameters as there are arguments, and every argument must lower.
    pub fn codegen_call(&mut self, callee: &str, args: &Vec<Expr>) -> (r: Option<FloatValue<'ctx>>)
        requires
            old(self).wf(),
        ensures
            final(self).wf(),
            final(self).same_gen_state(old(self)),
            r is Some <==> (old(self).is_ready() && old(self).funcs().contains_key(callee@) && old(self).funcs()[callee@].arity == args@.len() && all_gen_ok(
                args@,
                old(self).vars().dom(),
                old(self).funcs(),
                old(self).in_fn(),
                old(self).is_ready(),
            )),
            r is Some ==> emitted_call(r->0, args@, old(self).vars()),
        decreases ssize(args@), 1int,
    {
        let ghost dom = old(self).vars().dom();
        let ghost vars0 = old(self).vars();
        let ghost funcs = old(self).funcs();
        let ghost infn = old(self).in_fn();
        let ghost rdy = old(self).is_ready();
        if !self.ready {
            return None;
        }
        let key = callee.to_owned();
        let (f, arity, _defined) = match self.find_function(&key) {
            Some(t) => t,
            None => {
                return None;
            },
        };
        if args.len() != arity {
            return None;
        }
        let mut compiled: Vec<FloatValue<'ctx>> = Vec::new();
        let mut i: usize = 0;
        proof {
            lemma_ssize(args@);
        }
        while i < args.len()
            invariant
                self.wf(),
                self.same_gen_state(old(self)),
                dom == old(self).vars().dom(),
                funcs == old(self).funcs(),
                infn == old(self).in_fn(),
                rdy == old(self).is_ready(),
                rdy,
                0 <= i <= args@.len(),
                compiled@.len() == i,
                vars0 == old(self).vars(),
                forall|j: int| 0 <= j < args@.len() ==> esize(#[trigger] args@[j]) <= ssize(args@),
                forall|j: int| 0 <= j < i ==> gen_ok(#[trigger] args@[j], dom, funcs, infn, rdy),
                forall|j: int|
                    0 <= j < i ==> emitted_expr(#[trigger] compiled@[j], args@[j], vars0),
            decreases args@.len() - i,
        {
            let c = match self.codegen_expr(&args[i]) {
                Some(c) => c,
                None => {
                    proof {
                        if all_gen_ok(args@, dom, funcs, infn, rdy) {
                            lemma_all_gen_ok_index(args@, dom, funcs, infn, rdy);
                        }
                    }
                    return None;
                },
            };
            compiled.push(c);
            i = i + 1;
        }
        proof {
            lemma_all_gen_ok_intro(args@, dom, funcs, infn, rdy);
        }
        let result = build_call(&self.builder, f, &compiled, "call_tmp");
        proof {
            assert(emitted_call(result, args@, vars0)) by {
                assert(call_of(result, f, compiled@));
            }
        }
        Some(result)
    }

    /// One expression lowered to a float value. Prototypes and definitions
    /// are not expressions and yield no value here.
    fn codegen_expr(&mut self, expr: &Expr) -> (r: Option<FloatValue<'ctx>>)
        requires
            old(self).wf(),
        ensures
            final(self).wf(),
            final(self).same_gen_state(old(self)),
            r is Some <==> gen_ok(
                *expr,
                old(self).vars().dom(),
                old(self).funcs(),
                old(self).in_fn(),
                old(self).is_ready(),
            ),
            r is Some ==> emitted_expr(r->0, *expr, old(self).vars()),
        decreases esize(*expr), 0int,
    {
        match &expr.kind {
            ExprKind::Number(s) => Some(self.codegen_number(s.as_str())),
            ExprKind::Variable { name } => self.codegen_variable(name.as_str()),
            ExprKind::Binary { operator, lhs, rhs } => self.codegen_binary(*operator, lhs, rhs),
            ExprKind::Call { callee, args } => self.codegen_call(callee.as_str(), args),
            ExprKind::If(v) => self.codegen_if(v),
            _ => None,
        }
    }

    /// An if/then/else, lowered to a conditional branch over three basic
    /// blocks whose arms meet in a merge ("phi") node.
    pub fn codegen_if(&mut self, if_val: &IfVal) -> (r: Option<FloatValue<'ctx>>)
        requires
            old(self).wf(),
        ensures
            final(self).wf(),
            final(self).same_gen_state(old(self)),
            r is Some <==> (old(self).is_ready() && old(self).in_fn() && gen_ok(
                *if_val.if_boolish_test,
                old(self).vars().dom(),
                old(self).funcs(),
                old(self).in_fn(),
                old(self).is_ready(),
            ) && gen_ok(
                *if_val.then_branch,
                old(self).vars().dom(),
                old(self).funcs(),
                old(self).in_fn(),
                old(self).is_ready(),
            ) && gen_ok(
                *if_val.elves,
                old(self).vars().dom(),
                old(self).funcs(),
                old(self).in_fn(),
                old(self).is_ready(),
            )),
            r is Some ==> emitted_if(
                r->0,
                *if_val.if_boolish_test,
                *if_val.then_branch,
                *if_val.elves,
                old(self).vars(),
            ),
        decreases esize(*if_val.if_boolish_test) + esize(*if_val.then_branch) + esize(
            *if_val.elves,
        ), 1int,
    {
        if !self.ready {
            return None;
        }
        let cond_ir = match self.codegen_expr(&if_val.if_boolish_test) {
            Some(c) => c,
            None => {
                return None;
            },
        };
        let current_function = match self.current_function {
            Some(f) => f,
            None => {
                return None;
            },
        };
        let then_block = append_basic_block(self.context, current_function, "then");
        let else_block = append_basic_block(self.context, current_function, "else");
        let cont_block = append_basic_block(self.context, current_function, "cont");
        self.open_blocks.push(then_block);
        self.open_blocks.push(else_block);
        self.open_blocks.push(cont_block);
        let zero = const_float_from_text(self.context, "0.0");
        let comparison = build_fcmp_one(&self.builder, cond_ir, zero, "comp");
        build_cond_br(&self.builder, comparison, then_block, else_block);
        position_at_end(&mut self.builder, then_block);
        let then_ir = match self.codegen_expr(&if_val.then_branch) {
            Some(v) => v,
            None => {
                return None;
            },
        };
        build_br(&self.builder, cont_block);
        let then_end = get_insert_block(&self.builder);
        position_at_end(&mut self.builder, else_block);
        let else_ir = match self.codegen_expr(&if_val.elves) {
            Some(v) => v,
            None => {
                return None;
            },
        };
        build_br(&self.builder, cont_block);
        let else_end = get_insert_block(&self.builder);
        position_at_end(&mut self.builder, cont_block);
        let phi = build_phi_double(&self.builder, self.context, "iftmp");
        let phi = phi_add_two_incoming(phi, then_ir, then_end, else_ir, else_end);
        let merged = phi_as_float(phi);
        proof {
            assert(phi_incoming(phi, then_ir, then_end, else_ir, else_end));
            assert(phi_is_double(phi));
            assert(phi_float(merged, phi));
            assert(emitted_expr(then_ir, *if_val.then_branch, old(self).vars()));
            assert(emitted_expr(else_ir, *if_val.elves, old(self).vars()));
            assert(emitted_expr(cond_ir, *if_val.if_boolish_test, old(self).vars()));
            assert(cmp_one_of(comparison, cond_ir, zero));
            assert(float_is_const(zero, seq!['0', '.', '0'])) by {
                reveal_strlit("0.0");
                assert("0.0"@ =~= seq!['0', '.', '0']);
            }
            assert(exists|
                p: PhiValue,
                tv: FloatValue,
                tb: BasicBlock,
                ev: FloatValue,
                eb: BasicBlock,
            |
                #![trigger phi_incoming(p, tv, tb, ev, eb)]
                phi_incoming(p, tv, tb, ev, eb) && phi_is_double(p) && phi_float(merged, p)
                    && emitted_expr(tv, *if_val.then_branch, old(self).vars()) && emitted_expr(
                    ev,
                    *if_val.elves,
                    old(self).vars(),
                ));
            reveal_with_fuel(emitted_if, 2);
            assert(emitted_if(
                merged,
                *if_val.if_boolish_test,
                *if_val.then_branch,
                *if_val.elves,
                old(self).vars(),
            ));
        }
        Some(merged)
    }
}


/// Appending a well-signed entry keeps every registry entry well signed.
proof fn lemma_reg_entries_wf(s: Seq<FnEntry>, e: FnEntry)
    requires
        forall|i: int|
            0 <= i < s.len() ==> fn_sig_ok((#[trigger] s[i]).func, s[i].arity as nat)
                && arity_fits(s[i].arity as nat),
        fn_sig_ok(e.func, e.arity as nat),
        arity_fits(e.arity as nat),
    ensures
        forall|i: int|
            0 <= i < s.push(e).len() ==> fn_sig_ok((#[trigger] s.push(e)[i]).func, s.push(
                e,
            )[i].arity as nat) && arity_fits(s.push(e)[i].arity as nat),
{
    assert forall|i: int|
        0 <= i < s.push(e).len() implies fn_sig_ok((#[trigger] s.push(e)[i]).func, s.push(
        e,
    )[i].arity as nat) && arity_fits(s.push(e)[i].arity as nat) by {
        if i < s.len() {
            assert(s.push(e)[i] == s[i]);
        } else {
            assert(s.push(e)[i] == e);
        }
    }
}

/// Growing the parameter-name scope one name at a time.
proof fn lemma_params_dom_step(a: Seq<String>, j: int)
    requires
        0 <= j < a.len(),
    ensures
        params_dom(a, j + 1) =~= params_dom(a, j).insert(a[j]@),
{
    assert forall|n: Seq<char>|
        params_dom(a, j + 1).contains(n) <==> params_dom(a, j).insert(a[j]@).contains(n) by {
        if params_dom(a, j + 1).contains(n) {
            let w = choose|w: int| 0 <= w < j + 1 && w < a.len() && a[w]@ == n;
            if w < j {
                assert(params_dom(a, j).contains(n));
            }
        }
        if params_dom(a, j).insert(a[j]@).contains(n) {
            if n == a[j]@ {
                assert(0 <= j < j + 1 && j < a.len() && a[j]@ == n);
            } else {
                let w = choose|w: int| 0 <= w < j && w < a.len() && a[w]@ == n;
                assert(0 <= w < j + 1 && w < a.len() && a[w]@ == n);
            }
        }
    }
}

impl<'ctx> CodeGen<'ctx> {
    /// Detaches every block grown during the current definition, leaving
    /// the function under construction as a plain declaration.
    fn remove_open_blocks(&self) {
        let mut i: usize = 0;
        while i < self.open_blocks.len()
            decreases self.open_blocks@.len() - i,
        {
            remove_block(self.open_blocks[i]);
            i = i + 1;
        }
    }

    /// Declares a function signature: `args.len()` float parameters and a
    /// float return, registered under `name`. Idempotent while the name
    /// only has a declaration; the parameter values are named after the
    /// formal parameters.
    pub fn codegen_prototype(&mut self, args: &Vec<String>, name: &str) -> (r: Option<
        FunctionValue<'ctx>,
    >)
        requires
            old(self).wf(),
        ensures
            final(self).wf(),
            final(self).vars() == old(self).vars(),
            final(self).current_function == old(self).current_function,
            final(self).is_ready() == old(self).is_ready(),
            final(self).context == old(self).context,
            r is Some <==> (old(self).funcs().contains_key(name@) || arity_fits(
                args@.len() as nat,
            )),
            old(self).funcs().contains_key(name@) ==> final(self).funcs() == old(self).funcs() && (
            r matches Some(f) ==> fn_sig_ok(f, old(self).funcs()[name@].arity)),
            !old(self).funcs().contains_key(name@) && arity_fits(args@.len() as nat) ==> final(self).funcs() == old(self).funcs().insert(
                name@,
                FnInfo { arity: args@.len() as nat, defined: false },
            ) && (r matches Some(f) && fn_sig_ok(f, args@.len() as nat)),
            !old(self).funcs().contains_key(name@) && !arity_fits(args@.len() as nat) ==> final(self).funcs() == old(self).funcs(),
    {
        let key = name.to_owned();
        match self.find_function(&key) {
            Some((f, _, _)) => {
                return Some(f);
            },
            None => {},
        }
        if args.len() as u64 > 0xffff_ffffu64 {
            return None;
        }
        let f = declare_float_function(&mut self.module, self.context, name, args.len());
        let mut i: usize = 0;
        while i < args.len()
            invariant
                i <= args@.len(),
                arity_fits(args@.len() as nat),
                fn_sig_ok(f, args@.len() as nat),
            decreases args@.len() - i,
        {
            let p = nth_param(f, i);
            set_param_name(&p, args[i].as_str());
            i = i + 1;
        }
        let ghost oldreg = self.registry@;
        self.registry.push(FnEntry { name: key, func: f, arity: args.len(), defined: false });
        proof {
            assert(self.registry@.drop_last() =~= oldreg);
            lemma_reg_entries_wf(oldreg, self.registry@.last());
            assert(self.registry@ =~= oldreg.push(self.registry@.last()));
        }
        Some(f)
    }

    /// Resolves or creates the function a definition names, generates its
    /// body into a fresh entry block, and finishes it with a return.
    ///
    /// A name that already has a body may not be redefined, except for the
    /// anonymous top-level name, whose old body is dropped first. On any
    /// failure after the guard the blocks grown for this definition are
    /// detached again, the builder's insertion point is cleared, and a
    /// name this attempt introduced is removed from the registry, so a
    /// failed definition never pollutes it. The fresh declaration such a
    /// failure leaves in the module is kept aside and reused when the
    /// name is defined again, so the module keeps one symbol per name.
    pub fn codegen_function(&mut self, prototype: &Expr, body: &Expr) -> (r: Option<
        FunctionValue<'ctx>,
    >)
        requires
            old(self).wf(),
        ensures
            final(self).wf(),
            final(self).context == old(self).context,
            !fn_guard_ok(*prototype, old(self).funcs()) ==> r is None && final(self).funcs() == old(self).funcs() && final(self).current_function == old(self).current_function && final(self).is_ready() == old(self).is_ready() && final(self).vars() == old(self).vars(),
            fn_guard_ok(*prototype, old(self).funcs()) ==> final(self).funcs() == fn_funcs_final(
                *prototype,
                old(self).funcs(),
                r is Some,
            ) && final(self).is_ready() == (r is Some),
            fn_guard_ok(*prototype, old(self).funcs()) ==> final(self).vars().dom()
                == fn_body_vars(*prototype, old(self).funcs()),
            r is Some ==> fn_gen_precond(*prototype, *body, old(self).funcs()) && final(self).current_function == Some(r->0),
            r is Some ==> final(self).vars() == fn_params_map(*prototype, old(self).funcs(), r->0),
            r is Some ==> body_ret_ok(
                *body,
                fn_params_map(*prototype, old(self).funcs(), r->0),
                final(self).builder,
            ),
            fn_guard_ok(*prototype, old(self).funcs()) && r is None ==> final(self).current_function is None,
            !fn_gen_precond(*prototype, *body, old(self).funcs()) ==> r is None,
        decreases esize(*prototype) + esize(*body), 1int,
    {
        let ghost funcs0 = old(self).funcs();
        let (fn_name, fn_args) = match &prototype.kind {
            ExprKind::Prototype { name, args } => (name, args),
            _ => {
                return None;
            },
        };
        proof {
            reveal_strlit("__anon");
            assert("__anon"@ =~= anon_name());
        }
        let anon = "__anon".to_owned();
        let is_anon = *fn_name == anon;
        let ghost reg0 = self.registry@;
        let the_fn: FunctionValue<'ctx>;
        let arity: usize;
        let was_declared: bool;
        match self.find_function(fn_name) {
            Some((f0, a0, d0)) => {
                if d0 && !is_anon {
                    return None;
                }
                if d0 {
                    // the anonymous function gets a fresh body: drop the old one
                    let blocks = fn_blocks(f0);
                    let mut i: usize = 0;
                    while i < blocks.len()
                        decreases blocks@.len() - i,
                    {
                        remove_block(blocks[i]);
                        i = i + 1;
                    }
                    let ghost oldreg = self.registry@;
                    self.registry.push(
                        FnEntry { name: fn_name.clone(), func: f0, arity: a0, defined: false },
                    );
                    proof {
                        assert(self.registry@.drop_last() =~= oldreg);
                        lemma_reg_entries_wf(oldreg, self.registry@.last());
                        assert(self.registry@ =~= oldreg.push(self.registry@.last()));
                    }
                }
                proof {
                    assert(self.funcs() =~= fn_funcs_after(*prototype, funcs0));
                }
                the_fn = f0;
                arity = a0;
                was_declared = true;
            },
            None => {
                let f = match self.orphan_find(fn_name, fn_args.len()) {
                    Some(leftover) => leftover,
                    None => {
                        if fn_args.len() as u64 > 0xffff_ffffu64 {
                            return None;
                        }
                        declare_float_function(
                            &mut self.module,
                            self.context,
                            fn_name.as_str(),
                            fn_args.len(),
                        )
                    },
                };
                let mut i: usize = 0;
                while i < fn_args.len()
                    invariant
                        i <= fn_args@.len(),
                        arity_fits(fn_args@.len() as nat),
                        fn_sig_ok(f, fn_args@.len() as nat),
                    decreases fn_args@.len() - i,
                {
                    let p = nth_param(f, i);
                    set_param_name(&p, fn_args[i].as_str());
                    i = i + 1;
                }
                let ghost oldreg = self.registry@;
                self.registry.push(
                    FnEntry {
                        name: fn_name.clone(),
                        func: f,
                        arity: fn_args.len(),
                        defined: false,
                    },
                );
                proof {
                    assert(self.registry@.drop_last() =~= oldreg);
                    lemma_reg_entries_wf(oldreg, self.registry@.last());
                    assert(self.registry@ =~= oldreg.push(self.registry@.last()));
                    assert(self.funcs() =~= fn_funcs_after(*prototype, funcs0));
                }
                the_fn = f;
                arity = fn_args.len();
                was_declared = false;
            },
        }
        let entry_block = append_basic_block(self.context, the_fn, "entry");
        self.open_blocks = Vec::new();
        self.open_blocks.push(entry_block);
        position_at_end(&mut self.builder, entry_block);
        self.ready = true;
        self.named_values = Vec::new();
        let k = if arity <= fn_args.len() {
            arity
        } else {
            fn_args.len()
        };
        let ghost reg1 = self.registry@;
        proof {
            assert(!was_declared ==> reg1.len() == reg0.len() + 1 && reg1.drop_last() =~= reg0);
        }
        let mut i: usize = 0;
        while i < k
            invariant
                self.wf(),
                self.ready,
                self.context == old(self).context,
                self.registry@ == reg1,
                i <= k,
                k <= fn_args@.len(),
                k <= arity,
                fn_sig_ok(the_fn, arity as nat),
                self.named_values@.len() == i,
                vmap(self.named_values@) == params_map(the_fn, fn_args@, i as int),
                vmap(self.named_values@).dom() =~= params_dom(fn_args@, i as int),
            decreases k - i,
        {
            let p = nth_param(the_fn, i);
            let ghost oldnv = self.named_values@;
            self.named_values.push((fn_args[i].clone(), p));
            proof {
                assert(self.named_values@.drop_last() =~= oldnv);
                lemma_params_dom_step(fn_args@, i as int);
            }
            i = i + 1;
        }
        proof {
            assert(vmap(self.named_values@).dom() =~= fn_body_vars(*prototype, funcs0));
            assert(vmap(self.named_values@) == fn_params_map(*prototype, funcs0, the_fn));
        }
        self.current_function = Some(the_fn);
        match self.codegen_expr(body) {
            Some(value) => {
                proof {
                    assert(emitted_expr(value, *body, fn_params_map(*prototype, funcs0, the_fn)));
                }
                build_ret(&mut self.builder, value);
                proof {
                    assert(body_ret_ok(
                        *body,
                        fn_params_map(*prototype, funcs0, the_fn),
                        self.builder,
                    )) by {
                        assert(ret_emitted(self.builder, value));
                    }
                }
                if fn_verify(the_fn) {
                    let ghost oldreg2 = self.registry@;
                    self.registry.push(
                        FnEntry {
                            name: fn_name.clone(),
                            func: the_fn,
                            arity,
                            defined: true,
                        },
                    );
                    proof {
                        assert(self.registry@.drop_last() =~= oldreg2);
                        lemma_reg_entries_wf(oldreg2, self.registry@.last());
                        assert(self.registry@ =~= oldreg2.push(self.registry@.last()));
                        assert(self.funcs() =~= fn_funcs_final(*prototype, funcs0, true));
                    }
                    Some(the_fn)
                } else {
                    self.current_function = None;
                    self.remove_open_blocks();
                    clear_position(&mut self.builder);
                    self.ready = false;
                    if !was_declared {
                        match self.registry.pop() {
                            Some(leftover) => {
                                let ghost oldorph = self.orphans@;
                                self.orphans.push(leftover);
                                proof {
                                    assert(self.orphans@.drop_last() =~= oldorph);
                                    lemma_reg_entries_wf(oldorph, self.orphans@.last());
                                    assert(self.orphans@ =~= oldorph.push(self.orphans@.last()));
                                }
                            },
                            None => {},
                        }
                        proof {
                            assert(self.registry@ =~= reg0);
                        }
                    }
                    proof {
                        assert(self.funcs() =~= fn_funcs_final(*prototype, funcs0, false));
                    }
                    None
                }
            },
            None => {
                self.current_function = None;
                self.remove_open_blocks();
                clear_position(&mut self.builder);
                self.ready = false;
                if !was_declared {
                    match self.registry.pop() {
                        Some(leftover) => {
                            let ghost oldorph = self.orphans@;
                            self.orphans.push(leftover);
                            proof {
                                assert(self.orphans@.drop_last() =~= oldorph);
                                lemma_reg_entries_wf(oldorph, self.orphans@.last());
                                assert(self.orphans@ =~= oldorph.push(self.orphans@.last()));
                            }
                        },
                        None => {},
                    }
                    proof {
                        assert(self.registry@ =~= reg0);
                    }
                }
                proof {
                    assert(self.funcs() =~= fn_funcs_final(*prototype, funcs0, false));
                }
                None
            },
        }
    }

    /// Lowers one node of any kind: expressions to a float value,
    /// prototypes and definitions to a function handle.
    pub fn codegen(&mut self, expr: &Expr) -> (r: Option<GenValue<'ctx>>)
        requires
            old(self).wf(),
        ensures
            final(self).wf(),
            !(expr.kind matches ExprKind::Prototype { .. }) && !(expr.kind
                matches ExprKind::Function { .. }) ==> final(self).same_gen_state(old(self)) && (r
                is Some <==> gen_ok(
                *expr,
                old(self).vars().dom(),
                old(self).funcs(),
                old(self).in_fn(),
                old(self).is_ready(),
            )) && (r matches Some(GenValue::Float(v)) ==> emitted_expr(
                v,
                *expr,
                old(self).vars(),
            )) && (r is Some ==> r->0 is Float),
            (match expr.kind {
                ExprKind::Prototype { ref name, ref args } => (r is Some <==> (old(self).funcs().contains_key(name@) || arity_fits(args@.len() as nat))) && (!old(self).funcs().contains_key(name@) && arity_fits(args@.len() as nat) ==> final(self).funcs() == old(self).funcs().insert(
                    name@,
                    FnInfo { arity: args@.len() as nat, defined: false },
                )) && (old(self).funcs().contains_key(name@) ==> final(self).funcs() == old(self).funcs()),
                ExprKind::Function { ref prototype, ref body } => (r is Some ==> fn_gen_precond(
                    **prototype,
                    **body,
                    old(self).funcs(),
                )) && (!fn_gen_precond(**prototype, **body, old(self).funcs()) ==> r is None) && (
                fn_guard_ok(**prototype, old(self).funcs()) ==> final(self).funcs()
                    == fn_funcs_final(**prototype, old(self).funcs(), r is Some)) && (!fn_guard_ok(
                    **prototype,
                    old(self).funcs(),
                ) ==> final(self).funcs() == old(self).funcs()),
                _ => true,
            }),
        decreases esize(*expr), 1int,
    {
        match &expr.kind {
            ExprKind::Number(s) => Some(GenValue::Float(self.codegen_number(s.as_str()))),
            ExprKind::Variable { name } => match self.codegen_variable(name.as_str()) {
                Some(v) => Some(GenValue::Float(v)),
                None => None,
            },
            ExprKind::Binary { operator, lhs, rhs } => match self.codegen_binary(
                *operator,
                lhs,
                rhs,
            ) {
                Some(v) => Some(GenValue::Float(v)),
                None => None,
            },
            ExprKind::Call { callee, args } => match self.codegen_call(callee.as_str(), args) {
                Some(v) => Some(GenValue::Float(v)),
                None => None,
            },
            ExprKind::Prototype { args, name } => match self.codegen_prototype(
                args,
                name.as_str(),
            ) {
                Some(f) => Some(GenValue::Func(f)),
                None => None,
            },
            ExprKind::Function { prototype, body } => match self.codegen_function(
                prototype,
                body,
            ) {
                Some(f) => Some(GenValue::Func(f)),
                None => None,
            },
            ExprKind::If(v) => match self.codegen_if(v) {
                Some(x) => Some(GenValue::Float(x)),
                None => None,
            },
        }
    }
}


} // verus!
