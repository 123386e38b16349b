//! What a compiled body reads and writes: laws of lowering.
use vstd::prelude::*;

use crate::captures::{
    captures_of, with_bound, with_capture, with_expr, with_exprs, with_statement, with_statements,
};
use crate::expand::{
    captured_parameters, captured_tensors, chain_of, domain_of, expanded, expanded_chain,
    inputs_of, kernel_scalars, lemma_domain_wf, mode_of, output_of, parameters_of, point_rank_of,
    scalar_map, scalars_of, scope_of, tensor_map, tensors_of, visible_parameters, ChainView,
    DomainView, Parameter, ScalarParameter, TensorParameter,
};
use crate::expr::{Capture, ExprView};
use crate::host::{chain_expression, is_host_local, HostStatement};
use crate::kernel::ElementKernelView;
use crate::lower::{
    is_intrinsic, is_sum, loop_locals, lowered, lowered_all, lowered_block, lowered_body,
    lowered_closure_body, lowered_for_each, lowered_for_loop, lowered_let, lowered_local,
    lowered_parts, lowered_result, lowered_statement, lowered_statements, lowered_step,
    lowered_sum, range_of, CapturedTensor, LocalInfo, Scope,
};
use crate::meaning::{
    all_within, body_within, declared_name, distinct, lemma_sum_is_unseen, lemma_texts_differ,
    lemma_within_prefix, statement_within, step_within,
};
use crate::names::{law_kinds_of_names_differ, local_text, loop_text, scalar_text};
use crate::source::{
    ExprKind, PatternKind, SourceArgument, SourceBlock, SourceClosure, SourceExpr, SourceFunction,
    SourceLocal, SourcePattern, SourceStatement,
};
use crate::statement::{Bound, DeviceBlockView, StatementView};
use crate::syntax::{
    bindings_of, bound_axes, bound_point, bound_values, pattern_ident, scalar_of, ClosureMode,
    IteratorSource, TensorType,
};
use crate::types::ScalarType;

verus! {

/// `for` on a range and `for_each` with a closure that has the same pattern and the same block
/// are the same loop.
pub proof fn law_for_each_is_for(
    pattern: SourcePattern,
    range: SourceExpr,
    body: SourceBlock,
    closure: SourceClosure,
    scope: Scope,
    locals: Map<Seq<char>, LocalInfo>,
)
    requires
        closure.inputs@ == seq![pattern],
        closure.body.kind == ExprKind::Block(body),
    ensures
        lowered_for_each(range, closure, scope, locals) == lowered_for_loop(
            pattern,
            range,
            body,
            scope,
            locals,
        ),
{
}

/// The names that a kernel has declared at some point of its body.
pub ghost struct Declared {
    pub inputs: nat,
    /// The rank of the reconstructed point.
    pub rank: Option<usize>,
    pub scalars: Set<Seq<char>>,
    /// The tensors that the body may capture.
    pub tensors: Seq<CapturedTensor>,
    /// The variables that declarations have declared.
    pub lets: Set<Seq<char>>,
    /// The counters of the loops around.
    pub counters: Set<Seq<char>>,
}

/// Whether an axis is one of the reconstructed point.
pub open spec fn axis_declared(axis: usize, declared: Declared) -> bool {
    declared.rank matches Some(rank) && axis < rank
}

/// Whether a capture names a tensor that the body may capture.
pub open spec fn known_capture(capture: Capture, declared: Declared) -> bool {
    capture.tensor < declared.tensors.len() && declared.tensors[capture.tensor as int].capture
        == capture
}

/// Whether an axis is one of a tensor that the body may capture.
pub open spec fn captured_axis_declared(
    capture: Capture,
    axis: usize,
    declared: Declared,
) -> bool {
    known_capture(capture, declared) && (declared.tensors[capture.tensor as int].rank matches Some(
        rank,
    ) && axis < rank)
}

/// Whether a bound is a literal or an axis that has been declared.
pub open spec fn closed_bound(bound: Bound, declared: Declared) -> bool {
    match bound {
        Bound::Literal(_) => true,
        Bound::ExtentAxis(axis) => axis_declared(axis, declared),
        Bound::CapturedAxis { capture, axis } => captured_axis_declared(capture, axis, declared),
    }
}

/// Whether the bounds of a loop are declared, and its counter can pass the end.
pub open spec fn closed_range(
    start: Bound,
    end: Bound,
    inclusive: bool,
    declared: Declared,
) -> bool {
    &&& closed_bound(start, declared)
    &&& closed_bound(end, declared)
    &&& inclusive ==> (end matches Bound::Literal(end) && end < u32::MAX)
}

/// Whether an expression reads only what has been declared, and calls only intrinsics. An element
/// of a captured tensor is read at one coordinate for each of its axes.
pub open spec fn closed_expr(value: ExprView, declared: Declared) -> bool
    decreases value,
{
    match value {
        ExprView::Input(index) => index < declared.inputs,
        ExprView::PointAxis(axis) => axis_declared(axis, declared),
        ExprView::ExtentAxis(axis) => axis_declared(axis, declared),
        ExprView::Captured { capture, coordinates } => {
            &&& known_capture(capture, declared)
            &&& declared.tensors[capture.tensor as int].rank matches Some(rank)
                && coordinates.len() == rank
            &&& closed_exprs(coordinates, declared)
        },
        ExprView::CapturedAxis { capture, axis } => captured_axis_declared(
            capture,
            axis,
            declared,
        ),
        ExprView::Scalar(name) => declared.scalars.contains(name),
        ExprView::Local(name) => declared.lets.contains(name) || declared.counters.contains(name),
        ExprView::Literal(_) => true,
        ExprView::Call { function, arguments } => is_intrinsic(function) && arguments.len() == 1
            && closed_exprs(arguments, declared),
        ExprView::Unary { value, .. } => closed_expr(*value, declared),
        ExprView::Binary { left, right, .. } => closed_expr(*left, declared) && closed_expr(
            *right,
            declared,
        ),
        ExprView::Cast { value, .. } => closed_expr(*value, declared),
        ExprView::Select { condition, when_true, when_false } => closed_expr(*condition, declared)
            && closed_expr(*when_true, declared) && closed_expr(*when_false, declared),
    }
}

/// Whether each of a sequence of expressions reads only what has been declared.
pub open spec fn closed_exprs(values: Seq<ExprView>, declared: Declared) -> bool
    decreases values,
{
    if values.len() == 0 {
        true
    } else {
        closed_exprs(values.drop_last(), declared) && closed_expr(values.last(), declared)
    }
}

/// What is declared after a statement.
pub open spec fn declared_after(statement: StatementView, declared: Declared) -> Declared {
    match statement {
        StatementView::Let { name, .. } => Declared {
            lets: declared.lets.insert(name),
            ..declared
        },
        StatementView::Sum { name, .. } => Declared {
            lets: declared.lets.insert(name),
            ..declared
        },
        _ => declared,
    }
}

/// What is declared after a sequence of statements.
pub open spec fn declared_after_all(statements: Seq<StatementView>, declared: Declared) -> Declared
    decreases statements.len(),
{
    if statements.len() == 0 {
        declared
    } else {
        declared_after(
            statements.last(),
            declared_after_all(statements.drop_last(), declared),
        )
    }
}

/// Whether a statement reads only what has been declared, writes only variables that
/// declarations have declared, and loops only over ranges whose end the counter can pass.
pub open spec fn closed_statement(statement: StatementView, declared: Declared) -> bool
    decreases statement, 0nat,
{
    match statement {
        StatementView::Let { value, .. } => closed_expr(value, declared),
        StatementView::Assign { name, value, .. } => declared.lets.contains(name) && closed_expr(
            value,
            declared,
        ),
        StatementView::ForRange { variable, start, end, inclusive, body } => {
            &&& closed_range(start, end, inclusive, declared)
            &&& closed_statements(
                body,
                Declared { counters: declared.counters.insert(variable), ..declared },
            )
        },
        StatementView::Sum { name, variable, start, end, inclusive, term, .. } => {
            &&& name != variable
            &&& closed_range(start, end, inclusive, declared)
            &&& closed_expr(
                term,
                Declared { counters: declared.counters.insert(variable), ..declared },
            )
        },
    }
}

/// Whether each of a sequence of statements is closed in what the statements before it declare.
pub open spec fn closed_statements(statements: Seq<StatementView>, declared: Declared) -> bool
    decreases statements, 0nat,
{
    if statements.len() == 0 {
        true
    } else {
        closed_statements(statements.drop_last(), declared) && closed_statement(
            statements.last(),
            declared_after_all(statements.drop_last(), declared),
        )
    }
}

/// Whether the variables in scope are declared in the kernel, those that can be assigned by
/// declarations.
pub open spec fn locals_declared(
    locals: Map<Seq<char>, LocalInfo>,
    declared: Declared,
) -> bool {
    forall|name: Seq<char>| #[trigger]
        locals.dom().contains(name) ==> if locals[name].looped {
            declared.counters.contains(loop_text(name)) && !locals[name].mutable
        } else {
            declared.lets.contains(local_text(name))
        }
}

/// Whether what the names outside the body stand for is declared in the kernel.
pub open spec fn scope_declared(scope: Scope, declared: Declared) -> bool {
    &&& scope.rank == declared.rank
    &&& forall|name: Seq<char>| #[trigger]
        scope.bindings.dom().contains(name) ==> scope.bindings[name] < declared.inputs
    &&& forall|name: Seq<char>| #[trigger]
        scope.point_axes.dom().contains(name) ==> axis_declared(scope.point_axes[name], declared)
    &&& forall|name: Seq<char>| #[trigger]
        scope.scalars.dom().contains(name) ==> declared.scalars.contains(scalar_text(name))
    &&& forall|name: Seq<char>| #[trigger]
        scope.tensors.dom().contains(name) ==> {
            let tensor = scope.tensors[name];
            &&& known_capture(tensor.capture, declared)
            &&& declared.tensors[tensor.capture.tensor as int] == tensor
        }
}

proof fn lemma_lowered_is_closed(
    expression: SourceExpr,
    scope: Scope,
    locals: Map<Seq<char>, LocalInfo>,
    declared: Declared,
)
    requires
        scope_declared(scope, declared),
        locals_declared(locals, declared),
    ensures
        lowered(expression, scope, locals) matches Ok(value) ==> closed_expr(value, declared),
    decreases expression,
{
    match expression.kind {
        ExprKind::Index { base, index } => {
            if let ExprKind::Tuple(elements) = index.kind {
                lemma_lowered_all_is_closed(elements@, scope, locals, declared);
            }
        },
        ExprKind::Call { function, arguments } => {
            lemma_lowered_all_is_closed(arguments@, scope, locals, declared);
        },
        ExprKind::Paren(inner) => lemma_lowered_is_closed(*inner, scope, locals, declared),
        ExprKind::Group(inner) => lemma_lowered_is_closed(*inner, scope, locals, declared),
        ExprKind::Unary { op, operand } => {
            lemma_lowered_is_closed(*operand, scope, locals, declared);
        },
        ExprKind::Binary { op, op_span, left, right } => {
            lemma_lowered_is_closed(*left, scope, locals, declared);
            lemma_lowered_is_closed(*right, scope, locals, declared);
        },
        ExprKind::Cast { operand, ty } => {
            lemma_lowered_is_closed(*operand, scope, locals, declared);
        },
        ExprKind::If { condition, then_branch, else_branch } => {
            if let Some(else_branch) = else_branch {
                lemma_lowered_is_closed(*condition, scope, locals, declared);
                lemma_lowered_block_is_closed(then_branch, scope, locals, declared);
                lemma_lowered_is_closed(*else_branch, scope, locals, declared);
            }
        },
        ExprKind::Block(block) => lemma_lowered_block_is_closed(block, scope, locals, declared),
        _ => {},
    }
}

proof fn lemma_lowered_block_is_closed(
    block: SourceBlock,
    scope: Scope,
    locals: Map<Seq<char>, LocalInfo>,
    declared: Declared,
)
    requires
        scope_declared(scope, declared),
        locals_declared(locals, declared),
    ensures
        lowered_block(block, scope, locals) matches Ok(value) ==> closed_expr(value, declared),
    decreases block,
{
    if block.statements@.len() == 1 {
        if let SourceStatement::Expr { expression, semicolon } = block.statements@[0] {
            lemma_lowered_is_closed(expression, scope, locals, declared);
        }
    }
}

proof fn lemma_lowered_all_is_closed(
    expressions: Seq<SourceExpr>,
    scope: Scope,
    locals: Map<Seq<char>, LocalInfo>,
    declared: Declared,
)
    requires
        scope_declared(scope, declared),
        locals_declared(locals, declared),
    ensures
        lowered_all(expressions, scope, locals) matches Ok(values) ==> closed_exprs(
            values,
            declared,
        ),
    decreases expressions,
{
    if expressions.len() > 0 {
        lemma_lowered_all_is_closed(expressions.drop_last(), scope, locals, declared);
        lemma_lowered_is_closed(expressions.last(), scope, locals, declared);
        if let Ok(values) = lowered_all(expressions, scope, locals) {
            let shorter = lowered_all(expressions.drop_last(), scope, locals)->Ok_0;
            assert(values.drop_last() =~= shorter);
        }
    }
}

/// The bounds of a range that was accepted are declared, and its counter can pass the end.
proof fn lemma_range_is_closed(
    expression: SourceExpr,
    scope: Scope,
    locals: Map<Seq<char>, LocalInfo>,
    declared: Declared,
)
    requires
        scope_declared(scope, declared),
    ensures
        range_of(expression, scope, locals) matches Ok(range) ==> closed_range(
            range.start,
            range.end,
            range.inclusive,
            declared,
        ),
{
}

proof fn lemma_sum_is_closed(
    receiver: SourceExpr,
    name: Seq<char>,
    ty: ScalarType,
    scope: Scope,
    locals: Map<Seq<char>, LocalInfo>,
    declared: Declared,
)
    requires
        forall|counter: Seq<char>| name != #[trigger] loop_text(counter),
        scope_declared(scope, declared),
        locals_declared(locals, declared),
    ensures
        lowered_sum(receiver, name, ty, scope, locals) matches Ok(statement) ==> closed_statement(
            statement,
            declared,
        ) && (statement is Sum && statement->Sum_name == name),
{
    if let ExprKind::MethodCall { receiver: range, method, arguments, .. } = receiver.kind {
        if arguments@.len() == 1 {
            if let ExprKind::Closure(closure) = arguments@[0].kind {
                if closure.inputs@.len() == 1 {
                    if let Ok(ident) = pattern_ident(&closure.inputs@[0]) {
                        let inner = Declared {
                            counters: declared.counters.insert(loop_text(ident.name@)),
                            ..declared
                        };
                        lemma_range_is_closed(*range, scope, locals, declared);
                        lemma_lowered_is_closed(
                            *closure.body,
                            scope,
                            loop_locals(ident.name@, locals),
                            inner,
                        );
                    }
                }
            }
        }
    }
}

proof fn lemma_let_is_closed(
    value: SourceExpr,
    name: Seq<char>,
    ty: ScalarType,
    scope: Scope,
    locals: Map<Seq<char>, LocalInfo>,
    declared: Declared,
)
    requires
        forall|counter: Seq<char>| name != #[trigger] loop_text(counter),
        scope_declared(scope, declared),
        locals_declared(locals, declared),
    ensures
        lowered_let(value, name, ty, scope, locals) matches Ok(statement) ==> closed_statement(
            statement,
            declared,
        ) && declared_after(statement, declared) == (Declared {
            lets: declared.lets.insert(name),
            ..declared
        }),
{
    if is_sum(value) {
        lemma_sum_is_closed(
            *value.kind->MethodCall_receiver,
            name,
            ty,
            scope,
            locals,
            declared,
        );
    } else {
        lemma_lowered_is_closed(value, scope, locals, declared);
    }
}

proof fn lemma_result_is_closed(
    expression: SourceExpr,
    scope: Scope,
    locals: Map<Seq<char>, LocalInfo>,
    declared: Declared,
)
    requires
        scope_declared(scope, declared),
        locals_declared(locals, declared),
    ensures
        lowered_result(expression, scope, locals) matches Ok((before, value)) ==> {
            let after = declared_after_all(before, declared);
            &&& before.len() <= 1
            &&& before.len() == 1 ==> closed_statement(before[0], declared) && after
                == declared_after(before[0], declared)
            &&& closed_statements(before, declared)
            &&& locals_declared(locals, after)
            &&& closed_expr(value, after)
        },
{
    if let Ok((before, value)) = lowered_result(expression, scope, locals) {
        if is_sum(expression) {
            assert forall|counter: Seq<char>| "__pm_sum"@ != #[trigger] loop_text(counter) by {
                lemma_sum_is_unseen(counter, LocalInfo { looped: true, mutable: false });
            }
            lemma_let_is_closed(expression, "__pm_sum"@, scope.output, scope, locals, declared);
            assert(before.drop_last() =~= Seq::<StatementView>::empty());
            assert(declared_after_all(before.drop_last(), declared) == declared);
            assert(closed_statements(before.drop_last(), declared));
        } else {
            lemma_lowered_is_closed(expression, scope, locals, declared);
        }
    }
}

proof fn lemma_local_is_closed(
    local: SourceLocal,
    scope: Scope,
    locals: Map<Seq<char>, LocalInfo>,
    declared: Declared,
)
    requires
        scope_declared(scope, declared),
        locals_declared(locals, declared),
    ensures
        lowered_local(local, scope, locals) matches Ok((statement, after)) ==> closed_statement(
            statement,
            declared,
        ) && locals_declared(after, declared_after(statement, declared)),
{
    if let Ok((statement, after)) = lowered_local(local, scope, locals) {
        let pattern = local.pattern.kind->Typed_pattern;
        let ident = pattern_ident(&*pattern)->Ok_0;
        let ty = scalar_of(local.pattern.kind->Typed_ty)->0;
        assert forall|counter: Seq<char>| local_text(ident.name@) != #[trigger] loop_text(
            counter,
        ) by {
            law_kinds_of_names_differ(counter, ident.name@, counter, counter);
        }
        lemma_let_is_closed(
            local.initializer->0.value,
            local_text(ident.name@),
            ty,
            scope,
            locals,
            declared,
        );
    }
}

proof fn lemma_statement_is_closed(
    expression: SourceExpr,
    scope: Scope,
    locals: Map<Seq<char>, LocalInfo>,
    declared: Declared,
)
    requires
        scope_declared(scope, declared),
        locals_declared(locals, declared),
    ensures
        lowered_statement(expression, scope, locals) matches Ok(statement) ==> closed_statement(
            statement,
            declared,
        ) && !(statement is Let || statement is Sum),
    decreases expression, 0nat,
{
    match expression.kind {
        ExprKind::Assign { left, right } => {
            lemma_lowered_is_closed(*right, scope, locals, declared);
        },
        ExprKind::Binary { left, right, .. } => {
            lemma_lowered_is_closed(*right, scope, locals, declared);
        },
        ExprKind::ForLoop { pattern, range, body } => {
            lemma_for_loop_is_closed(pattern, *range, body, scope, locals, declared);
        },
        ExprKind::MethodCall { receiver, method, arguments, .. } => {
            if arguments@.len() == 1 {
                if let ExprKind::Closure(closure) = arguments@[0].kind {
                    lemma_for_each_is_closed(*receiver, closure, scope, locals, declared);
                }
            }
        },
        _ => {},
    }
}

proof fn lemma_for_loop_is_closed(
    pattern: SourcePattern,
    range: SourceExpr,
    body: SourceBlock,
    scope: Scope,
    locals: Map<Seq<char>, LocalInfo>,
    declared: Declared,
)
    requires
        scope_declared(scope, declared),
        locals_declared(locals, declared),
    ensures
        lowered_for_loop(pattern, range, body, scope, locals) matches Ok(statement)
            ==> closed_statement(statement, declared) && !(statement is Let || statement is Sum),
    decreases body, 0nat,
{
    if let Ok(ident) = pattern_ident(&pattern) {
        let inner = Declared {
            counters: declared.counters.insert(loop_text(ident.name@)),
            ..declared
        };
        lemma_range_is_closed(range, scope, locals, declared);
        lemma_statements_are_closed(
            body.statements@,
            scope,
            loop_locals(ident.name@, locals),
            inner,
        );
    }
}

proof fn lemma_for_each_is_closed(
    receiver: SourceExpr,
    closure: SourceClosure,
    scope: Scope,
    locals: Map<Seq<char>, LocalInfo>,
    declared: Declared,
)
    requires
        scope_declared(scope, declared),
        locals_declared(locals, declared),
    ensures
        lowered_for_each(receiver, closure, scope, locals) matches Ok(statement)
            ==> closed_statement(statement, declared) && !(statement is Let || statement is Sum),
    decreases closure, 0nat,
{
    if closure.inputs@.len() == 1 {
        if let Ok(ident) = pattern_ident(&closure.inputs@[0]) {
            let inner = Declared {
                counters: declared.counters.insert(loop_text(ident.name@)),
                ..declared
            };
            let inner_locals = loop_locals(ident.name@, locals);
            lemma_range_is_closed(receiver, scope, locals, declared);
            lemma_closure_body_is_closed(*closure.body, scope, inner_locals, inner);
        }
    }
}

proof fn lemma_closure_body_is_closed(
    body: SourceExpr,
    scope: Scope,
    locals: Map<Seq<char>, LocalInfo>,
    declared: Declared,
)
    requires
        scope_declared(scope, declared),
        locals_declared(locals, declared),
    ensures
        lowered_closure_body(body, scope, locals) matches Ok((statements, _)) ==> closed_statements(
            statements,
            declared,
        ),
    decreases body, 1nat,
{
    match body.kind {
        ExprKind::Block(block) => {
            lemma_statements_are_closed(block.statements@, scope, locals, declared);
        },
        _ => {
            lemma_statement_is_closed(body, scope, locals, declared);
            if let Ok(statement) = lowered_statement(body, scope, locals) {
                let statements = seq![statement];
                assert(statements.drop_last() =~= Seq::<StatementView>::empty());
                assert(closed_statements(statements.drop_last(), declared));
                assert(declared_after_all(statements.drop_last(), declared) == declared);
                assert(statements.last() == statement);
                assert(closed_statements(statements, declared));
            }
        },
    }
}

proof fn lemma_step_is_closed(
    statement: SourceStatement,
    scope: Scope,
    locals: Map<Seq<char>, LocalInfo>,
    declared: Declared,
)
    requires
        scope_declared(scope, declared),
        locals_declared(locals, declared),
    ensures
        lowered_step(statement, scope, locals) matches Ok((statement, after)) ==> closed_statement(
            statement,
            declared,
        ) && locals_declared(after, declared_after(statement, declared)),
    decreases statement, 0nat,
{
    match statement {
        SourceStatement::Local(local) => lemma_local_is_closed(local, scope, locals, declared),
        SourceStatement::Expr { expression, .. } => {
            lemma_statement_is_closed(expression, scope, locals, declared);
        },
        _ => {},
    }
}

/// Declarations add to what is declared, and change nothing else.
proof fn lemma_declared_after_all(statements: Seq<StatementView>, declared: Declared)
    ensures
        ({
            let after = declared_after_all(statements, declared);
            &&& after.inputs == declared.inputs
            &&& after.rank == declared.rank
            &&& after.scalars == declared.scalars
            &&& after.tensors == declared.tensors
            &&& after.counters == declared.counters
        }),
    decreases statements.len(),
{
    if statements.len() > 0 {
        lemma_declared_after_all(statements.drop_last(), declared);
    }
}

proof fn lemma_statements_are_closed(
    statements: Seq<SourceStatement>,
    scope: Scope,
    locals: Map<Seq<char>, LocalInfo>,
    declared: Declared,
)
    requires
        scope_declared(scope, declared),
        locals_declared(locals, declared),
    ensures
        lowered_statements(statements, scope, locals) matches Ok((lowered, after))
            ==> closed_statements(lowered, declared) && locals_declared(
            after,
            declared_after_all(lowered, declared),
        ),
    decreases statements, 0nat,
{
    if statements.len() > 0 {
        lemma_statements_are_closed(statements.drop_last(), scope, locals, declared);
        if let Ok((done, between)) = lowered_statements(statements.drop_last(), scope, locals) {
            let middle = declared_after_all(done, declared);
            lemma_declared_after_all(done, declared);
            lemma_step_is_closed(statements.last(), scope, between, middle);
            if let Ok((statement, after)) = lowered_step(statements.last(), scope, between) {
                let lowered = done.push(statement);
                assert(lowered.drop_last() =~= done);
                assert(lowered.last() == statement);
            }
        }
    }
}

proof fn lemma_parts_are_closed(
    statements: Seq<SourceStatement>,
    count: nat,
    scope: Scope,
    locals: Map<Seq<char>, LocalInfo>,
    declared: Declared,
)
    requires
        count <= statements.len(),
        scope_declared(scope, declared),
        locals_declared(locals, declared),
    ensures
        lowered_parts(statements, count, scope, locals) matches Ok(parts) ==> {
            let after = declared_after_all(parts.statements, declared);
            &&& closed_statements(parts.statements, declared)
            &&& locals_declared(parts.locals, after)
            &&& count < statements.len() ==> parts.result is None
            &&& parts.result matches Some(result) ==> closed_expr(result, after)
        },
    decreases count,
{
    if count > 0 {
        lemma_parts_are_closed(statements, (count - 1) as nat, scope, locals, declared);
        if let Ok(parts) = lowered_parts(statements, (count - 1) as nat, scope, locals) {
            let middle = declared_after_all(parts.statements, declared);
            lemma_declared_after_all(parts.statements, declared);
            match statements[count - 1] {
                SourceStatement::Local(local) => {
                    lemma_local_is_closed(local, scope, parts.locals, middle);
                    if let Ok((statement, after)) = lowered_local(local, scope, parts.locals) {
                        assert(parts.statements.push(statement).drop_last() =~= parts.statements);
                    }
                },
                SourceStatement::Expr { expression, semicolon } => {
                    lemma_result_is_closed(expression, scope, parts.locals, middle);
                    if let Ok((before, value)) = lowered_result(expression, scope, parts.locals) {
                        if before.len() == 1 {
                            assert((parts.statements + before).drop_last() =~= parts.statements);
                        } else {
                            assert(parts.statements + before =~= parts.statements);
                        }
                    }
                    lemma_statement_is_closed(expression, scope, parts.locals, middle);
                    if let Ok(statement) = lowered_statement(expression, scope, parts.locals) {
                        assert(parts.statements.push(statement).drop_last() =~= parts.statements);
                    }
                },
                _ => {},
            }
        }
    }
}

/// What a kernel declares before its body.
pub open spec fn kernel_declared(
    kernel: ElementKernelView,
    tensors: Seq<CapturedTensor>,
) -> Declared {
    Declared {
        inputs: kernel.inputs.len(),
        rank: kernel.logical_rank,
        scalars: Set::new(
            |name: Seq<char>|
                exists|i: int|
                    0 <= i < kernel.scalars.len() && (#[trigger] kernel.scalars[i]).name == name,
        ),
        tensors,
        lets: Set::empty(),
        counters: Set::empty(),
    }
}

/// Whether the body of a kernel reads only what the kernel declares and some tensors, and writes
/// only variables of its own.
pub open spec fn closed_kernel(kernel: ElementKernelView, tensors: Seq<CapturedTensor>) -> bool {
    let declared = kernel_declared(kernel, tensors);
    &&& closed_statements(kernel.body.statements, declared)
    &&& closed_expr(
        kernel.body.result,
        declared_after_all(kernel.body.statements, declared),
    )
}

proof fn lemma_body_is_closed(expression: SourceExpr, scope: Scope, declared: Declared)
    requires
        scope_declared(scope, declared),
    ensures
        lowered_body(expression, scope) matches Ok(body) ==> closed_statements(
            body.statements,
            declared,
        ) && closed_expr(body.result, declared_after_all(body.statements, declared)),
{
    let locals = Map::<Seq<char>, LocalInfo>::empty();
    match expression.kind {
        ExprKind::Block(block) => {
            lemma_parts_are_closed(
                block.statements@,
                block.statements@.len(),
                scope,
                locals,
                declared,
            );
        },
        _ => lemma_result_is_closed(expression, scope, locals, declared),
    }
}

/// Whether each of a list of captures is known.
pub open spec fn known_captures(captures: Seq<Capture>, declared: Declared) -> bool {
    forall|i: int| 0 <= i < captures.len() ==> known_capture(#[trigger] captures[i], declared)
}

proof fn lemma_expr_captures(found: Seq<Capture>, value: ExprView, declared: Declared)
    requires
        known_captures(found, declared),
        closed_expr(value, declared),
    ensures
        known_captures(with_expr(found, value), declared),
    decreases value,
{
    match value {
        ExprView::Captured { capture, coordinates } => {
            lemma_exprs_captures(with_capture(found, capture), coordinates, declared);
        },
        ExprView::Call { arguments, .. } => lemma_exprs_captures(found, arguments, declared),
        ExprView::Unary { value, .. } => lemma_expr_captures(found, *value, declared),
        ExprView::Binary { left, right, .. } => {
            lemma_expr_captures(found, *left, declared);
            lemma_expr_captures(with_expr(found, *left), *right, declared);
        },
        ExprView::Cast { value, .. } => lemma_expr_captures(found, *value, declared),
        ExprView::Select { condition, when_true, when_false } => {
            let first = with_expr(found, *condition);
            lemma_expr_captures(found, *condition, declared);
            lemma_expr_captures(first, *when_true, declared);
            lemma_expr_captures(with_expr(first, *when_true), *when_false, declared);
        },
        _ => {},
    }
}

proof fn lemma_exprs_captures(found: Seq<Capture>, values: Seq<ExprView>, declared: Declared)
    requires
        known_captures(found, declared),
        closed_exprs(values, declared),
    ensures
        known_captures(with_exprs(found, values), declared),
    decreases values,
{
    if values.len() > 0 {
        lemma_exprs_captures(found, values.drop_last(), declared);
        lemma_expr_captures(with_exprs(found, values.drop_last()), values.last(), declared);
    }
}

proof fn lemma_range_captures(
    found: Seq<Capture>,
    start: Bound,
    end: Bound,
    inclusive: bool,
    declared: Declared,
)
    requires
        known_captures(found, declared),
        closed_range(start, end, inclusive, declared),
    ensures
        known_captures(with_bound(with_bound(found, start), end), declared),
{
    assert(known_captures(with_bound(found, start), declared));
}

/// What tensors are known does not depend on the variables.
proof fn lemma_known_anywhere(captures: Seq<Capture>, here: Declared, there: Declared)
    requires
        known_captures(captures, here),
        here.tensors == there.tensors,
    ensures
        known_captures(captures, there),
{
    assert forall|i: int| 0 <= i < captures.len() implies known_capture(
        #[trigger] captures[i],
        there,
    ) by {
        assert(known_capture(captures[i], here));
    }
}

proof fn lemma_statement_captures(
    found: Seq<Capture>,
    statement: StatementView,
    declared: Declared,
)
    requires
        known_captures(found, declared),
        closed_statement(statement, declared),
    ensures
        known_captures(with_statement(found, statement), declared),
    decreases statement, 0nat,
{
    match statement {
        StatementView::Let { value, .. } => lemma_expr_captures(found, value, declared),
        StatementView::Assign { value, .. } => lemma_expr_captures(found, value, declared),
        StatementView::ForRange { variable, start, end, inclusive, body } => {
            let inner = Declared { counters: declared.counters.insert(variable), ..declared };
            let bounds = with_bound(with_bound(found, start), end);
            lemma_range_captures(found, start, end, inclusive, declared);
            lemma_known_anywhere(bounds, declared, inner);
            lemma_statements_captures(bounds, body, inner);
            lemma_known_anywhere(with_statements(bounds, body), inner, declared);
        },
        StatementView::Sum { variable, start, end, inclusive, term, .. } => {
            let inner = Declared { counters: declared.counters.insert(variable), ..declared };
            let bounds = with_bound(with_bound(found, start), end);
            lemma_range_captures(found, start, end, inclusive, declared);
            lemma_known_anywhere(bounds, declared, inner);
            lemma_expr_captures(bounds, term, inner);
            lemma_known_anywhere(with_expr(bounds, term), inner, declared);
        },
    }
}

proof fn lemma_statements_captures(
    found: Seq<Capture>,
    statements: Seq<StatementView>,
    declared: Declared,
)
    requires
        known_captures(found, declared),
        closed_statements(statements, declared),
    ensures
        known_captures(with_statements(found, statements), declared),
    decreases statements, 0nat,
{
    if statements.len() > 0 {
        let before = statements.drop_last();
        let middle = declared_after_all(before, declared);
        lemma_statements_captures(found, before, declared);
        lemma_declared_after_all(before, declared);
        lemma_known_anywhere(with_statements(found, before), declared, middle);
        lemma_statement_captures(with_statements(found, before), statements.last(), middle);
        lemma_known_anywhere(with_statements(found, statements), middle, declared);
    }
}

/// A body that is closed captures only known tensors.
proof fn lemma_body_captures(body: DeviceBlockView, declared: Declared)
    requires
        closed_statements(body.statements, declared),
        closed_expr(body.result, declared_after_all(body.statements, declared)),
    ensures
        known_captures(captures_of(body), declared),
{
    let after = declared_after_all(body.statements, declared);
    let found = with_statements(Seq::empty(), body.statements);
    lemma_statements_captures(Seq::empty(), body.statements, declared);
    lemma_declared_after_all(body.statements, declared);
    lemma_known_anywhere(found, declared, after);
    lemma_expr_captures(found, body.result, after);
    lemma_known_anywhere(captures_of(body), after, declared);
}

proof fn lemma_bound_values(patterns: Seq<SourcePattern>, count: nat, name: Seq<char>)
    requires
        count <= usize::MAX,
    ensures
        bound_values(patterns, count) matches Ok(values) ==> (values.dom().contains(name)
            ==> values[name] < count),
    decreases count,
{
    if count > 0 {
        lemma_bound_values(patterns, (count - 1) as nat, name);
    }
}

proof fn lemma_bound_axes(patterns: Seq<SourcePattern>, count: nat, name: Seq<char>)
    requires
        count <= usize::MAX,
    ensures
        bound_axes(patterns, count) matches Ok(axes) ==> (axes.dom().contains(name) ==> axes[name]
            < count),
    decreases count,
{
    if count > 0 {
        lemma_bound_axes(patterns, (count - 1) as nat, name);
    }
}

proof fn lemma_bound_point(pattern: SourcePattern, rank: usize, name: Seq<char>)
    ensures
        bound_point(pattern, rank) matches Ok((_, axes)) ==> (axes.dom().contains(name)
            ==> axes[name] < rank),
{
    if let PatternKind::Tuple(patterns) = pattern.kind {
        if patterns@.len() == rank {
            lemma_bound_axes(patterns@, patterns@.len(), name);
        }
    }
}

/// What a closure binds are inputs that it is given and axes of the point that it is given.
proof fn lemma_bindings(closure: SourceClosure, mode: ClosureMode, rank: Option<usize>)
    requires
        mode is Values || rank is Some,
    ensures
        bindings_of(closure, mode, rank) matches Ok(bindings) ==> {
            &&& forall|name: Seq<char>| #[trigger]
                bindings.values.dom().contains(name) ==> bindings.values[name] < match mode {
                    ClosureMode::Values(count) => count,
                    _ => 1,
                }
            &&& forall|name: Seq<char>| #[trigger]
                bindings.point_axes.dom().contains(name) ==> (rank matches Some(rank)
                    && bindings.point_axes[name] < rank)
        },
{
    if let Ok(bindings) = bindings_of(closure, mode, rank) {
        let pattern = closure.inputs@[0];
        assert forall|name: Seq<char>| #[trigger] bindings.values.dom().contains(name) implies
            bindings.values[name] < match mode {
            ClosureMode::Values(count) => count,
            _ => 1,
        } by {
            if let PatternKind::Tuple(patterns) = pattern.kind {
                if let ClosureMode::Values(count) = mode {
                    if patterns@.len() == count {
                        lemma_bound_values(patterns@, patterns@.len(), name);
                    }
                }
            }
        }
        assert forall|name: Seq<char>| #[trigger]
            bindings.point_axes.dom().contains(name) implies (rank matches Some(rank)
            && bindings.point_axes[name] < rank) by {
            match mode {
                ClosureMode::Values(_) => {},
                ClosureMode::Indexed => {
                    if let PatternKind::Tuple(patterns) = pattern.kind {
                        lemma_bound_point(patterns@[0], rank->0, name);
                    }
                },
                ClosureMode::Points => lemma_bound_point(pattern, rank->0, name),
            }
        }
    }
}

proof fn lemma_scalar_declared<'a>(scalars: Seq<ScalarParameter<'a>>, name: Seq<char>)
    requires
        scalar_map(scalars).dom().contains(name),
    ensures
        exists|i: int|
            0 <= i < scalars.len() && (#[trigger] kernel_scalars(scalars)[i]).name == scalar_text(
                name,
            ),
    decreases scalars.len(),
{
    if scalars.len() > 0 {
        let last = scalars.len() - 1;
        if scalars.last().ident.name@ == name {
            assert(kernel_scalars(scalars)[last].name == scalar_text(name));
        } else {
            lemma_scalar_declared(scalars.drop_last(), name);
            let i = choose|i: int|
                0 <= i < last && (#[trigger] kernel_scalars(scalars.drop_last())[i]).name
                    == scalar_text(name);
            assert(kernel_scalars(scalars)[i].name == scalar_text(name));
        }
    }
}

/// A tensor that has a name is one of the tensors.
proof fn lemma_tensor_declared<'a>(tensors: Seq<TensorParameter<'a>>, name: Seq<char>)
    requires
        tensors.len() <= usize::MAX,
        tensor_map(tensors).dom().contains(name),
    ensures
        ({
            let tensor = tensor_map(tensors)[name];
            &&& tensor.capture.tensor < tensors.len()
            &&& tensors[tensor.capture.tensor as int].ident.name@ == name
            &&& captured_tensors(tensors)[tensor.capture.tensor as int] == tensor
        }),
    decreases tensors.len(),
{
    if tensors.len() > 0 && tensors.last().ident.name@ != name {
        lemma_tensor_declared(tensors.drop_last(), name);
    }
}

/// What a chain over a domain compiles to is closed, and captures only tensors that are there.
pub proof fn lemma_chain_is_closed<'a>(
    name: Seq<char>,
    host: Seq<HostStatement>,
    chain: ChainView<'a>,
    domain: DomainView<'a>,
    scalars: Seq<ScalarParameter<'a>>,
    tensors: Seq<TensorParameter<'a>>,
    output: TensorType<'a>,
)
    requires
        domain.wf(),
        domain.extent is None ==> domain.inputs.len() == chain.sources.len(),
        chain.sources.len() <= 2,
        tensors.len() <= usize::MAX,
    ensures
        expanded_chain(name, host, chain, domain, scalars, tensors, output) matches Ok(expansion)
            ==> closed_kernel(expansion.kernel, captured_tensors(tensors)) && known_captures(
            captures_of(expansion.kernel.body),
            kernel_declared(expansion.kernel, captured_tensors(tensors)),
        ),
{
    if let Ok(expansion) = expanded_chain(name, host, chain, domain, scalars, tensors, output) {
        let mode = mode_of(chain, domain);
        let rank = point_rank_of(mode, *domain.rank())->Ok_0;
        let bindings = bindings_of(*chain.closure, mode, rank)->Ok_0;
        let scope = scope_of(bindings, domain, rank, scalars, tensors, output);
        let kernel = expansion.kernel;
        let declared = kernel_declared(kernel, captured_tensors(tensors));
        lemma_bindings(*chain.closure, mode, rank);
        assert(kernel.inputs.len() == domain.inputs.len());
        assert forall|name: Seq<char>| #[trigger] scope.scalars.dom().contains(name) implies
            declared.scalars.contains(scalar_text(name)) by {
            lemma_scalar_declared(scalars, name);
            let i = choose|i: int|
                0 <= i < scalars.len() && (#[trigger] kernel_scalars(scalars)[i]).name
                    == scalar_text(name);
            assert(kernel.scalars[i].name == scalar_text(name));
        }
        assert forall|name: Seq<char>| #[trigger] scope.tensors.dom().contains(name) implies ({
            let tensor = scope.tensors[name];
            &&& known_capture(tensor.capture, declared)
            &&& declared.tensors[tensor.capture.tensor as int] == tensor
        }) by {
            lemma_tensor_declared(tensors, name);
        }
        assert(scope_declared(scope, declared));
        lemma_body_is_closed(*chain.closure.body, scope, declared);
        lemma_body_captures(kernel.body, declared);
    }
}

proof fn lemma_parameters_len(arguments: Seq<SourceArgument>, count: nat)
    ensures
        parameters_of(arguments, count) matches Ok(parameters) ==> parameters.len() == count,
    decreases count,
{
    if count > 0 {
        lemma_parameters_len(arguments, (count - 1) as nat);
    }
}

proof fn lemma_visible_len<'a>(parameters: Seq<Parameter<'a>>, block: SourceBlock)
    ensures
        visible_parameters(parameters, block).len() <= parameters.len(),
    decreases parameters.len(),
{
    if parameters.len() > 0 {
        lemma_visible_len(parameters.drop_last(), block);
    }
}

proof fn lemma_tensors_len<'a>(parameters: Seq<Parameter<'a>>)
    ensures
        tensors_of(parameters).len() <= parameters.len(),
    decreases parameters.len(),
{
    if parameters.len() > 0 {
        lemma_tensors_len(parameters.drop_last());
    }
}

/// The tensor parameters that the chain of a function sees.
pub open spec fn visible_tensors<'a>(function: &'a SourceFunction) -> Seq<TensorParameter<'a>> {
    match parameters_of(function.inputs@, function.inputs@.len()) {
        Ok(parameters) => tensors_of(visible_parameters(parameters, function.block)),
        Err(_) => Seq::empty(),
    }
}

/// The chain of a function sees no more tensors than there are places.
pub proof fn lemma_visible_tensors_len<'a>(function: &'a SourceFunction)
    ensures
        visible_tensors(function).len() <= usize::MAX,
{
    if let Ok(parameters) = parameters_of(function.inputs@, function.inputs@.len()) {
        lemma_parameters_len(function.inputs@, function.inputs@.len());
        lemma_visible_len(parameters, function.block);
        lemma_tensors_len(visible_parameters(parameters, function.block));
        assert(function.inputs@.len() == function.inputs.len());
    }
}

/// Every kernel that a function compiles to is closed: each thread reads only the inputs, the
/// tensors that the chain sees, the scalars, the axes of its own point and the variables that are
/// declared before, writes only its own variables and its own output element, and calls only
/// intrinsics; a captured tensor is read with one coordinate for each of its axes; and no loop has
/// a counter that cannot pass the end.
pub proof fn law_kernels_are_closed<'a>(function: &'a SourceFunction)
    ensures
        expanded(function) matches Ok(expansion) ==> closed_kernel(
            expansion.kernel,
            captured_tensors(visible_tensors(function)),
        ),
{
    lemma_captures_are_parameters(function);
}

/// The tensors that a compiled function binds as captures are those that its kernel declares as
/// captures: one for each, in the same order, with the same element type, each of them a tensor
/// parameter that the chain sees.
pub proof fn law_captures_are_parameters<'a>(function: &'a SourceFunction)
    ensures
        expanded(function) matches Ok(expansion) ==> {
            let captures = captures_of(expansion.kernel.body);
            let tensors = visible_tensors(function);
            &&& expansion.captures.len() == captures.len()
            &&& forall|i: int|
                0 <= i < captures.len() ==> {
                    &&& (#[trigger] captures[i]).tensor < tensors.len()
                    &&& expansion.captures[i] == tensors[captures[i].tensor as int]
                    &&& expansion.captures[i].ty.element == captures[i].element
                }
        },
{
    lemma_captures_are_parameters(function);
    if let Ok(expansion) = expanded(function) {
        let captures = captures_of(expansion.kernel.body);
        let tensors = visible_tensors(function);
        let declared = kernel_declared(expansion.kernel, captured_tensors(tensors));
        assert(expansion.captures == captured_parameters(captures, tensors));
        assert forall|i: int| 0 <= i < captures.len() implies ({
            &&& (#[trigger] captures[i]).tensor < tensors.len()
            &&& expansion.captures[i] == tensors[captures[i].tensor as int]
            &&& expansion.captures[i].ty.element == captures[i].element
        }) by {
            assert(known_capture(captures[i], declared));
        }
    }
}

/// The kernel of a function is closed, and its captures are tensors that the chain sees.
pub proof fn lemma_captures_are_parameters<'a>(function: &'a SourceFunction)
    ensures
        expanded(function) matches Ok(expansion) ==> {
            let tensors = captured_tensors(visible_tensors(function));
            &&& closed_kernel(expansion.kernel, tensors)
            &&& known_captures(
                captures_of(expansion.kernel.body),
                kernel_declared(expansion.kernel, tensors),
            )
        },
{
    if let Ok(expansion) = expanded(function) {
        let parameters = parameters_of(function.inputs@, function.inputs@.len())->Ok_0;
        let visible = visible_parameters(parameters, function.block);
        let output = output_of(function)->Ok_0;
        let chain = chain_of(&function.block)->Ok_0;
        let domain = domain_of(chain, visible, function.block, output)->Ok_0;
        lemma_parameters_len(function.inputs@, function.inputs@.len());
        lemma_visible_len(parameters, function.block);
        lemma_tensors_len(visible);
        assert(function.inputs@.len() == function.inputs.len());
        lemma_domain_wf(&function.block, visible, output);
        lemma_chain_is_closed(
            function.ident.name@,
            expansion.host,
            chain,
            domain,
            scalars_of(visible),
            tensors_of(visible),
            output,
        );
    }
}

/// Whether two bodies have the same locals on the host.
pub open spec fn same_host_locals(left: SourceBlock, right: SourceBlock) -> bool {
    forall|name: Seq<char>| #[trigger] is_host_local(left, name) == is_host_local(right, name)
}

proof fn lemma_same_visible<'a>(
    parameters: Seq<Parameter<'a>>,
    left: SourceBlock,
    right: SourceBlock,
)
    requires
        same_host_locals(left, right),
    ensures
        visible_parameters(parameters, left) == visible_parameters(parameters, right),
    decreases parameters.len(),
{
    if parameters.len() > 0 {
        lemma_same_visible(parameters.drop_last(), left, right);
    }
}

proof fn lemma_same_inputs<'a>(
    sources: Seq<IteratorSource<'a>>,
    parameters: Seq<Parameter<'a>>,
    left: SourceBlock,
    right: SourceBlock,
    count: nat,
)
    requires
        same_host_locals(left, right),
    ensures
        inputs_of(sources, parameters, left, count) == inputs_of(
            sources,
            parameters,
            right,
            count,
        ),
    decreases count,
{
    if count > 0 {
        lemma_same_inputs(sources, parameters, left, right, (count - 1) as nat);
    }
}

/// What the statements before the chain do stays on the host: of two functions that differ only
/// in those, and whose host locals have the same names, both compile to the same kernel and the
/// same dispatch, or neither compiles, for the same reason.
pub proof fn law_host_statements_stay_on_the_host<'a>(
    function: &'a SourceFunction,
    other: &'a SourceFunction,
)
    requires
        function.ident.name@ == other.ident.name@,
        function.constness == other.constness,
        function.asyncness == other.asyncness,
        function.signature_span == other.signature_span,
        function.inputs == other.inputs,
        function.output == other.output,
        function.output_span == other.output_span,
        chain_expression(&function.block) == chain_expression(&other.block),
        same_host_locals(function.block, other.block),
    ensures
        match (expanded(function), expanded(other)) {
            (Ok(left), Ok(right)) => {
                &&& left.kernel == right.kernel
                &&& left.source == right.source
                &&& left.domain == right.domain
                &&& left.captures == right.captures
                &&& left.scalars == right.scalars
                &&& left.output == right.output
            },
            (Err(left), Err(right)) => left == right,
            _ => false,
        },
{
    if let Ok(parameters) = parameters_of(function.inputs@, function.inputs@.len()) {
        lemma_same_visible(parameters, function.block, other.block);
        if let Ok(chain) = chain_of(&function.block) {
            lemma_same_inputs(
                chain.sources,
                visible_parameters(parameters, function.block),
                function.block,
                other.block,
                chain.sources.len(),
            );
        }
    }
}

/// A function that maps over elements alone compiles to a kernel that reconstructs no point; one
/// that asks for points compiles to a kernel that reconstructs points of the literal rank.
pub proof fn law_points_are_reconstructed_where_asked_for<'a>(function: &'a SourceFunction)
    ensures
        expanded(function) matches Ok(expansion) ==> {
            let chain = chain_of(&function.block)->Ok_0;
            match mode_of(chain, expansion.domain) {
                ClosureMode::Values(_) => expansion.kernel.logical_rank is None,
                _ => expansion.kernel.logical_rank is Some,
            }
        },
{
}

/// The output of a compiled function has the rank of everything that it is mapped from.
pub proof fn law_maps_keep_the_rank<'a>(function: &'a SourceFunction)
    ensures
        expanded(function) matches Ok(expansion) ==> {
            &&& expansion.output.rank.text@ == expansion.domain.rank().text@
            &&& forall|i: int|
                0 <= i < expansion.domain.inputs.len()
                    ==> (#[trigger] expansion.domain.inputs[i]).ty.rank.text@
                    == expansion.output.rank.text@
        },
{
    if let Ok(expansion) = expanded(function) {
        let parameters = parameters_of(function.inputs@, function.inputs@.len())->Ok_0;
        let visible = visible_parameters(parameters, function.block);
        lemma_domain_wf(&function.block, visible, output_of(function)->Ok_0);
    }
}

/// The variables that are declared after a statement.
pub open spec fn lets_after(statement: StatementView, lets: Set<Seq<char>>) -> Set<Seq<char>> {
    match statement {
        StatementView::Let { name, .. } => lets.insert(name),
        StatementView::Sum { name, .. } => lets.insert(name),
        _ => lets,
    }
}

/// The variables that are declared after a sequence of statements.
pub open spec fn lets_after_all(
    statements: Seq<StatementView>,
    lets: Set<Seq<char>>,
) -> Set<Seq<char>>
    decreases statements.len(),
{
    if statements.len() == 0 {
        lets
    } else {
        lets_after(statements.last(), lets_after_all(statements.drop_last(), lets))
    }
}

/// Whether a statement declares no variable that is declared already.
pub open spec fn fresh_statement(statement: StatementView, lets: Set<Seq<char>>) -> bool
    decreases statement, 0nat,
{
    match statement {
        StatementView::Let { name, .. } => !lets.contains(name),
        StatementView::Sum { name, .. } => !lets.contains(name),
        StatementView::Assign { .. } => true,
        StatementView::ForRange { body, .. } => fresh_statements(body, lets),
    }
}

/// Whether a sequence of statements declares no variable that is declared already.
pub open spec fn fresh_statements(statements: Seq<StatementView>, lets: Set<Seq<char>>) -> bool
    decreases statements, 0nat,
{
    if statements.len() == 0 {
        true
    } else {
        fresh_statements(statements.drop_last(), lets) && fresh_statement(
            statements.last(),
            lets_after_all(statements.drop_last(), lets),
        )
    }
}

/// Whether every declared variable is one of the variables in scope.
pub open spec fn lets_known(
    locals: Map<Seq<char>, LocalInfo>,
    lets: Set<Seq<char>>,
    family: Set<Seq<char>>,
) -> bool {
    forall|text: Seq<char>| #[trigger]
        lets.contains(text) ==> exists|name: Seq<char>|
            locals.dom().contains(name) && family.contains(name) && #[trigger] local_text(name)
                == text
}

proof fn lemma_local_is_fresh(
    local: SourceLocal,
    scope: Scope,
    locals: Map<Seq<char>, LocalInfo>,
    lets: Set<Seq<char>>,
    family: Set<Seq<char>>,
)
    requires
        distinct(family),
        lets_known(locals, lets, family),
        family.contains(declared_name(local)),
    ensures
        lowered_local(local, scope, locals) matches Ok((statement, later)) ==> fresh_statement(
            statement,
            lets,
        ) && lets_known(later, lets_after(statement, lets), family),
{
    if let Ok((statement, later)) = lowered_local(local, scope, locals) {
        let name = declared_name(local);
        let text = local_text(name);
        if lets.contains(text) {
            let other = choose|other: Seq<char>|
                locals.dom().contains(other) && family.contains(other) && #[trigger] local_text(
                    other,
                ) == text;
            lemma_texts_differ(family, name, other);
        }
        let after = lets_after(statement, lets);
        assert forall|declared: Seq<char>| #[trigger] after.contains(declared) implies exists|
            known: Seq<char>,
        |
            later.dom().contains(known) && family.contains(known) && #[trigger] local_text(known)
                == declared by {
            if declared == text {
                assert(later.dom().contains(name));
            } else {
                assert(lets.contains(declared));
                let known = choose|known: Seq<char>|
                    locals.dom().contains(known) && family.contains(known) && #[trigger] local_text(
                        known,
                    ) == declared;
                assert(later.dom().contains(known));
            }
        }
    }
}

/// Variables in scope stay in scope when a counter is added.
proof fn lemma_known_in_loop(
    variable: Seq<char>,
    locals: Map<Seq<char>, LocalInfo>,
    lets: Set<Seq<char>>,
    family: Set<Seq<char>>,
)
    requires
        lets_known(locals, lets, family),
    ensures
        lets_known(loop_locals(variable, locals), lets, family),
{
    let inner = loop_locals(variable, locals);
    assert forall|text: Seq<char>| #[trigger] lets.contains(text) implies exists|name: Seq<char>|
        inner.dom().contains(name) && family.contains(name) && #[trigger] local_text(name)
            == text by {
        let name = choose|name: Seq<char>|
            locals.dom().contains(name) && family.contains(name) && #[trigger] local_text(name)
                == text;
        assert(inner.dom().contains(name));
    }
}

proof fn lemma_statement_is_fresh(
    expression: SourceExpr,
    scope: Scope,
    locals: Map<Seq<char>, LocalInfo>,
    lets: Set<Seq<char>>,
    family: Set<Seq<char>>,
)
    requires
        distinct(family),
        lets_known(locals, lets, family),
        statement_within(expression, family),
    ensures
        lowered_statement(expression, scope, locals) matches Ok(statement) ==> fresh_statement(
            statement,
            lets,
        ) && !(statement is Let || statement is Sum),
    decreases expression, 0nat,
{
    match expression.kind {
        ExprKind::ForLoop { pattern, range, body } => {
            if let Ok(ident) = pattern_ident(&pattern) {
                lemma_known_in_loop(ident.name@, locals, lets, family);
                lemma_statements_are_fresh(
                    body.statements@,
                    scope,
                    loop_locals(ident.name@, locals),
                    lets,
                    family,
                );
            }
        },
        ExprKind::MethodCall { receiver, method, arguments, .. } => {
            if arguments@.len() == 1 {
                if let ExprKind::Closure(closure) = arguments@[0].kind {
                    if let Ok(ident) = pattern_ident(&closure.inputs@[0]) {
                        lemma_known_in_loop(ident.name@, locals, lets, family);
                        lemma_closure_body_is_fresh(
                            closure,
                            scope,
                            loop_locals(ident.name@, locals),
                            lets,
                            family,
                        );
                    }
                }
            }
        },
        _ => {},
    }
}

proof fn lemma_closure_body_is_fresh(
    closure: SourceClosure,
    scope: Scope,
    locals: Map<Seq<char>, LocalInfo>,
    lets: Set<Seq<char>>,
    family: Set<Seq<char>>,
)
    requires
        distinct(family),
        lets_known(locals, lets, family),
        match closure.body.kind {
            ExprKind::Block(block) => all_within(block.statements@, family),
            _ => statement_within(*closure.body, family),
        },
    ensures
        lowered_closure_body(*closure.body, scope, locals) matches Ok((statements, _))
            ==> fresh_statements(statements, lets),
    decreases closure, 1nat,
{
    match closure.body.kind {
        ExprKind::Block(block) => {
            lemma_statements_are_fresh(block.statements@, scope, locals, lets, family);
        },
        _ => {
            lemma_statement_is_fresh(*closure.body, scope, locals, lets, family);
            if let Ok(statement) = lowered_statement(*closure.body, scope, locals) {
                let statements = seq![statement];
                assert(statements.drop_last() =~= Seq::<StatementView>::empty());
                assert(fresh_statements(statements.drop_last(), lets));
                assert(lets_after_all(statements.drop_last(), lets) == lets);
                assert(statements.last() == statement);
                assert(fresh_statements(statements, lets));
            }
        },
    }
}

proof fn lemma_statements_are_fresh(
    statements: Seq<SourceStatement>,
    scope: Scope,
    locals: Map<Seq<char>, LocalInfo>,
    lets: Set<Seq<char>>,
    family: Set<Seq<char>>,
)
    requires
        distinct(family),
        lets_known(locals, lets, family),
        all_within(statements, family),
    ensures
        lowered_statements(statements, scope, locals) matches Ok((lowered, later))
            ==> fresh_statements(lowered, lets) && lets_known(
            later,
            lets_after_all(lowered, lets),
            family,
        ),
    decreases statements, 0nat,
{
    if statements.len() > 0 {
        lemma_statements_are_fresh(statements.drop_last(), scope, locals, lets, family);
        if let Ok((done, between)) = lowered_statements(statements.drop_last(), scope, locals) {
            let middle = lets_after_all(done, lets);
            assert(step_within(statements.last(), family));
            match statements.last() {
                SourceStatement::Local(local) => {
                    lemma_local_is_fresh(local, scope, between, middle, family);
                },
                SourceStatement::Expr { expression, .. } => {
                    lemma_statement_is_fresh(expression, scope, between, middle, family);
                },
                _ => {},
            }
            if let Ok((statement, later)) = lowered_step(statements.last(), scope, between) {
                let lowered = done.push(statement);
                assert(lowered.drop_last() =~= done);
                assert(lowered.last() == statement);
            }
        }
    }
}

proof fn lemma_result_is_fresh(
    expression: SourceExpr,
    scope: Scope,
    locals: Map<Seq<char>, LocalInfo>,
    lets: Set<Seq<char>>,
    family: Set<Seq<char>>,
)
    requires
        lets_known(locals, lets, family),
    ensures
        lowered_result(expression, scope, locals) matches Ok((before, _)) ==> {
            &&& before.len() <= 1
            &&& before.len() == 1 ==> fresh_statement(before[0], lets)
        },
{
    if let Ok((before, value)) = lowered_result(expression, scope, locals) {
        let text = "__pm_sum"@;
        if is_sum(expression) && lets.contains(text) {
            let name = choose|name: Seq<char>|
                locals.dom().contains(name) && family.contains(name) && #[trigger] local_text(name)
                    == text;
            lemma_sum_is_unseen(name, LocalInfo { looped: false, mutable: false });
        }
    }
}

proof fn lemma_parts_are_fresh(
    statements: Seq<SourceStatement>,
    count: nat,
    scope: Scope,
    family: Set<Seq<char>>,
)
    requires
        distinct(family),
        all_within(statements, family),
        count <= statements.len(),
    ensures
        lowered_parts(statements, count, scope, Map::empty()) matches Ok(parts) ==> {
            &&& fresh_statements(parts.statements, Set::empty())
            &&& count < statements.len() ==> lets_known(
                parts.locals,
                lets_after_all(parts.statements, Set::empty()),
                family,
            )
        },
    decreases count,
{
    if count > 0 {
        let previous = (count - 1) as nat;
        lemma_parts_are_fresh(statements, previous, scope, family);
        lemma_within_prefix(statements, previous as int, family);
        if let Ok(parts) = lowered_parts(statements, previous, scope, Map::empty()) {
            let middle = lets_after_all(parts.statements, Set::empty());
            match statements[previous as int] {
                SourceStatement::Local(local) => {
                    lemma_local_is_fresh(local, scope, parts.locals, middle, family);
                    if let Ok((statement, later)) = lowered_local(local, scope, parts.locals) {
                        assert(parts.statements.push(statement).drop_last() =~= parts.statements);
                    }
                },
                SourceStatement::Expr { expression, .. } => {
                    lemma_result_is_fresh(expression, scope, parts.locals, middle, family);
                    if let Ok((before, value)) = lowered_result(expression, scope, parts.locals) {
                        if before.len() == 1 {
                            assert((parts.statements + before).drop_last() =~= parts.statements);
                            assert((parts.statements + before).last() == before[0]);
                        } else {
                            assert(parts.statements + before =~= parts.statements);
                        }
                    }
                    lemma_statement_is_fresh(expression, scope, parts.locals, middle, family);
                    if let Ok(statement) = lowered_statement(expression, scope, parts.locals) {
                        assert(parts.statements.push(statement).drop_last() =~= parts.statements);
                    }
                },
                _ => {},
            }
        }
    }
}

/// No kernel declares a variable twice where it could be seen twice, as long as no two names that
/// the body declares become the same identifier.
pub proof fn law_variables_are_declared_once(
    body: SourceExpr,
    scope: Scope,
    family: Set<Seq<char>>,
)
    requires
        distinct(family),
        body_within(body, family),
    ensures
        lowered_body(body, scope) matches Ok(lowered) ==> fresh_statements(
            lowered.statements,
            Set::empty(),
        ),
{
    let none = Map::<Seq<char>, LocalInfo>::empty();
    match body.kind {
        ExprKind::Block(block) => {
            lemma_parts_are_fresh(block.statements@, block.statements@.len(), scope, family);
        },
        _ => {
            lemma_result_is_fresh(body, scope, none, Set::empty(), family);
            if let Ok((before, value)) = lowered_result(body, scope, none) {
                if before.len() == 1 {
                    assert(before.drop_last() =~= Seq::<StatementView>::empty());
                    assert(fresh_statements(before.drop_last(), Set::empty()));
                    assert(lets_after_all(before.drop_last(), Set::empty()) == Set::<
                        Seq<char>,
                    >::empty());
                }
            }
        },
    }
}

} // verus!
