//! Which Rust the device language takes: the bodies that can be lowered, by their syntax and by
//! the names in scope.
use vstd::prelude::*;

use crate::diagnostic::Problem;
use crate::expr::ExprView;
use crate::lower::{
    assignment_operator, binary_operator, bound_of, captured_tensor, indexed_axis, is_mutable,
    loop_locals, lowered, lowered_all, lowered_block, lowered_body, lowered_closure_body,
    lowered_let, lowered_local, lowered_parts, lowered_statement, lowered_statements,
    lowered_step, lowered_sum, range_of, target_of, CapturedTensor, LocalInfo, Scope,
};
use crate::meaning::{is_assignment, metal_name, rust_token};
use crate::names::local_text;
use crate::source::{
    ExprKind, LiteralKind, PatternKind, SourceBinaryOp, SourceBlock, SourceExpr, SourceLocal,
    SourcePattern, SourceStatement, SourceType, TypeKind,
};
use crate::statement::Bound;
use crate::syntax::{integer_of, pattern_ident, scalar_of};
use crate::text::{all_digits, digits_value, law_numbers_are_digits, without_plus};
use crate::types::ScalarType;

verus! {

/// What the names outside the body of a closure stand for.
#[verifier::ext_equal]
pub ghost struct Outside {
    /// The names that stand for values: the arguments of the closure, and the scalars.
    pub values: Set<Seq<char>>,
    /// The name of the point as a whole.
    pub point: Option<Seq<char>>,
    /// The names of extents.
    pub extents: Set<Seq<char>>,
    /// The rank of the point.
    pub rank: Option<usize>,
    /// The names of tensors, and the rank of each where it is a literal.
    pub tensors: Map<Seq<char>, Option<usize>>,
}

/// What the names of a scope stand for.
pub open spec fn outside(scope: Scope) -> Outside {
    Outside {
        values: scope.bindings.dom().union(scope.point_axes.dom()).union(scope.scalars.dom()),
        point: scope.point,
        extents: scope.extents.to_set(),
        rank: scope.rank,
        tensors: scope.tensors.map_values(|tensor: CapturedTensor| tensor.rank),
    }
}

/// The name that a pattern binds by itself, and whether it is mutable.
pub open spec fn simple_name(pattern: SourcePattern) -> Option<(Seq<char>, bool)>
    decreases pattern,
{
    match pattern.kind {
        PatternKind::Ident { ident, mutable, subpattern } => if subpattern is None {
            Some((ident.name@, mutable))
        } else {
            None
        },
        PatternKind::Reference(inner) => simple_name(*inner),
        PatternKind::Paren(inner) => simple_name(*inner),
        PatternKind::Typed { pattern: inner, .. } => simple_name(*inner),
        _ => None,
    }
}

/// Whether a type is one of the scalar types, by its bare name.
pub open spec fn is_scalar_type(ty: SourceType) -> bool {
    match ty.kind {
        TypeKind::Path { qualified: false, last: Some(segment) } => segment.arguments is Absent
            && metal_name(segment.name@).len() > 0,
        _ => false,
    }
}

/// Whether an expression is an integer literal of at most a limit.
pub open spec fn is_integer(expression: SourceExpr, limit: nat) -> bool {
    match expression.kind {
        ExprKind::Lit(literal) => match literal.kind {
            LiteralKind::Int(digits) => {
                let digits = without_plus(digits@);
                digits.len() > 0 && all_digits(digits) && digits_value(digits) <= limit
            },
            _ => false,
        },
        _ => false,
    }
}

/// The value of an integer literal.
pub open spec fn integer(expression: SourceExpr) -> nat {
    digits_value(without_plus(expression.kind->Lit_0.kind->Int_0@))
}

/// Whether a name stands for a value: an argument of the closure, a scalar or a variable.
pub open spec fn is_value(
    name: Seq<char>,
    scope: Outside,
    declared: Map<Seq<char>, bool>,
) -> bool {
    scope.values.contains(name) || declared.dom().contains(name)
}

/// Whether an expression is one name.
pub open spec fn is_name(expression: SourceExpr) -> bool {
    expression.kind matches ExprKind::Path(path) && path.segments@.len() == 1
}

/// The name that an expression is.
pub open spec fn name_of(expression: SourceExpr) -> Seq<char> {
    expression.kind->Path_0.segments@[0].name@
}

/// Whether an expression names a tensor of a known rank that nothing inside the closure hides.
pub open spec fn is_tensor(
    expression: SourceExpr,
    scope: Outside,
    declared: Map<Seq<char>, bool>,
) -> bool {
    &&& is_name(expression)
    &&& !expression.kind->Path_0.qualified
    &&& !is_value(name_of(expression), scope, declared)
    &&& scope.point != Some(name_of(expression))
    &&& scope.tensors.dom().contains(name_of(expression))
    &&& scope.tensors[name_of(expression)] is Some
}

/// Whether `base[index]` is the length of an axis of a tensor, as in `tensor.extent()[0]`.
pub open spec fn is_tensor_axis(
    base: SourceExpr,
    index: SourceExpr,
    scope: Outside,
    declared: Map<Seq<char>, bool>,
) -> bool {
    match base.kind {
        ExprKind::MethodCall { receiver, method, arguments, .. } => {
            &&& method@ == "extent"@
            &&& arguments@.len() == 0
            &&& is_tensor(*receiver, scope, declared)
            &&& is_integer(index, usize::MAX as nat)
            &&& integer(index) < scope.tensors[name_of(*receiver)]->0
        },
        _ => false,
    }
}

/// Whether `base[index]` is a coordinate of the point, or the length of an axis of the extent.
pub open spec fn is_logical_axis(base: SourceExpr, index: SourceExpr, scope: Outside) -> bool {
    &&& is_name(base)
    &&& scope.point == Some(name_of(base)) || scope.extents.contains(name_of(base))
    &&& is_integer(index, usize::MAX as nat)
    &&& scope.rank matches Some(rank) && integer(index) < rank
}

/// Whether a call is of a math function of the device.
pub open spec fn is_math(function: SourceExpr) -> bool {
    is_name(function) && {
        let name = name_of(function);
        name == "sin"@ || name == "cos"@ || name == "abs"@ || name == "exp"@ || name == "tanh"@
    }
}

/// Whether an expression is in the device language.
pub open spec fn supported(
    expression: SourceExpr,
    scope: Outside,
    declared: Map<Seq<char>, bool>,
) -> bool
    decreases expression,
{
    match expression.kind {
        ExprKind::Path(path) => !path.qualified && is_name(expression) && is_value(
            name_of(expression),
            scope,
            declared,
        ),
        ExprKind::Lit(literal) => !(literal.kind is Other),
        ExprKind::Paren(inner) => supported(*inner, scope, declared),
        ExprKind::Group(inner) => supported(*inner, scope, declared),
        ExprKind::Unary { op, operand } => !(op is Other) && supported(*operand, scope, declared),
        ExprKind::Binary { op, left, right, .. } => {
            &&& rust_token(op).len() > 0
            &&& !is_assignment(op)
            &&& supported(*left, scope, declared)
            &&& supported(*right, scope, declared)
        },
        ExprKind::Cast { operand, ty } => is_scalar_type(ty) && supported(
            *operand,
            scope,
            declared,
        ),
        ExprKind::If { condition, then_branch, else_branch } => match else_branch {
            Some(else_branch) => {
                &&& supported(*condition, scope, declared)
                &&& supported_block(then_branch, scope, declared)
                &&& supported(*else_branch, scope, declared)
            },
            None => false,
        },
        ExprKind::Block(block) => supported_block(block, scope, declared),
        ExprKind::Call { function, arguments } => {
            &&& is_math(*function)
            &&& arguments@.len() == 1
            &&& supported(arguments@[0], scope, declared)
        },
        ExprKind::Index { base, index } => match index.kind {
            ExprKind::Tuple(elements) => {
                &&& is_tensor(*base, scope, declared)
                &&& elements@.len() == scope.tensors[name_of(*base)]->0
                &&& all_supported(elements@, scope, declared)
            },
            _ => is_tensor_axis(*base, *index, scope, declared) || is_logical_axis(
                *base,
                *index,
                scope,
            ),
        },
        _ => false,
    }
}

/// Whether a block is one expression of the device language.
pub open spec fn supported_block(
    block: SourceBlock,
    scope: Outside,
    declared: Map<Seq<char>, bool>,
) -> bool
    decreases block,
{
    block.statements@.len() == 1 && match block.statements@[0] {
        SourceStatement::Expr { expression, semicolon } => !semicolon && supported(
            expression,
            scope,
            declared,
        ),
        _ => false,
    }
}

/// Whether all expressions are in the device language.
pub open spec fn all_supported(
    expressions: Seq<SourceExpr>,
    scope: Outside,
    declared: Map<Seq<char>, bool>,
) -> bool
    decreases expressions,
{
    expressions.len() == 0 || (all_supported(expressions.drop_last(), scope, declared)
        && supported(expressions.last(), scope, declared))
}

/// Whether an expression can bound a loop: an integer literal, or the length of an axis.
pub open spec fn supported_bound(
    expression: SourceExpr,
    scope: Outside,
    declared: Map<Seq<char>, bool>,
) -> bool {
    match expression.kind {
        ExprKind::Index { base, index } => is_tensor_axis(*base, *index, scope, declared) || (
        is_logical_axis(*base, *index, scope) && scope.point != Some(name_of(*base))),
        _ => is_integer(expression, u32::MAX as nat),
    }
}

/// Whether an expression is a range that a loop can run over: one that includes its end has a
/// literal end that a counter can pass.
pub open spec fn supported_range(
    expression: SourceExpr,
    scope: Outside,
    declared: Map<Seq<char>, bool>,
) -> bool
    decreases expression,
{
    match expression.kind {
        ExprKind::Paren(inner) => supported_range(*inner, scope, declared),
        ExprKind::Group(inner) => supported_range(*inner, scope, declared),
        ExprKind::Range { start: Some(start), end: Some(end), closed } => {
            &&& supported_bound(*start, scope, declared)
            &&& supported_bound(*end, scope, declared)
            &&& closed ==> is_integer(*end, (u32::MAX - 1) as nat)
        },
        _ => false,
    }
}

/// Whether an expression is a variable that can be assigned.
pub open spec fn is_target(expression: SourceExpr, declared: Map<Seq<char>, bool>) -> bool {
    &&& is_name(expression)
    &&& declared.dom().contains(name_of(expression))
    &&& declared[name_of(expression)]
}

/// Whether what `sum()` is called on is a map of a range with a closure of one name.
pub open spec fn supported_sum(
    receiver: SourceExpr,
    scope: Outside,
    declared: Map<Seq<char>, bool>,
) -> bool {
    match receiver.kind {
        ExprKind::MethodCall { receiver: range, method, arguments, .. } => {
            &&& method@ == "map"@
            &&& arguments@.len() == 1
            &&& arguments@[0].kind matches ExprKind::Closure(closure) && {
                &&& closure.inputs@.len() == 1
                &&& simple_name(closure.inputs@[0]) matches Some((name, _)) && supported(
                    *closure.body,
                    scope,
                    declared.insert(name, false),
                )
                &&& supported_range(*range, scope, declared)
            }
        },
        _ => false,
    }
}

/// Whether an expression can give a variable, or the output, its value: a sum, or an expression of
/// the device language.
pub open spec fn supported_value(
    expression: SourceExpr,
    scope: Outside,
    declared: Map<Seq<char>, bool>,
) -> bool {
    match expression.kind {
        ExprKind::MethodCall { receiver, method, arguments, .. } => method@ == "sum"@
            && arguments@.len() == 0 && supported_sum(*receiver, scope, declared),
        _ => supported(expression, scope, declared),
    }
}

/// The name that a typed `let` declares, and whether it is mutable.
pub open spec fn local_name(local: SourceLocal) -> Option<(Seq<char>, bool)> {
    match local.pattern.kind {
        PatternKind::Typed { pattern, .. } => simple_name(*pattern),
        _ => None,
    }
}

/// Whether a `let` gives a new variable of a scalar type its value.
pub open spec fn supported_local(
    local: SourceLocal,
    scope: Outside,
    declared: Map<Seq<char>, bool>,
) -> bool {
    &&& local_name(local) matches Some((name, _)) && !declared.dom().contains(name)
    &&& is_scalar_type(local.pattern.kind->Typed_ty)
    &&& local.initializer matches Some(initializer) && !initializer.diverges && supported_value(
        initializer.value,
        scope,
        declared,
    )
}

/// Whether an expression is a statement of the device language: an assignment to a mutable
/// variable, or a loop over a range.
pub open spec fn supported_statement(
    expression: SourceExpr,
    scope: Outside,
    declared: Map<Seq<char>, bool>,
) -> bool
    decreases expression, 0nat,
{
    match expression.kind {
        ExprKind::Assign { left, right } => is_target(*left, declared) && supported(
            *right,
            scope,
            declared,
        ),
        ExprKind::Binary { op, left, right, .. } => {
            &&& is_assignment(op)
            &&& is_target(*left, declared)
            &&& supported(*right, scope, declared)
        },
        ExprKind::ForLoop { pattern, range, body } => {
            &&& simple_name(pattern) matches Some((name, _)) && supported_steps(
                body.statements@,
                scope,
                declared.insert(name, false),
            )
            &&& supported_range(*range, scope, declared)
        },
        ExprKind::MethodCall { receiver, method, arguments, .. } => {
            &&& method@ == "for_each"@
            &&& arguments@.len() == 1
            &&& match arguments@[0].kind {
                ExprKind::Closure(closure) => {
                    &&& closure.inputs@.len() == 1
                    &&& simple_name(closure.inputs@[0]) matches Some((name, _))
                        && supported_loop_body(*closure.body, scope, declared.insert(name, false))
                    &&& supported_range(*receiver, scope, declared)
                },
                _ => false,
            }
        },
        _ => false,
    }
}

/// Whether an expression can be the body of a `for_each` closure: a block of statements, or one
/// statement.
pub open spec fn supported_loop_body(
    expression: SourceExpr,
    scope: Outside,
    declared: Map<Seq<char>, bool>,
) -> bool
    decreases expression, 1nat,
{
    match expression.kind {
        ExprKind::Block(block) => supported_steps(block.statements@, scope, declared),
        _ => supported_statement(expression, scope, declared),
    }
}

/// Whether a statement is in the device language: a `let`, an assignment or a loop.
pub open spec fn supported_step(
    statement: SourceStatement,
    scope: Outside,
    declared: Map<Seq<char>, bool>,
) -> bool
    decreases statement, 0nat,
{
    match statement {
        SourceStatement::Local(local) => supported_local(local, scope, declared),
        SourceStatement::Expr { expression, .. } => supported_statement(
            expression,
            scope,
            declared,
        ),
        _ => false,
    }
}

/// The variables after a statement.
pub open spec fn after_step(
    statement: SourceStatement,
    declared: Map<Seq<char>, bool>,
) -> Map<Seq<char>, bool> {
    match statement {
        SourceStatement::Local(local) => match local_name(local) {
            Some((name, mutable)) => declared.insert(name, mutable),
            None => declared,
        },
        _ => declared,
    }
}

/// The variables after statements.
pub open spec fn after_steps(
    statements: Seq<SourceStatement>,
    declared: Map<Seq<char>, bool>,
) -> Map<Seq<char>, bool>
    decreases statements.len(),
{
    if statements.len() == 0 {
        declared
    } else {
        after_step(statements.last(), after_steps(statements.drop_last(), declared))
    }
}

/// Whether statements are in the device language, each with the variables of those before it.
pub open spec fn supported_steps(
    statements: Seq<SourceStatement>,
    scope: Outside,
    declared: Map<Seq<char>, bool>,
) -> bool
    decreases statements, 0nat,
{
    statements.len() == 0 || (supported_steps(statements.drop_last(), scope, declared)
        && supported_step(
        statements.last(),
        scope,
        after_steps(statements.drop_last(), declared),
    ))
}

/// Whether an expression can be the body of a map's closure: a value, or a block of statements that
/// ends with one.
pub open spec fn supported_body(expression: SourceExpr, scope: Outside) -> bool {
    match expression.kind {
        ExprKind::Block(block) => block.statements@.len() > 0 && {
            let before = block.statements@.drop_last();
            &&& supported_steps(before, scope, Map::empty())
            &&& match block.statements@.last() {
                SourceStatement::Expr { expression, semicolon } => {
                    &&& !semicolon
                    &&& !(expression.kind is ForLoop)
                    &&& supported_value(expression, scope, after_steps(before, Map::empty()))
                },
                _ => false,
            }
        },
        _ => supported_value(expression, scope, Map::empty()),
    }
}

/// Which variables are mutable.
pub open spec fn mutability(locals: Map<Seq<char>, LocalInfo>) -> Map<Seq<char>, bool> {
    locals.map_values(|info: LocalInfo| info.mutable)
}

/// A pattern that names one thing binds it by itself.
pub proof fn lemma_simple_name(pattern: SourcePattern)
    ensures
        pattern_ident(&pattern) matches Ok(ident) ==> simple_name(pattern) == Some(
            (ident.name@, is_mutable(pattern)),
        ),
        pattern_ident(&pattern) is Err ==> simple_name(pattern) is None,
    decreases pattern,
{
    match pattern.kind {
        PatternKind::Reference(inner) => lemma_simple_name(*inner),
        PatternKind::Paren(inner) => lemma_simple_name(*inner),
        PatternKind::Typed { pattern: inner, .. } => lemma_simple_name(*inner),
        _ => {},
    }
}

/// A type is taken as a scalar type where it is one.
pub proof fn lemma_scalar_type(ty: SourceType)
    ensures
        scalar_of(ty) is Some <==> is_scalar_type(ty),
{
    reveal_strlit("float");
    reveal_strlit("char");
    reveal_strlit("short");
    reveal_strlit("int");
    reveal_strlit("long");
    reveal_strlit("uchar");
    reveal_strlit("ushort");
    reveal_strlit("uint");
    reveal_strlit("ulong");
}

/// An integer is read where there is a literal, and is its value.
pub proof fn lemma_is_integer(expression: SourceExpr, limit: nat, otherwise: Problem)
    requires
        limit <= usize::MAX,
    ensures
        integer_of(expression, limit, otherwise) is Ok <==> is_integer(expression, limit),
        integer_of(expression, limit, otherwise) matches Ok(value) ==> value == integer(expression),
{
    if let ExprKind::Lit(literal) = expression.kind {
        if let LiteralKind::Int(digits) = literal.kind {
            law_numbers_are_digits(digits@, limit);
        }
    }
}

/// An expression names a tensor of a known rank where lowering finds one.
pub proof fn lemma_tensor(
    expression: SourceExpr,
    scope: Scope,
    locals: Map<Seq<char>, LocalInfo>,
)
    ensures
        is_tensor(expression, outside(scope), mutability(locals)) <==> (captured_tensor(
            expression,
            scope,
            locals,
        ) matches Some(tensor) && tensor.rank is Some),
        captured_tensor(expression, scope, locals) matches Some(tensor) ==> tensor.rank
            == outside(scope).tensors[name_of(expression)],
{
    assert(mutability(locals).dom() =~= locals.dom());
}

/// An index is an axis where lowering finds one.
pub proof fn lemma_axis(
    expression: SourceExpr,
    base: SourceExpr,
    index: SourceExpr,
    scope: Scope,
    locals: Map<Seq<char>, LocalInfo>,
)
    ensures
        ({
            let axis = indexed_axis(expression, base, index, scope, locals);
            let declared = mutability(locals);
            &&& axis is Ok <==> is_tensor_axis(base, index, outside(scope), declared)
                || is_logical_axis(base, index, outside(scope))
            &&& axis matches Ok(ExprView::PointAxis(_)) ==> scope.point == Some(name_of(base))
            &&& axis matches Ok(ExprView::ExtentAxis(_)) ==> scope.point != Some(name_of(base))
            &&& axis matches Ok(axis) ==> axis is PointAxis || axis is ExtentAxis
                || axis is CapturedAxis
            &&& (axis matches Ok(ExprView::CapturedAxis { .. })) <==> is_tensor_axis(
                base,
                index,
                outside(scope),
                declared,
            )
        }),
{
    lemma_is_integer(index, usize::MAX as nat, Problem::AxisNotLiteral);
    if let ExprKind::MethodCall { receiver, .. } = base.kind {
        lemma_tensor(*receiver, scope, locals);
    }
}

/// The operators that are lowered are those with a token, apart from those that assign.
pub proof fn lemma_operators(op: SourceBinaryOp)
    ensures
        binary_operator(op) is Some <==> rust_token(op).len() > 0 && !is_assignment(op),
        assignment_operator(op) is Some <==> is_assignment(op),
{
    reveal_strlit("+");
    reveal_strlit("-");
    reveal_strlit("*");
    reveal_strlit("/");
    reveal_strlit("%");
    reveal_strlit("^");
    reveal_strlit("&");
    reveal_strlit("|");
    reveal_strlit("<<");
    reveal_strlit(">>");
    reveal_strlit("==");
    reveal_strlit("!=");
    reveal_strlit("<");
    reveal_strlit("<=");
    reveal_strlit(">");
    reveal_strlit(">=");
    reveal_strlit("&&");
    reveal_strlit("||");
}

/// An expression is lowered where it is in the device language.
pub proof fn lemma_supported(
    expression: SourceExpr,
    scope: Scope,
    locals: Map<Seq<char>, LocalInfo>,
)
    ensures
        lowered(expression, scope, locals) is Ok <==> supported(
            expression,
            outside(scope),
            mutability(locals),
        ),
    decreases expression,
{
    let declared = mutability(locals);
    assert(declared.dom() =~= locals.dom());
    match expression.kind {
        ExprKind::Paren(inner) => lemma_supported(*inner, scope, locals),
        ExprKind::Group(inner) => lemma_supported(*inner, scope, locals),
        ExprKind::Unary { operand, .. } => lemma_supported(*operand, scope, locals),
        ExprKind::Binary { op, left, right, .. } => {
            lemma_operators(op);
            lemma_supported(*left, scope, locals);
            lemma_supported(*right, scope, locals);
        },
        ExprKind::Cast { operand, ty } => {
            lemma_scalar_type(ty);
            lemma_supported(*operand, scope, locals);
        },
        ExprKind::If { condition, then_branch, else_branch } => {
            if let Some(else_branch) = else_branch {
                lemma_supported(*condition, scope, locals);
                lemma_supported_block(then_branch, scope, locals);
                lemma_supported(*else_branch, scope, locals);
            }
        },
        ExprKind::Block(block) => lemma_supported_block(block, scope, locals),
        ExprKind::Call { function, arguments } => {
            lemma_all_supported(arguments@, scope, locals);
            if arguments@.len() == 1 {
                lemma_supported(arguments@[0], scope, locals);
                let before = arguments@.drop_last();
                assert(before =~= Seq::empty());
                assert(all_supported(before, outside(scope), declared));
                assert(all_supported(arguments@, outside(scope), declared) == supported(
                    arguments@[0],
                    outside(scope),
                    declared,
                ));
            }
        },
        ExprKind::Index { base, index } => {
            lemma_axis(expression, *base, *index, scope, locals);
            lemma_tensor(*base, scope, locals);
            if let ExprKind::Tuple(elements) = index.kind {
                lemma_all_supported(elements@, scope, locals);
            }
        },
        _ => {},
    }
}

/// A block is lowered to an expression where it is one of the device language.
pub proof fn lemma_supported_block(
    block: SourceBlock,
    scope: Scope,
    locals: Map<Seq<char>, LocalInfo>,
)
    ensures
        lowered_block(block, scope, locals) is Ok <==> supported_block(
            block,
            outside(scope),
            mutability(locals),
        ),
    decreases block,
{
    if block.statements@.len() == 1 {
        if let SourceStatement::Expr { expression, .. } = block.statements@[0] {
            lemma_supported(expression, scope, locals);
        }
    }
}

/// Expressions are lowered where all are in the device language.
pub proof fn lemma_all_supported(
    expressions: Seq<SourceExpr>,
    scope: Scope,
    locals: Map<Seq<char>, LocalInfo>,
)
    ensures
        lowered_all(expressions, scope, locals) is Ok <==> all_supported(
            expressions,
            outside(scope),
            mutability(locals),
        ),
        lowered_all(expressions, scope, locals) matches Ok(values) ==> values.len()
            == expressions.len(),
    decreases expressions,
{
    if expressions.len() > 0 {
        lemma_all_supported(expressions.drop_last(), scope, locals);
        lemma_supported(expressions.last(), scope, locals);
    }
}

/// A bound is found where an expression can bound a loop.
pub proof fn lemma_supported_bound(
    expression: SourceExpr,
    scope: Scope,
    locals: Map<Seq<char>, LocalInfo>,
)
    ensures
        bound_of(expression, scope, locals) is Ok <==> supported_bound(
            expression,
            outside(scope),
            mutability(locals),
        ),
        bound_of(expression, scope, locals) matches Ok(Bound::Literal(value)) ==> value == integer(
            expression,
        ) && is_integer(expression, u32::MAX as nat),
        is_integer(expression, u32::MAX as nat) ==> bound_of(expression, scope, locals) matches Ok(
            Bound::Literal(_),
        ),
{
    match expression.kind {
        ExprKind::Index { base, index } => lemma_axis(expression, *base, *index, scope, locals),
        _ => lemma_is_integer(expression, u32::MAX as nat, Problem::LoopBoundNotLiteral),
    }
}

/// A range is found where a loop can run over an expression.
pub proof fn lemma_supported_range(
    expression: SourceExpr,
    scope: Scope,
    locals: Map<Seq<char>, LocalInfo>,
)
    ensures
        range_of(expression, scope, locals) is Ok <==> supported_range(
            expression,
            outside(scope),
            mutability(locals),
        ),
    decreases expression,
{
    match expression.kind {
        ExprKind::Paren(inner) => lemma_supported_range(*inner, scope, locals),
        ExprKind::Group(inner) => lemma_supported_range(*inner, scope, locals),
        ExprKind::Range { start: Some(start), end: Some(end), .. } => {
            lemma_supported_bound(*start, scope, locals);
            lemma_supported_bound(*end, scope, locals);
        },
        _ => {},
    }
}

/// A variable is mutable as it is declared.
pub proof fn lemma_mutability(
    locals: Map<Seq<char>, LocalInfo>,
    name: Seq<char>,
    info: LocalInfo,
)
    ensures
        mutability(locals.insert(name, info)) == mutability(locals).insert(name, info.mutable),
{
    assert(mutability(locals.insert(name, info)) =~= mutability(locals).insert(
        name,
        info.mutable,
    ));
}

/// A sum is lowered where it is one of the device language.
pub proof fn lemma_supported_sum(
    receiver: SourceExpr,
    name: Seq<char>,
    ty: ScalarType,
    scope: Scope,
    locals: Map<Seq<char>, LocalInfo>,
)
    ensures
        lowered_sum(receiver, name, ty, scope, locals) is Ok <==> supported_sum(
            receiver,
            outside(scope),
            mutability(locals),
        ),
{
    if let ExprKind::MethodCall { receiver: range, arguments, .. } = receiver.kind {
        if arguments@.len() == 1 {
            if let ExprKind::Closure(closure) = arguments@[0].kind {
                if closure.inputs@.len() == 1 {
                    let pattern = closure.inputs@[0];
                    lemma_simple_name(pattern);
                    lemma_supported_range(*range, scope, locals);
                    if let Some((counter, _)) = simple_name(pattern) {
                        let info = LocalInfo { looped: true, mutable: false };
                        lemma_mutability(locals, counter, info);
                        lemma_supported(*closure.body, scope, loop_locals(counter, locals));
                    }
                }
            }
        }
    }
}

/// A variable is given a value where an expression can give it one.
pub proof fn lemma_supported_value(
    value: SourceExpr,
    name: Seq<char>,
    ty: ScalarType,
    scope: Scope,
    locals: Map<Seq<char>, LocalInfo>,
)
    ensures
        lowered_let(value, name, ty, scope, locals) is Ok <==> supported_value(
            value,
            outside(scope),
            mutability(locals),
        ),
{
    lemma_supported(value, scope, locals);
    if let ExprKind::MethodCall { receiver, .. } = value.kind {
        lemma_supported_sum(*receiver, name, ty, scope, locals);
    }
}

/// A `let` is lowered where it is one of the device language.
pub proof fn lemma_supported_local(
    local: SourceLocal,
    scope: Scope,
    locals: Map<Seq<char>, LocalInfo>,
)
    ensures
        lowered_local(local, scope, locals) is Ok <==> supported_local(
            local,
            outside(scope),
            mutability(locals),
        ),
        lowered_local(local, scope, locals) matches Ok((_, after)) ==> mutability(after)
            == after_step(SourceStatement::Local(local), mutability(locals)),
{
    assert(mutability(locals).dom() =~= locals.dom());
    if let PatternKind::Typed { pattern, ty } = local.pattern.kind {
        lemma_simple_name(*pattern);
        lemma_scalar_type(ty);
        if let Some((name, mutable)) = simple_name(*pattern) {
            lemma_mutability(locals, name, LocalInfo { looped: false, mutable });
            if let Some(initializer) = local.initializer {
                if let Some(scalar) = scalar_of(ty) {
                    lemma_supported_value(
                        initializer.value,
                        local_text(name),
                        scalar,
                        scope,
                        locals,
                    );
                }
            }
        }
    }
}

/// A variable can be assigned where it is declared as mutable.
pub proof fn lemma_target(expression: SourceExpr, locals: Map<Seq<char>, LocalInfo>)
    ensures
        target_of(expression, locals) is Ok <==> is_target(expression, mutability(locals)),
{
    assert(mutability(locals).dom() =~= locals.dom());
}

/// A statement is lowered where it is one of the device language.
pub proof fn lemma_supported_statement(
    expression: SourceExpr,
    scope: Scope,
    locals: Map<Seq<char>, LocalInfo>,
)
    ensures
        lowered_statement(expression, scope, locals) is Ok <==> supported_statement(
            expression,
            outside(scope),
            mutability(locals),
        ),
    decreases expression, 0nat,
{
    match expression.kind {
        ExprKind::Assign { left, right } => {
            lemma_target(*left, locals);
            lemma_supported(*right, scope, locals);
        },
        ExprKind::Binary { op, left, right, .. } => {
            lemma_operators(op);
            lemma_target(*left, locals);
            lemma_supported(*right, scope, locals);
        },
        ExprKind::ForLoop { pattern, range, body } => {
            lemma_simple_name(pattern);
            lemma_supported_range(*range, scope, locals);
            if let Some((name, _)) = simple_name(pattern) {
                let info = LocalInfo { looped: true, mutable: false };
                lemma_mutability(locals, name, info);
                lemma_supported_steps(body.statements@, scope, loop_locals(name, locals));
            }
        },
        ExprKind::MethodCall { receiver, arguments, .. } => {
            if arguments@.len() == 1 {
                if let ExprKind::Closure(closure) = arguments@[0].kind {
                    if closure.inputs@.len() == 1 {
                        let pattern = closure.inputs@[0];
                        lemma_simple_name(pattern);
                        lemma_supported_range(*receiver, scope, locals);
                        if let Some((name, _)) = simple_name(pattern) {
                            let info = LocalInfo { looped: true, mutable: false };
                            lemma_mutability(locals, name, info);
                            lemma_supported_loop_body(
                                *closure.body,
                                scope,
                                loop_locals(name, locals),
                            );
                        }
                    }
                }
            }
        },
        _ => {},
    }
}

/// The body of a loop's closure is lowered where it is in the device language.
pub proof fn lemma_supported_loop_body(
    expression: SourceExpr,
    scope: Scope,
    locals: Map<Seq<char>, LocalInfo>,
)
    ensures
        lowered_closure_body(expression, scope, locals) is Ok <==> supported_loop_body(
            expression,
            outside(scope),
            mutability(locals),
        ),
    decreases expression, 1nat,
{
    match expression.kind {
        ExprKind::Block(block) => lemma_supported_steps(block.statements@, scope, locals),
        _ => lemma_supported_statement(expression, scope, locals),
    }
}

/// A statement inside a loop is lowered where it is one of the device language.
pub proof fn lemma_supported_step(
    statement: SourceStatement,
    scope: Scope,
    locals: Map<Seq<char>, LocalInfo>,
)
    ensures
        lowered_step(statement, scope, locals) is Ok <==> supported_step(
            statement,
            outside(scope),
            mutability(locals),
        ),
        lowered_step(statement, scope, locals) matches Ok((_, after)) ==> mutability(after)
            == after_step(statement, mutability(locals)),
    decreases statement, 0nat,
{
    match statement {
        SourceStatement::Local(local) => lemma_supported_local(local, scope, locals),
        SourceStatement::Expr { expression, .. } => {
            lemma_supported_statement(expression, scope, locals);
        },
        _ => {},
    }
}

/// Statements inside a loop are lowered where they are in the device language.
pub proof fn lemma_supported_steps(
    statements: Seq<SourceStatement>,
    scope: Scope,
    locals: Map<Seq<char>, LocalInfo>,
)
    ensures
        lowered_statements(statements, scope, locals) is Ok <==> supported_steps(
            statements,
            outside(scope),
            mutability(locals),
        ),
        lowered_statements(statements, scope, locals) matches Ok((_, after)) ==> mutability(after)
            == after_steps(statements, mutability(locals)),
    decreases statements, 0nat,
{
    if statements.len() > 0 {
        let before = statements.drop_last();
        lemma_supported_steps(before, scope, locals);
        if let Ok((_, between)) = lowered_statements(before, scope, locals) {
            lemma_supported_step(statements.last(), scope, between);
        }
    }
}

/// The first statements of a map's block are lowered where they are in the device language.
pub proof fn lemma_supported_parts(
    statements: Seq<SourceStatement>,
    count: nat,
    scope: Scope,
)
    requires
        count < statements.len(),
    ensures
        ({
            let locals = Map::<Seq<char>, LocalInfo>::empty();
            let parts = lowered_parts(statements, count, scope, locals);
            let taken = statements.take(count as int);
            let declared = Map::<Seq<char>, bool>::empty();
            &&& parts is Ok <==> supported_steps(taken, outside(scope), declared)
            &&& parts matches Ok(parts) ==> parts.result is None && mutability(parts.locals)
                == after_steps(taken, declared)
        }),
    decreases count,
{
    let locals = Map::<Seq<char>, LocalInfo>::empty();
    let declared = Map::<Seq<char>, bool>::empty();
    assert(mutability(locals) =~= declared);
    let taken = statements.take(count as int);
    if count == 0 {
        assert(taken =~= Seq::empty());
    } else {
        let previous = (count - 1) as nat;
        lemma_supported_parts(statements, previous, scope);
        assert(taken.drop_last() =~= statements.take(previous as int));
        assert(taken.last() == statements[previous as int]);
        if let Ok(parts) = lowered_parts(statements, previous, scope, locals) {
            lemma_supported_step(statements[previous as int], scope, parts.locals);
        }
    }
}

/// The bodies that can be lowered are those of the device language: a body of a map's closure is
/// lowered where its syntax and the names in scope make it one, and refused otherwise.
pub proof fn law_the_language_is_lowered(expression: SourceExpr, scope: Scope)
    ensures
        lowered_body(expression, scope) is Ok <==> supported_body(expression, outside(scope)),
{
    let locals = Map::<Seq<char>, LocalInfo>::empty();
    let declared = Map::<Seq<char>, bool>::empty();
    assert(mutability(locals) =~= declared);
    match expression.kind {
        ExprKind::Block(block) => {
            let statements = block.statements@;
            if statements.len() > 0 {
                let previous = (statements.len() - 1) as nat;
                lemma_supported_parts(statements, previous, scope);
                assert(statements.take(previous as int) =~= statements.drop_last());
                if let Ok(parts) = lowered_parts(statements, previous, scope, locals) {
                    if let SourceStatement::Expr { expression, .. } = statements.last() {
                        lemma_supported_value(
                            expression,
                            "__pm_sum"@,
                            scope.output,
                            scope,
                            parts.locals,
                        );
                        lemma_supported(expression, scope, parts.locals);
                    }
                }
            }
        },
        _ => {
            lemma_supported_value(expression, "__pm_sum"@, scope.output, scope, locals);
            lemma_supported(expression, scope, locals);
        },
    }
}

/// The expressions that can be lowered are those of the device language.
pub proof fn law_supported_expressions_are_lowered(
    expression: SourceExpr,
    scope: Scope,
    locals: Map<Seq<char>, LocalInfo>,
)
    ensures
        lowered(expression, scope, locals) is Ok <==> supported(
            expression,
            outside(scope),
            locals.map_values(|info: LocalInfo| info.mutable),
        ),
{
    lemma_supported(expression, scope, locals);
}

/// The statements of a loop that can be lowered are those of the device language, and each leaves
/// the variables that it declares.
pub proof fn law_supported_statements_are_lowered(
    statements: Seq<SourceStatement>,
    scope: Scope,
    locals: Map<Seq<char>, LocalInfo>,
)
    ensures
        ({
            let declared = locals.map_values(|info: LocalInfo| info.mutable);
            &&& lowered_statements(statements, scope, locals) is Ok <==> supported_steps(
                statements,
                outside(scope),
                declared,
            )
            &&& lowered_statements(statements, scope, locals) matches Ok((_, after))
                ==> after.map_values(|info: LocalInfo| info.mutable) == after_steps(
                statements,
                declared,
            )
        }),
{
    lemma_supported_steps(statements, scope, locals);
}

} // verus!
