//! What is wrong with Rust that the device language does not take: the first thing that is wrong,
//! and the tokens that it is about.
use vstd::prelude::*;

use crate::diagnostic::{Diagnostic, Problem};
use crate::language::{
    after_steps, all_supported, integer, is_integer, is_math, is_name, is_scalar_type, is_target,
    is_value, lemma_all_supported, lemma_is_integer, lemma_mutability, lemma_operators,
    lemma_scalar_type, lemma_simple_name, lemma_supported, lemma_supported_block,
    lemma_supported_bound, lemma_supported_parts, lemma_supported_range, lemma_supported_step,
    lemma_supported_steps, lemma_target, mutability, name_of, outside, simple_name, supported,
    supported_block, supported_bound, supported_range, supported_step, supported_steps, Outside,
};
use crate::lower::{
    bound_of, captured_tensor, indexed_axis, loop_locals, lowered, lowered_all, lowered_block,
    lowered_body, lowered_closure_body, lowered_let, lowered_local, lowered_parts,
    lowered_statement, lowered_statements, lowered_step, lowered_sum, range_of, target_of,
    LocalInfo, Scope,
};
use crate::meaning::{is_assignment, rust_token};
use crate::names::local_text;
use crate::source::{
    ExprKind, LiteralKind, PatternKind, SourceBlock, SourceExpr, SourceLocal, SourcePattern,
    SourceStatement, Span,
};
use crate::syntax::{integer_of, pattern_ident, scalar_of};
use crate::text::{
    all_digits, digits_number, digits_value, law_digits_are_read_by_value, without_plus,
    NumberError,
};
use crate::types::ScalarType;

verus! {

/// A problem with the tokens of a span.
pub open spec fn at(span: Span, problem: Problem) -> Diagnostic {
    Diagnostic { span, problem }
}

/// Whether some digits from the first on lead past a limit.
pub open spec fn leads_past(digits: Seq<char>, limit: nat) -> bool {
    exists|count: int|
        0 <= count <= digits.len() && all_digits(#[trigger] digits.take(count)) && digits_value(
            digits.take(count),
        ) > limit
}

/// Why a text is no number of at most a limit: it is empty, a part of it from its first digit on
/// already leads past the limit, or something in it is no digit.
pub open spec fn number_complaint(text: Seq<char>, limit: nat) -> NumberError {
    let digits = without_plus(text);
    if text.len() == 0 {
        NumberError::Empty
    } else if leads_past(digits, limit) {
        NumberError::TooLarge
    } else {
        NumberError::InvalidDigit
    }
}

/// What is wrong with an expression that should be an integer literal of at most a limit.
pub open spec fn integer_complaint(
    expression: SourceExpr,
    limit: nat,
    otherwise: Problem,
) -> Diagnostic {
    match expression.kind {
        ExprKind::Lit(literal) => match literal.kind {
            LiteralKind::Int(digits) => at(
                literal.span,
                Problem::Number(number_complaint(digits@, limit)),
            ),
            _ => at(expression.span, otherwise),
        },
        _ => at(expression.span, otherwise),
    }
}

/// What is wrong with a pattern that should bind one name.
pub open spec fn pattern_complaint(pattern: SourcePattern) -> Diagnostic
    decreases pattern,
{
    match pattern.kind {
        PatternKind::Reference(inner) => pattern_complaint(*inner),
        PatternKind::Paren(inner) => pattern_complaint(*inner),
        PatternKind::Typed { pattern: inner, .. } => pattern_complaint(*inner),
        _ => at(pattern.span, Problem::NotSimplePattern),
    }
}

/// The tokens of the name that a pattern binds.
pub open spec fn name_span(pattern: SourcePattern) -> Span
    decreases pattern,
{
    match pattern.kind {
        PatternKind::Ident { ident, .. } => ident.span,
        PatternKind::Reference(inner) => name_span(*inner),
        PatternKind::Paren(inner) => name_span(*inner),
        PatternKind::Typed { pattern: inner, .. } => name_span(*inner),
        _ => pattern.span,
    }
}

/// Whether an expression names a tensor that nothing inside the closure hides.
pub open spec fn names_tensor(
    expression: SourceExpr,
    scope: Outside,
    declared: Map<Seq<char>, bool>,
) -> bool {
    &&& is_name(expression)
    &&& !expression.kind->Path_0.qualified
    &&& !is_value(name_of(expression), scope, declared)
    &&& scope.point != Some(name_of(expression))
    &&& scope.tensors.dom().contains(name_of(expression))
}

/// Whether an expression asks for the extent of a tensor.
pub open spec fn asks_for_extent(
    expression: SourceExpr,
    scope: Outside,
    declared: Map<Seq<char>, bool>,
) -> bool {
    match expression.kind {
        ExprKind::MethodCall { receiver, method, arguments, .. } => method@ == "extent"@
            && arguments@.len() == 0 && names_tensor(*receiver, scope, declared),
        _ => false,
    }
}

/// What is wrong with `base[index]`, where it should be an axis.
pub open spec fn axis_complaint(
    expression: SourceExpr,
    base: SourceExpr,
    index: SourceExpr,
    scope: Outside,
    declared: Map<Seq<char>, bool>,
) -> Diagnostic {
    let literal = is_integer(index, usize::MAX as nat);
    let axis = integer(index) as usize;
    let not_literal = integer_complaint(index, usize::MAX as nat, Problem::AxisNotLiteral);
    if asks_for_extent(base, scope, declared) {
        match scope.tensors[name_of(*base.kind->MethodCall_receiver)] {
            _ if !literal => not_literal,
            None => at(expression.span, Problem::RankNotLiteral),
            Some(rank) => at(index.span, Problem::AxisOutOfBounds { axis, rank }),
        }
    } else if !(base.kind is Path) {
        at(expression.span, Problem::IndexedNotPath)
    } else if !is_name(base) {
        at(base.span, Problem::IndexedNotSimple)
    } else if !literal {
        not_literal
    } else {
        match scope.rank {
            None => at(expression.span, Problem::NoLogicalPoints),
            Some(rank) => if axis >= rank {
                at(index.span, Problem::AxisOutOfBounds { axis, rank })
            } else {
                at(expression.span, Problem::IndexedUnknown)
            },
        }
    }
}

/// What is wrong with an expression that is not in the device language: the first thing, from left
/// to right.
pub open spec fn complaint(
    expression: SourceExpr,
    scope: Outside,
    declared: Map<Seq<char>, bool>,
) -> Diagnostic
    decreases expression,
{
    match expression.kind {
        ExprKind::Path(path) => if !path.qualified && is_name(expression) {
            at(expression.span, Problem::UnknownValue)
        } else {
            at(expression.span, Problem::UnsupportedExpression)
        },
        ExprKind::Lit(literal) => at(literal.span, Problem::UnsupportedLiteral),
        ExprKind::Paren(inner) => complaint(*inner, scope, declared),
        ExprKind::Group(inner) => complaint(*inner, scope, declared),
        ExprKind::Unary { op, operand } => if op is Other {
            at(expression.span, Problem::UnsupportedUnary)
        } else {
            complaint(*operand, scope, declared)
        },
        ExprKind::Binary { op, op_span, left, right } => if is_assignment(op) || rust_token(
            op,
        ).len() == 0 {
            at(op_span, Problem::AssignmentOperator)
        } else if !supported(*left, scope, declared) {
            complaint(*left, scope, declared)
        } else {
            complaint(*right, scope, declared)
        },
        ExprKind::Cast { operand, ty } => if !is_scalar_type(ty) {
            at(ty.span, Problem::UnsupportedCast)
        } else {
            complaint(*operand, scope, declared)
        },
        ExprKind::If { condition, then_branch, else_branch } => match else_branch {
            None => at(expression.span, Problem::IfWithoutElse),
            Some(else_branch) => if !supported(*condition, scope, declared) {
                complaint(*condition, scope, declared)
            } else if !supported_block(then_branch, scope, declared) {
                block_complaint(then_branch, scope, declared)
            } else {
                complaint(*else_branch, scope, declared)
            },
        },
        ExprKind::Block(block) => block_complaint(block, scope, declared),
        ExprKind::Call { function, arguments } => if !is_name(*function) {
            at(function.span, Problem::IntrinsicNotSimple)
        } else if !is_math(*function) {
            at(expression.span, Problem::UnknownIntrinsic)
        } else if !all_supported(arguments@, scope, declared) {
            first_complaint(arguments@, scope, declared)
        } else {
            at(expression.span, Problem::IntrinsicArguments)
        },
        ExprKind::Index { base, index } => match index.kind {
            ExprKind::Tuple(elements) => if !names_tensor(*base, scope, declared) {
                axis_complaint(expression, *base, *index, scope, declared)
            } else if !all_supported(elements@, scope, declared) {
                first_complaint(elements@, scope, declared)
            } else {
                match scope.tensors[name_of(*base)] {
                    None => at(expression.span, Problem::RankNotLiteral),
                    Some(rank) => at(
                        index.span,
                        Problem::CoordinateCount { coordinates: elements@.len() as usize, rank },
                    ),
                }
            },
            _ => axis_complaint(expression, *base, *index, scope, declared),
        },
        ExprKind::MethodCall { method, arguments, .. } => if method@ == "sum"@ && arguments@.len()
            == 0 {
            at(expression.span, Problem::SumPosition)
        } else {
            at(expression.span, Problem::UnsupportedExpression)
        },
        _ => at(expression.span, Problem::UnsupportedExpression),
    }
}

/// What is wrong with a block that should be one expression.
pub open spec fn block_complaint(
    block: SourceBlock,
    scope: Outside,
    declared: Map<Seq<char>, bool>,
) -> Diagnostic
    decreases block,
{
    if block.statements@.len() != 1 {
        at(block.span, Problem::NotOneChain)
    } else {
        match block.statements@[0] {
            SourceStatement::Expr { expression, semicolon } => if semicolon {
                at(block.span, Problem::NotOneChain)
            } else {
                complaint(expression, scope, declared)
            },
            _ => at(block.span, Problem::NotOneChain),
        }
    }
}

/// What is wrong with the first of some expressions that is not in the device language.
pub open spec fn first_complaint(
    expressions: Seq<SourceExpr>,
    scope: Outside,
    declared: Map<Seq<char>, bool>,
) -> Diagnostic
    decreases expressions,
{
    if expressions.len() == 0 {
        arbitrary()
    } else if !all_supported(expressions.drop_last(), scope, declared) {
        first_complaint(expressions.drop_last(), scope, declared)
    } else {
        complaint(expressions.last(), scope, declared)
    }
}

/// What is wrong with an expression that should bound a loop.
pub open spec fn bound_complaint(expression: SourceExpr) -> Diagnostic {
    match expression.kind {
        ExprKind::Index { .. } => at(expression.span, Problem::LoopBoundNotLiteral),
        _ => integer_complaint(expression, u32::MAX as nat, Problem::LoopBoundNotLiteral),
    }
}

/// What is wrong with an expression that should be a range.
pub open spec fn range_complaint(
    expression: SourceExpr,
    scope: Outside,
    declared: Map<Seq<char>, bool>,
) -> Diagnostic
    decreases expression,
{
    match expression.kind {
        ExprKind::Paren(inner) => range_complaint(*inner, scope, declared),
        ExprKind::Group(inner) => range_complaint(*inner, scope, declared),
        ExprKind::Range { start: Some(start), end: Some(end), .. } => if !supported_bound(
            *start,
            scope,
            declared,
        ) {
            bound_complaint(*start)
        } else if !supported_bound(*end, scope, declared) {
            bound_complaint(*end)
        } else if is_integer(*end, u32::MAX as nat) {
            at(expression.span, Problem::InclusiveRangeAtMaximum)
        } else {
            at(expression.span, Problem::InclusiveRangeNotLiteral)
        },
        _ => at(expression.span, Problem::UnboundedRange),
    }
}

/// What is wrong with an expression that should be a variable to assign.
pub open spec fn target_complaint(
    expression: SourceExpr,
    declared: Map<Seq<char>, bool>,
) -> Diagnostic {
    if !is_name(expression) {
        at(expression.span, Problem::TargetNotLocal)
    } else if !declared.dom().contains(name_of(expression)) {
        at(expression.span, Problem::TargetUnknown)
    } else {
        at(expression.span, Problem::TargetImmutable)
    }
}

/// What is wrong with a loop over a range by a pattern, where its body is as it should be.
pub open spec fn head_complaint(
    pattern: SourcePattern,
    range: SourceExpr,
    scope: Outside,
    declared: Map<Seq<char>, bool>,
) -> Diagnostic {
    if simple_name(pattern) is None {
        pattern_complaint(pattern)
    } else {
        range_complaint(range, scope, declared)
    }
}

/// Whether the pattern and the range of a loop are as they should be.
pub open spec fn head_supported(
    pattern: SourcePattern,
    range: SourceExpr,
    scope: Outside,
    declared: Map<Seq<char>, bool>,
) -> bool {
    simple_name(pattern) is Some && supported_range(range, scope, declared)
}

/// The variables inside a loop whose counter a pattern names.
pub open spec fn inside(
    pattern: SourcePattern,
    declared: Map<Seq<char>, bool>,
) -> Map<Seq<char>, bool> {
    match simple_name(pattern) {
        Some((name, _)) => declared.insert(name, false),
        None => declared,
    }
}

/// What is wrong with what `sum()` is called on.
pub open spec fn sum_complaint(
    receiver: SourceExpr,
    scope: Outside,
    declared: Map<Seq<char>, bool>,
) -> Diagnostic {
    match receiver.kind {
        ExprKind::MethodCall { receiver: range, method, arguments, .. } => if method@ != "map"@
            || arguments@.len() != 1 {
            at(receiver.span, Problem::SumChain)
        } else {
            match arguments@[0].kind {
                ExprKind::Closure(closure) => if closure.inputs@.len() != 1 {
                    at(closure.inputs_span, Problem::SumChain)
                } else if !head_supported(closure.inputs@[0], *range, scope, declared) {
                    head_complaint(closure.inputs@[0], *range, scope, declared)
                } else {
                    complaint(*closure.body, scope, inside(closure.inputs@[0], declared))
                },
                _ => at(receiver.span, Problem::SumChain),
            }
        },
        _ => at(receiver.span, Problem::SumChain),
    }
}

/// What is wrong with an expression that should give a variable, or the output, its value.
pub open spec fn value_complaint(
    expression: SourceExpr,
    scope: Outside,
    declared: Map<Seq<char>, bool>,
) -> Diagnostic {
    match expression.kind {
        ExprKind::MethodCall { receiver, method, arguments, .. } => if method@ == "sum"@
            && arguments@.len() == 0 {
            sum_complaint(*receiver, scope, declared)
        } else {
            complaint(expression, scope, declared)
        },
        _ => complaint(expression, scope, declared),
    }
}

/// What is wrong with a `let`.
pub open spec fn local_complaint(
    local: SourceLocal,
    scope: Outside,
    declared: Map<Seq<char>, bool>,
) -> Diagnostic {
    match local.pattern.kind {
        PatternKind::Typed { pattern, ty } => match simple_name(*pattern) {
            None => pattern_complaint(*pattern),
            Some((name, _)) => if declared.dom().contains(name) {
                at(name_span(*pattern), Problem::ShadowedLocal)
            } else if !is_scalar_type(ty) {
                at(ty.span, Problem::LocalNotScalar)
            } else {
                match local.initializer {
                    None => at(local.span, Problem::LocalWithoutInitializer),
                    Some(initializer) => if initializer.diverges {
                        at(initializer.value.span, Problem::LetElse)
                    } else {
                        value_complaint(initializer.value, scope, declared)
                    },
                }
            },
        },
        _ => at(local.pattern.span, Problem::UntypedLocal),
    }
}

/// What is wrong with an expression that should be a statement.
pub open spec fn statement_complaint(
    expression: SourceExpr,
    scope: Outside,
    declared: Map<Seq<char>, bool>,
) -> Diagnostic
    decreases expression, 0nat,
{
    match expression.kind {
        ExprKind::Assign { left, right } => if !is_target(*left, declared) {
            target_complaint(*left, declared)
        } else {
            complaint(*right, scope, declared)
        },
        ExprKind::Binary { op, left, right, .. } => if !is_assignment(op) {
            at(expression.span, Problem::BinaryStatement)
        } else if !is_target(*left, declared) {
            target_complaint(*left, declared)
        } else {
            complaint(*right, scope, declared)
        },
        ExprKind::ForLoop { pattern, range, body } => if !head_supported(
            pattern,
            *range,
            scope,
            declared,
        ) {
            head_complaint(pattern, *range, scope, declared)
        } else {
            steps_complaint(body.statements@, scope, inside(pattern, declared))
        },
        ExprKind::MethodCall { receiver, method, arguments, arguments_span } => if method@
            != "for_each"@ {
            at(expression.span, Problem::UnsupportedStatement)
        } else if arguments@.len() != 1 {
            at(arguments_span, Problem::ForEachArguments)
        } else {
            match arguments@[0].kind {
                ExprKind::Closure(closure) => if closure.inputs@.len() != 1 {
                    at(closure.inputs_span, Problem::ForEachInputs)
                } else if !head_supported(closure.inputs@[0], *receiver, scope, declared) {
                    head_complaint(closure.inputs@[0], *receiver, scope, declared)
                } else {
                    loop_body_complaint(
                        *closure.body,
                        scope,
                        inside(closure.inputs@[0], declared),
                    )
                },
                _ => at(arguments@[0].span, Problem::ForEachNotClosure),
            }
        },
        _ => at(expression.span, Problem::UnsupportedStatement),
    }
}

/// What is wrong with the body of a `for_each` closure.
pub open spec fn loop_body_complaint(
    expression: SourceExpr,
    scope: Outside,
    declared: Map<Seq<char>, bool>,
) -> Diagnostic
    decreases expression, 1nat,
{
    match expression.kind {
        ExprKind::Block(block) => steps_complaint(block.statements@, scope, declared),
        _ => statement_complaint(expression, scope, declared),
    }
}

/// What is wrong with a statement inside a loop.
pub open spec fn step_complaint(
    statement: SourceStatement,
    scope: Outside,
    declared: Map<Seq<char>, bool>,
) -> Diagnostic
    decreases statement, 0nat,
{
    match statement {
        SourceStatement::Local(local) => local_complaint(local, scope, declared),
        SourceStatement::Expr { expression, .. } => statement_complaint(
            expression,
            scope,
            declared,
        ),
        SourceStatement::Item(span) => at(span, Problem::ItemInLoop),
        SourceStatement::Macro(span) => at(span, Problem::MacroInLoop),
    }
}

/// What is wrong with the first statement inside a loop that is not in the device language.
pub open spec fn steps_complaint(
    statements: Seq<SourceStatement>,
    scope: Outside,
    declared: Map<Seq<char>, bool>,
) -> Diagnostic
    decreases statements, 0nat,
{
    if statements.len() == 0 {
        arbitrary()
    } else if !supported_steps(statements.drop_last(), scope, declared) {
        steps_complaint(statements.drop_last(), scope, declared)
    } else {
        step_complaint(
            statements.last(),
            scope,
            after_steps(statements.drop_last(), declared),
        )
    }
}

/// What is wrong with a statement of a map's block.
pub open spec fn part_complaint(
    statement: SourceStatement,
    scope: Outside,
    declared: Map<Seq<char>, bool>,
) -> Diagnostic {
    match statement {
        SourceStatement::Item(span) => at(span, Problem::ItemInMapBlock),
        SourceStatement::Macro(span) => at(span, Problem::MacroInMapBlock),
        _ => step_complaint(statement, scope, declared),
    }
}

/// What is wrong with the first of some statements of a map's block that is not in the device
/// language.
pub open spec fn parts_complaint(statements: Seq<SourceStatement>, scope: Outside) -> Diagnostic
    decreases statements.len(),
{
    if statements.len() == 0 {
        arbitrary()
    } else if !supported_steps(statements.drop_last(), scope, Map::empty()) {
        parts_complaint(statements.drop_last(), scope)
    } else {
        part_complaint(
            statements.last(),
            scope,
            after_steps(statements.drop_last(), Map::empty()),
        )
    }
}

/// What is wrong with the body of a map's closure.
pub open spec fn body_complaint(expression: SourceExpr, scope: Outside) -> Diagnostic {
    match expression.kind {
        ExprKind::Block(block) => {
            let statements = block.statements@;
            let before = statements.drop_last();
            let declared = after_steps(before, Map::empty());
            if statements.len() == 0 {
                at(block.span, Problem::MapBlockWithoutResult)
            } else if !supported_steps(before, scope, Map::empty()) {
                parts_complaint(before, scope)
            } else {
                match statements.last() {
                    SourceStatement::Expr { expression, semicolon: false } => if !(
                    expression.kind is ForLoop) {
                        value_complaint(expression, scope, declared)
                    } else if !supported_step(statements.last(), scope, declared) {
                        part_complaint(statements.last(), scope, declared)
                    } else {
                        at(block.span, Problem::MapBlockWithoutResult)
                    },
                    _ => if !supported_step(statements.last(), scope, declared) {
                        part_complaint(statements.last(), scope, declared)
                    } else {
                        at(block.span, Problem::MapBlockWithoutResult)
                    },
                }
            }
        },
        _ => value_complaint(expression, scope, Map::empty()),
    }
}

proof fn lemma_leads_past(digits: Seq<char>, limit: nat)
    requires
        digits.len() > 0,
    ensures
        leads_past(digits, limit) <==> leads_past(digits.drop_last(), limit) || (all_digits(digits)
            && digits_value(digits) > limit),
{
    let shorter = digits.drop_last();
    assert(digits.take(digits.len() as int) =~= digits);
    if leads_past(shorter, limit) {
        let count = choose|count: int|
            0 <= count <= shorter.len() && all_digits(#[trigger] shorter.take(count))
                && digits_value(shorter.take(count)) > limit;
        assert(digits.take(count) =~= shorter.take(count));
        assert(all_digits(digits.take(count)));
    }
    if leads_past(digits, limit) {
        let count = choose|count: int|
            0 <= count <= digits.len() && all_digits(#[trigger] digits.take(count)) && digits_value(
                digits.take(count),
            ) > limit;
        if count < digits.len() {
            assert(digits.take(count) =~= shorter.take(count));
            assert(all_digits(shorter.take(count)));
        }
    }
}

proof fn lemma_all_digits(digits: Seq<char>)
    requires
        digits.len() > 0,
    ensures
        all_digits(digits) <==> all_digits(digits.drop_last()) && '0' <= digits.last() <= '9',
{
    let shorter = digits.drop_last();
    if all_digits(shorter) && '0' <= digits.last() <= '9' {
        assert forall|i: int| 0 <= i < digits.len() implies '0' <= #[trigger] digits[i] <= '9' by {
            if i < shorter.len() {
                assert(shorter[i] == digits[i]);
            }
        }
    }
    if all_digits(digits) {
        assert forall|i: int| 0 <= i < shorter.len() implies '0' <= #[trigger] shorter[i]
            <= '9' by {
            assert(shorter[i] == digits[i]);
        }
        assert('0' <= digits[digits.len() - 1] <= '9');
    }
}

proof fn lemma_digits_complaint(digits: Seq<char>, limit: nat)
    ensures
        digits_number(digits, limit) matches Err(error) ==> error == if leads_past(
            digits,
            limit,
        ) {
            NumberError::TooLarge
        } else {
            NumberError::InvalidDigit
        },
        digits_number(digits, limit) matches Ok(value) ==> value == digits_value(digits)
            && all_digits(digits) && !leads_past(digits, limit),
    decreases digits.len(),
{
    if digits.len() > 0 {
        lemma_digits_complaint(digits.drop_last(), limit);
        lemma_leads_past(digits, limit);
        lemma_all_digits(digits);
        if all_digits(digits) {
            law_digits_are_read_by_value(digits, limit);
        }
    } else {
        assert forall|count: int| 0 <= count <= digits.len() implies digits_value(
            #[trigger] digits.take(count),
        ) == 0 by {}
    }
}

/// An integer that is not read is refused for what is wrong with it.
pub proof fn lemma_integer_complaint(expression: SourceExpr, limit: nat, otherwise: Problem)
    ensures
        integer_of(expression, limit, otherwise) matches Err(diagnostic) ==> diagnostic
            == integer_complaint(expression, limit, otherwise),
{
    if let ExprKind::Lit(literal) = expression.kind {
        if let LiteralKind::Int(digits) = literal.kind {
            let rest = without_plus(digits@);
            lemma_digits_complaint(rest, limit);
            if rest.len() == 0 {
                assert forall|count: int| 0 <= count <= rest.len() implies digits_value(
                    #[trigger] rest.take(count),
                ) == 0 by {}
            }
        }
    }
}

/// A pattern that binds no name by itself is refused for what is wrong with it.
pub proof fn lemma_pattern_complaint(pattern: SourcePattern)
    ensures
        pattern_ident(&pattern) matches Err(diagnostic) ==> diagnostic == pattern_complaint(
            pattern,
        ),
        pattern_ident(&pattern) matches Ok(ident) ==> ident.span == name_span(pattern),
    decreases pattern,
{
    match pattern.kind {
        PatternKind::Reference(inner) => lemma_pattern_complaint(*inner),
        PatternKind::Paren(inner) => lemma_pattern_complaint(*inner),
        PatternKind::Typed { pattern: inner, .. } => lemma_pattern_complaint(*inner),
        _ => {},
    }
}

proof fn lemma_names_tensor(
    expression: SourceExpr,
    scope: Scope,
    locals: Map<Seq<char>, LocalInfo>,
)
    ensures
        captured_tensor(expression, scope, locals) is Some <==> names_tensor(
            expression,
            outside(scope),
            mutability(locals),
        ),
        captured_tensor(expression, scope, locals) matches Some(tensor) ==> tensor.rank
            == outside(scope).tensors[name_of(expression)],
{
    assert(mutability(locals).dom() =~= locals.dom());
}

proof fn lemma_axis_complaint(
    expression: SourceExpr,
    base: SourceExpr,
    index: SourceExpr,
    scope: Scope,
    locals: Map<Seq<char>, LocalInfo>,
)
    ensures
        indexed_axis(expression, base, index, scope, locals) matches Err(diagnostic) ==> diagnostic
            == axis_complaint(expression, base, index, outside(scope), mutability(locals)),
{
    lemma_is_integer(index, usize::MAX as nat, Problem::AxisNotLiteral);
    lemma_integer_complaint(index, usize::MAX as nat, Problem::AxisNotLiteral);
    if let ExprKind::MethodCall { receiver, .. } = base.kind {
        lemma_names_tensor(*receiver, scope, locals);
    }
}

proof fn lemma_complaint(
    expression: SourceExpr,
    scope: Scope,
    locals: Map<Seq<char>, LocalInfo>,
)
    ensures
        lowered(expression, scope, locals) matches Err(diagnostic) ==> diagnostic == complaint(
            expression,
            outside(scope),
            mutability(locals),
        ),
    decreases expression,
{
    let declared = mutability(locals);
    match expression.kind {
        ExprKind::Paren(inner) => lemma_complaint(*inner, scope, locals),
        ExprKind::Group(inner) => lemma_complaint(*inner, scope, locals),
        ExprKind::Unary { operand, .. } => lemma_complaint(*operand, scope, locals),
        ExprKind::Binary { op, left, right, .. } => {
            lemma_operators(op);
            lemma_supported(*left, scope, locals);
            lemma_complaint(*left, scope, locals);
            lemma_complaint(*right, scope, locals);
        },
        ExprKind::Cast { operand, ty } => {
            lemma_scalar_type(ty);
            lemma_complaint(*operand, scope, locals);
        },
        ExprKind::If { condition, then_branch, else_branch } => {
            if let Some(else_branch) = else_branch {
                lemma_supported(*condition, scope, locals);
                lemma_complaint(*condition, scope, locals);
                lemma_supported_block(then_branch, scope, locals);
                lemma_block_complaint(then_branch, scope, locals);
                lemma_complaint(*else_branch, scope, locals);
            }
        },
        ExprKind::Block(block) => lemma_block_complaint(block, scope, locals),
        ExprKind::Call { arguments, .. } => {
            lemma_all_supported(arguments@, scope, locals);
            lemma_first_complaint(arguments@, scope, locals);
        },
        ExprKind::Index { base, index } => {
            lemma_axis_complaint(expression, *base, *index, scope, locals);
            lemma_names_tensor(*base, scope, locals);
            if let ExprKind::Tuple(elements) = index.kind {
                lemma_all_supported(elements@, scope, locals);
                lemma_first_complaint(elements@, scope, locals);
            }
        },
        _ => {},
    }
}

proof fn lemma_block_complaint(
    block: SourceBlock,
    scope: Scope,
    locals: Map<Seq<char>, LocalInfo>,
)
    ensures
        lowered_block(block, scope, locals) matches Err(diagnostic) ==> diagnostic
            == block_complaint(block, outside(scope), mutability(locals)),
    decreases block,
{
    if block.statements@.len() == 1 {
        if let SourceStatement::Expr { expression, .. } = block.statements@[0] {
            lemma_complaint(expression, scope, locals);
        }
    }
}

proof fn lemma_first_complaint(
    expressions: Seq<SourceExpr>,
    scope: Scope,
    locals: Map<Seq<char>, LocalInfo>,
)
    ensures
        lowered_all(expressions, scope, locals) matches Err(diagnostic) ==> diagnostic
            == first_complaint(expressions, outside(scope), mutability(locals)),
    decreases expressions,
{
    if expressions.len() > 0 {
        lemma_all_supported(expressions.drop_last(), scope, locals);
        lemma_first_complaint(expressions.drop_last(), scope, locals);
        lemma_complaint(expressions.last(), scope, locals);
    }
}

proof fn lemma_bound_complaint(
    expression: SourceExpr,
    scope: Scope,
    locals: Map<Seq<char>, LocalInfo>,
)
    ensures
        bound_of(expression, scope, locals) matches Err(diagnostic) ==> diagnostic
            == bound_complaint(expression),
{
    lemma_integer_complaint(expression, u32::MAX as nat, Problem::LoopBoundNotLiteral);
}

proof fn lemma_range_complaint(
    expression: SourceExpr,
    scope: Scope,
    locals: Map<Seq<char>, LocalInfo>,
)
    ensures
        range_of(expression, scope, locals) matches Err(diagnostic) ==> diagnostic
            == range_complaint(expression, outside(scope), mutability(locals)),
    decreases expression,
{
    match expression.kind {
        ExprKind::Paren(inner) => lemma_range_complaint(*inner, scope, locals),
        ExprKind::Group(inner) => lemma_range_complaint(*inner, scope, locals),
        ExprKind::Range { start: Some(start), end: Some(end), .. } => {
            lemma_supported_bound(*start, scope, locals);
            lemma_supported_bound(*end, scope, locals);
            lemma_bound_complaint(*start, scope, locals);
            lemma_bound_complaint(*end, scope, locals);
        },
        _ => {},
    }
}

proof fn lemma_target_complaint(expression: SourceExpr, locals: Map<Seq<char>, LocalInfo>)
    ensures
        target_of(expression, locals) matches Err(diagnostic) ==> diagnostic == target_complaint(
            expression,
            mutability(locals),
        ),
{
    assert(mutability(locals).dom() =~= locals.dom());
}

proof fn lemma_head(
    pattern: SourcePattern,
    range: SourceExpr,
    scope: Scope,
    locals: Map<Seq<char>, LocalInfo>,
)
    ensures
        ({
            let declared = mutability(locals);
            &&& pattern_ident(&pattern) is Ok <==> simple_name(pattern) is Some
            &&& pattern_ident(&pattern) matches Ok(ident) ==> inside(pattern, declared)
                == mutability(loop_locals(ident.name@, locals))
            &&& range_of(range, scope, locals) is Ok <==> supported_range(
                range,
                outside(scope),
                declared,
            )
            &&& pattern_ident(&pattern) matches Err(diagnostic) ==> diagnostic
                == head_complaint(pattern, range, outside(scope), declared)
            &&& pattern_ident(&pattern) is Ok && range_of(range, scope, locals) is Err
                ==> range_of(range, scope, locals)->Err_0 == head_complaint(
                pattern,
                range,
                outside(scope),
                declared,
            )
        }),
{
    lemma_simple_name(pattern);
    lemma_pattern_complaint(pattern);
    lemma_supported_range(range, scope, locals);
    lemma_range_complaint(range, scope, locals);
    if let Ok(ident) = pattern_ident(&pattern) {
        lemma_mutability(locals, ident.name@, LocalInfo { looped: true, mutable: false });
    }
}

proof fn lemma_sum_complaint(
    receiver: SourceExpr,
    name: Seq<char>,
    ty: ScalarType,
    scope: Scope,
    locals: Map<Seq<char>, LocalInfo>,
)
    ensures
        lowered_sum(receiver, name, ty, scope, locals) matches Err(diagnostic) ==> diagnostic
            == sum_complaint(receiver, outside(scope), mutability(locals)),
{
    if let ExprKind::MethodCall { receiver: range, arguments, .. } = receiver.kind {
        if arguments@.len() == 1 {
            if let ExprKind::Closure(closure) = arguments@[0].kind {
                if closure.inputs@.len() == 1 {
                    let pattern = closure.inputs@[0];
                    lemma_head(pattern, *range, scope, locals);
                    if let Ok(ident) = pattern_ident(&pattern) {
                        lemma_complaint(*closure.body, scope, loop_locals(ident.name@, locals));
                    }
                }
            }
        }
    }
}

proof fn lemma_value_complaint(
    value: SourceExpr,
    name: Seq<char>,
    ty: ScalarType,
    scope: Scope,
    locals: Map<Seq<char>, LocalInfo>,
)
    ensures
        lowered_let(value, name, ty, scope, locals) matches Err(diagnostic) ==> diagnostic
            == value_complaint(value, outside(scope), mutability(locals)),
{
    lemma_complaint(value, scope, locals);
    if let ExprKind::MethodCall { receiver, .. } = value.kind {
        lemma_sum_complaint(*receiver, name, ty, scope, locals);
    }
}

proof fn lemma_local_complaint(
    local: SourceLocal,
    scope: Scope,
    locals: Map<Seq<char>, LocalInfo>,
)
    ensures
        lowered_local(local, scope, locals) matches Err(diagnostic) ==> diagnostic
            == local_complaint(local, outside(scope), mutability(locals)),
{
    assert(mutability(locals).dom() =~= locals.dom());
    if let PatternKind::Typed { pattern, ty } = local.pattern.kind {
        lemma_simple_name(*pattern);
        lemma_pattern_complaint(*pattern);
        lemma_scalar_type(ty);
        if let Some((name, _)) = simple_name(*pattern) {
            if let Some(initializer) = local.initializer {
                if let Some(scalar) = scalar_of(ty) {
                    lemma_value_complaint(
                        initializer.value,
                        local_text(name),
                        scalar,
                        scope,
                        locals,
                    );
                }
            }
        }
    }
}

proof fn lemma_statement_complaint(
    expression: SourceExpr,
    scope: Scope,
    locals: Map<Seq<char>, LocalInfo>,
)
    ensures
        lowered_statement(expression, scope, locals) matches Err(diagnostic) ==> diagnostic
            == statement_complaint(expression, outside(scope), mutability(locals)),
    decreases expression, 0nat,
{
    match expression.kind {
        ExprKind::Assign { left, right } => {
            lemma_target(*left, locals);
            lemma_target_complaint(*left, locals);
            lemma_complaint(*right, scope, locals);
        },
        ExprKind::Binary { op, left, right, .. } => {
            lemma_operators(op);
            lemma_target(*left, locals);
            lemma_target_complaint(*left, locals);
            lemma_complaint(*right, scope, locals);
        },
        ExprKind::ForLoop { pattern, range, body } => {
            lemma_head(pattern, *range, scope, locals);
            if let Ok(ident) = pattern_ident(&pattern) {
                lemma_steps_complaint(
                    body.statements@,
                    scope,
                    loop_locals(ident.name@, locals),
                );
            }
        },
        ExprKind::MethodCall { receiver, arguments, .. } => {
            if arguments@.len() == 1 {
                if let ExprKind::Closure(closure) = arguments@[0].kind {
                    if closure.inputs@.len() == 1 {
                        let pattern = closure.inputs@[0];
                        lemma_head(pattern, *receiver, scope, locals);
                        if let Ok(ident) = pattern_ident(&pattern) {
                            lemma_loop_body_complaint(
                                *closure.body,
                                scope,
                                loop_locals(ident.name@, locals),
                            );
                        }
                    }
                }
            }
        },
        _ => {},
    }
}

proof fn lemma_loop_body_complaint(
    expression: SourceExpr,
    scope: Scope,
    locals: Map<Seq<char>, LocalInfo>,
)
    ensures
        lowered_closure_body(expression, scope, locals) matches Err(diagnostic) ==> diagnostic
            == loop_body_complaint(expression, outside(scope), mutability(locals)),
    decreases expression, 1nat,
{
    match expression.kind {
        ExprKind::Block(block) => lemma_steps_complaint(block.statements@, scope, locals),
        _ => lemma_statement_complaint(expression, scope, locals),
    }
}

proof fn lemma_step_complaint(
    statement: SourceStatement,
    scope: Scope,
    locals: Map<Seq<char>, LocalInfo>,
)
    ensures
        lowered_step(statement, scope, locals) matches Err(diagnostic) ==> diagnostic
            == step_complaint(statement, outside(scope), mutability(locals)),
    decreases statement, 0nat,
{
    match statement {
        SourceStatement::Local(local) => lemma_local_complaint(local, scope, locals),
        SourceStatement::Expr { expression, .. } => {
            lemma_statement_complaint(expression, scope, locals);
        },
        _ => {},
    }
}

proof fn lemma_steps_complaint(
    statements: Seq<SourceStatement>,
    scope: Scope,
    locals: Map<Seq<char>, LocalInfo>,
)
    ensures
        lowered_statements(statements, scope, locals) matches Err(diagnostic) ==> diagnostic
            == steps_complaint(statements, outside(scope), mutability(locals)),
    decreases statements, 0nat,
{
    if statements.len() > 0 {
        let before = statements.drop_last();
        lemma_supported_steps(before, scope, locals);
        lemma_steps_complaint(before, scope, locals);
        if let Ok((_, between)) = lowered_statements(before, scope, locals) {
            lemma_step_complaint(statements.last(), scope, between);
        }
    }
}

proof fn lemma_parts_complaint(statements: Seq<SourceStatement>, count: nat, scope: Scope)
    requires
        count < statements.len(),
    ensures
        lowered_parts(
            statements,
            count,
            scope,
            Map::<Seq<char>, LocalInfo>::empty(),
        ) matches Err(diagnostic) ==> diagnostic == parts_complaint(
            statements.take(count as int),
            outside(scope),
        ),
    decreases count,
{
    let locals = Map::<Seq<char>, LocalInfo>::empty();
    assert(mutability(locals) =~= Map::empty());
    if count > 0 {
        let previous = (count - 1) as nat;
        let taken = statements.take(count as int);
        lemma_parts_complaint(statements, previous, scope);
        lemma_supported_parts(statements, previous, scope);
        assert(taken.drop_last() =~= statements.take(previous as int));
        assert(taken.last() == statements[previous as int]);
        if let Ok(parts) = lowered_parts(statements, previous, scope, locals) {
            lemma_step_complaint(statements[previous as int], scope, parts.locals);
        }
    }
}

/// A body that is refused is refused for the first thing that is wrong with it, and the diagnostic
/// points at the tokens of that thing.
pub proof fn law_refused_bodies_are_told_why(expression: SourceExpr, scope: Scope)
    ensures
        lowered_body(expression, scope) matches Err(diagnostic) ==> diagnostic == body_complaint(
            expression,
            outside(scope),
        ),
{
    let locals = Map::<Seq<char>, LocalInfo>::empty();
    assert(mutability(locals) =~= Map::empty());
    match expression.kind {
        ExprKind::Block(block) => {
            let statements = block.statements@;
            if statements.len() > 0 {
                let previous = (statements.len() - 1) as nat;
                lemma_supported_parts(statements, previous, scope);
                lemma_parts_complaint(statements, previous, scope);
                assert(statements.take(previous as int) =~= statements.drop_last());
                if let Ok(parts) = lowered_parts(statements, previous, scope, locals) {
                    lemma_supported_step(statements.last(), scope, parts.locals);
                    lemma_step_complaint(statements.last(), scope, parts.locals);
                    if let SourceStatement::Expr { expression, .. } = statements.last() {
                        lemma_value_complaint(
                            expression,
                            "__pm_sum"@,
                            scope.output,
                            scope,
                            parts.locals,
                        );
                        lemma_complaint(expression, scope, parts.locals);
                    }
                }
            }
        },
        _ => {
            lemma_value_complaint(expression, "__pm_sum"@, scope.output, scope, locals);
            lemma_complaint(expression, scope, locals);
        },
    }
}

/// An expression that is refused is refused for the first thing that is wrong with it.
pub proof fn law_refused_expressions_are_told_why(
    expression: SourceExpr,
    scope: Scope,
    locals: Map<Seq<char>, LocalInfo>,
)
    ensures
        lowered(expression, scope, locals) matches Err(diagnostic) ==> diagnostic == complaint(
            expression,
            outside(scope),
            mutability(locals),
        ),
{
    lemma_complaint(expression, scope, locals);
}

/// Statements of a loop that are refused are refused for the first thing that is wrong with them.
pub proof fn law_refused_statements_are_told_why(
    statements: Seq<SourceStatement>,
    scope: Scope,
    locals: Map<Seq<char>, LocalInfo>,
)
    ensures
        lowered_statements(statements, scope, locals) matches Err(diagnostic) ==> diagnostic
            == steps_complaint(statements, outside(scope), mutability(locals)),
{
    lemma_steps_complaint(statements, scope, locals);
}

} // verus!
