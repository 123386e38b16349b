//! Lowering the body of a map's closure to the device language.
use vstd::prelude::*;
use vstd::string::*;

use crate::diagnostic::{Diagnostic, Problem};
use crate::expr::{expr_views, lemma_expr_views, Capture, Expr, ExprView};
use crate::names::{
    local_msl_identifier, local_text, lookup, loop_msl_identifier, loop_text, scalar_msl_identifier,
    scalar_text, NameMap,
};
use crate::source::{
    ExprKind, LiteralKind, PatternKind, SourceBinaryOp, SourceBlock, SourceClosure, SourceExpr,
    SourceLocal, SourcePattern, SourceStatement, SourceUnaryOp, Span,
};
use crate::statement::{
    lemma_statement_views, statement_views, AssignOp, Bound, DeviceBlock, DeviceBlockView,
    Statement, StatementView,
};
use crate::syntax::{
    integer_of, only_tail_expression, parse_integer, parse_scalar_type, pattern_ident, problem_at,
    report, scalar_of, simple_pat_ident,
};
use crate::text::same_text;
use crate::types::{BinaryOp, ScalarType, UnaryOp};

verus! {

/// A variable of the device code.
#[derive(Debug, Clone, Copy, PartialEq, Eq, Structural)]
pub struct LocalInfo {
    /// Whether a loop declares the variable, and not a `let`.
    pub looped: bool,
    pub mutable: bool,
}

/// The name that a variable has in the kernel.
pub open spec fn variable_text(name: Seq<char>, info: LocalInfo) -> Seq<char> {
    if info.looped {
        loop_text(name)
    } else {
        local_text(name)
    }
}

fn variable_msl_identifier(name: &str, info: LocalInfo) -> (text: String)
    ensures
        text@ == variable_text(name@, info),
{
    if info.looped {
        loop_msl_identifier(name)
    } else {
        local_msl_identifier(name)
    }
}

/// A tensor that the body may read at coordinates of its own choice.
#[derive(Debug, Clone, Copy, PartialEq, Eq, Structural)]
pub struct CapturedTensor {
    pub capture: Capture,
    /// The rank of the tensor, where it is written as a literal.
    pub rank: Option<usize>,
}

/// What the names outside the body stand for.
pub struct DeviceContext<'a> {
    /// Elements, by the index of their input.
    pub bindings: &'a NameMap<usize>,
    /// The point as a whole.
    pub point_binding: Option<&'a str>,
    /// Coordinates of the point, by their axis.
    pub point_axes: &'a NameMap<usize>,
    /// The extents that the body may index.
    pub extent_names: &'a Vec<String>,
    /// The rank of the point, where there is one.
    pub logical_rank: Option<usize>,
    pub scalars: &'a NameMap<ScalarType>,
    /// The tensors that the body may capture.
    pub tensors: &'a NameMap<CapturedTensor>,
    /// The type of the output element.
    pub output: ScalarType,
}

/// What a context is, with its names as sequences of characters.
pub ghost struct Scope {
    pub bindings: Map<Seq<char>, usize>,
    pub point: Option<Seq<char>>,
    pub point_axes: Map<Seq<char>, usize>,
    pub extents: Seq<Seq<char>>,
    pub rank: Option<usize>,
    pub scalars: Map<Seq<char>, ScalarType>,
    pub tensors: Map<Seq<char>, CapturedTensor>,
    pub output: ScalarType,
}

/// The texts of a sequence of strings.
pub open spec fn texts(names: Seq<String>) -> Seq<Seq<char>> {
    names.map_values(|name: String| name@)
}

impl<'a> View for DeviceContext<'a> {
    type V = Scope;

    open spec fn view(&self) -> Scope {
        Scope {
            bindings: self.bindings@,
            point: match self.point_binding {
                Some(name) => Some(name@),
                None => None,
            },
            point_axes: self.point_axes@,
            extents: texts(self.extent_names@),
            rank: self.logical_rank,
            scalars: self.scalars@,
            tensors: self.tensors@,
            output: self.output,
        }
    }
}

/// Whether a function is a math intrinsic of the device.
pub open spec fn is_intrinsic(function: Seq<char>) -> bool {
    ||| function == "sin"@
    ||| function == "cos"@
    ||| function == "abs"@
    ||| function == "exp"@
    ||| function == "tanh"@
}

fn intrinsic(function: &str) -> (known: bool)
    ensures
        known == is_intrinsic(function@),
{
    same_text(function, "sin") || same_text(function, "cos") || same_text(function, "abs")
        || same_text(function, "exp") || same_text(function, "tanh")
}

/// The operator of a device expression.
pub open spec fn binary_operator(op: SourceBinaryOp) -> Option<BinaryOp> {
    match op {
        SourceBinaryOp::Add => Some(BinaryOp::Add),
        SourceBinaryOp::Sub => Some(BinaryOp::Sub),
        SourceBinaryOp::Mul => Some(BinaryOp::Mul),
        SourceBinaryOp::Div => Some(BinaryOp::Div),
        SourceBinaryOp::Rem => Some(BinaryOp::Rem),
        SourceBinaryOp::BitXor => Some(BinaryOp::BitXor),
        SourceBinaryOp::BitAnd => Some(BinaryOp::BitAnd),
        SourceBinaryOp::BitOr => Some(BinaryOp::BitOr),
        SourceBinaryOp::Shl => Some(BinaryOp::Shl),
        SourceBinaryOp::Shr => Some(BinaryOp::Shr),
        SourceBinaryOp::Eq => Some(BinaryOp::Eq),
        SourceBinaryOp::Ne => Some(BinaryOp::Ne),
        SourceBinaryOp::Lt => Some(BinaryOp::Lt),
        SourceBinaryOp::Le => Some(BinaryOp::Le),
        SourceBinaryOp::Gt => Some(BinaryOp::Gt),
        SourceBinaryOp::Ge => Some(BinaryOp::Ge),
        SourceBinaryOp::And => Some(BinaryOp::And),
        SourceBinaryOp::Or => Some(BinaryOp::Or),
        _ => None,
    }
}

/// The operator of a device expression.
pub fn lower_binary_operator(op: SourceBinaryOp, span: Span) -> (lowered: Result<
    BinaryOp,
    Diagnostic,
>)
    ensures
        lowered == match binary_operator(op) {
            Some(op) => Ok(op),
            None => problem_at(span, Problem::AssignmentOperator),
        },
{
    match op {
        SourceBinaryOp::Add => Ok(BinaryOp::Add),
        SourceBinaryOp::Sub => Ok(BinaryOp::Sub),
        SourceBinaryOp::Mul => Ok(BinaryOp::Mul),
        SourceBinaryOp::Div => Ok(BinaryOp::Div),
        SourceBinaryOp::Rem => Ok(BinaryOp::Rem),
        SourceBinaryOp::BitXor => Ok(BinaryOp::BitXor),
        SourceBinaryOp::BitAnd => Ok(BinaryOp::BitAnd),
        SourceBinaryOp::BitOr => Ok(BinaryOp::BitOr),
        SourceBinaryOp::Shl => Ok(BinaryOp::Shl),
        SourceBinaryOp::Shr => Ok(BinaryOp::Shr),
        SourceBinaryOp::Eq => Ok(BinaryOp::Eq),
        SourceBinaryOp::Ne => Ok(BinaryOp::Ne),
        SourceBinaryOp::Lt => Ok(BinaryOp::Lt),
        SourceBinaryOp::Le => Ok(BinaryOp::Le),
        SourceBinaryOp::Gt => Ok(BinaryOp::Gt),
        SourceBinaryOp::Ge => Ok(BinaryOp::Ge),
        SourceBinaryOp::And => Ok(BinaryOp::And),
        SourceBinaryOp::Or => Ok(BinaryOp::Or),
        _ => report(span, Problem::AssignmentOperator),
    }
}

/// What a name in an expression stands for: an input's element before a coordinate, a coordinate
/// before a scalar, a scalar before a variable.
pub open spec fn value_of(
    name: Seq<char>,
    scope: Scope,
    locals: Map<Seq<char>, LocalInfo>,
) -> Option<ExprView> {
    if scope.bindings.dom().contains(name) {
        Some(ExprView::Input(scope.bindings[name]))
    } else if scope.point_axes.dom().contains(name) {
        Some(ExprView::PointAxis(scope.point_axes[name]))
    } else if scope.scalars.dom().contains(name) {
        Some(ExprView::Scalar(scalar_text(name)))
    } else if locals.dom().contains(name) {
        Some(ExprView::Local(variable_text(name, locals[name])))
    } else {
        None
    }
}

/// The tensor that an expression names, where it is one that may be captured: a name that stands
/// for something else inside the closure hides it.
pub open spec fn captured_tensor(
    expression: SourceExpr,
    scope: Scope,
    locals: Map<Seq<char>, LocalInfo>,
) -> Option<CapturedTensor> {
    match expression.kind {
        ExprKind::Path(path) => if path.qualified || path.segments@.len() != 1 {
            None
        } else {
            let name = path.segments@[0].name@;
            if value_of(name, scope, locals) is Some || scope.point == Some(name) {
                None
            } else {
                lookup(scope.tensors, name)
            }
        },
        _ => None,
    }
}

/// The tensor whose extent an expression asks for, as in `tensor.extent()`.
pub open spec fn extent_tensor(
    expression: SourceExpr,
    scope: Scope,
    locals: Map<Seq<char>, LocalInfo>,
) -> Option<CapturedTensor> {
    match expression.kind {
        ExprKind::MethodCall { receiver, method, arguments, .. } => if method@ == "extent"@
            && arguments@.len() == 0 {
            captured_tensor(*receiver, scope, locals)
        } else {
            None
        },
        _ => None,
    }
}

/// The axis of a captured tensor's extent that an index reads.
pub open spec fn captured_axis(
    expression: SourceExpr,
    index: SourceExpr,
    tensor: CapturedTensor,
) -> Result<ExprView, Diagnostic> {
    match integer_of(index, usize::MAX as nat, Problem::AxisNotLiteral) {
        Ok(axis) => match tensor.rank {
            Some(rank) => if axis >= rank {
                problem_at(index.span, Problem::AxisOutOfBounds { axis, rank })
            } else {
                Ok(ExprView::CapturedAxis { capture: tensor.capture, axis })
            },
            None => problem_at(expression.span, Problem::RankNotLiteral),
        },
        Err(diagnostic) => Err(diagnostic),
    }
}

/// The element of a captured tensor at lowered coordinates.
pub open spec fn captured_element(
    expression: SourceExpr,
    index: SourceExpr,
    tensor: CapturedTensor,
    coordinates: Seq<ExprView>,
) -> Result<ExprView, Diagnostic> {
    match tensor.rank {
        Some(rank) => if coordinates.len() != rank {
            problem_at(
                index.span,
                Problem::CoordinateCount { coordinates: coordinates.len() as usize, rank },
            )
        } else {
            Ok(ExprView::Captured { capture: tensor.capture, coordinates })
        },
        None => problem_at(expression.span, Problem::RankNotLiteral),
    }
}

/// The axis of a point, of the extent or of a captured tensor's extent that an index expression
/// reads.
pub open spec fn indexed_axis(
    expression: SourceExpr,
    base: SourceExpr,
    index: SourceExpr,
    scope: Scope,
    locals: Map<Seq<char>, LocalInfo>,
) -> Result<ExprView, Diagnostic> {
    match extent_tensor(base, scope, locals) {
        Some(tensor) => captured_axis(expression, index, tensor),
        None => logical_axis(expression, base, index, scope),
    }
}

/// The axis of a point or of the extent that an index expression reads.
pub open spec fn logical_axis(
    expression: SourceExpr,
    base: SourceExpr,
    index: SourceExpr,
    scope: Scope,
) -> Result<ExprView, Diagnostic> {
    match base.kind {
        ExprKind::Path(path) => if path.segments@.len() != 1 {
            problem_at(base.span, Problem::IndexedNotSimple)
        } else {
            let name = path.segments@[0].name@;
            match integer_of(index, usize::MAX as nat, Problem::AxisNotLiteral) {
                Ok(axis) => match scope.rank {
                    Some(rank) => if axis >= rank {
                        problem_at(index.span, Problem::AxisOutOfBounds { axis, rank })
                    } else if scope.point == Some(name) {
                        Ok(ExprView::PointAxis(axis))
                    } else if scope.extents.contains(name) {
                        Ok(ExprView::ExtentAxis(axis))
                    } else {
                        problem_at(expression.span, Problem::IndexedUnknown)
                    },
                    None => problem_at(expression.span, Problem::NoLogicalPoints),
                },
                Err(diagnostic) => Err(diagnostic),
            }
        },
        _ => problem_at(expression.span, Problem::IndexedNotPath),
    }
}

/// Whether an expression is a sum.
pub open spec fn is_sum(expression: SourceExpr) -> bool {
    match expression.kind {
        ExprKind::MethodCall { method, arguments, .. } => method@ == "sum"@ && arguments@.len()
            == 0,
        _ => false,
    }
}

/// What an expression of the body is in the device language, or why it is not in it.
pub open spec fn lowered(
    expression: SourceExpr,
    scope: Scope,
    locals: Map<Seq<char>, LocalInfo>,
) -> Result<ExprView, Diagnostic>
    decreases expression,
{
    match expression.kind {
        ExprKind::Index { base, index } => match (
            index.kind,
            captured_tensor(*base, scope, locals),
        ) {
            (ExprKind::Tuple(elements), Some(tensor)) => match lowered_all(
                elements@,
                scope,
                locals,
            ) {
                Ok(coordinates) => captured_element(expression, *index, tensor, coordinates),
                Err(diagnostic) => Err(diagnostic),
            },
            _ => indexed_axis(expression, *base, *index, scope, locals),
        },
        ExprKind::MethodCall { .. } => if is_sum(expression) {
            problem_at(expression.span, Problem::SumPosition)
        } else {
            problem_at(expression.span, Problem::UnsupportedExpression)
        },
        ExprKind::Path(path) => if !path.qualified && path.segments@.len() == 1 {
            match value_of(path.segments@[0].name@, scope, locals) {
                Some(value) => Ok(value),
                None => problem_at(expression.span, Problem::UnknownValue),
            }
        } else {
            problem_at(expression.span, Problem::UnsupportedExpression)
        },
        ExprKind::Call { function, arguments } => match function.kind {
            ExprKind::Path(path) => if path.segments@.len() != 1 {
                problem_at(function.span, Problem::IntrinsicNotSimple)
            } else if !is_intrinsic(path.segments@[0].name@) {
                problem_at(expression.span, Problem::UnknownIntrinsic)
            } else {
                match lowered_all(arguments@, scope, locals) {
                    Ok(values) => if values.len() != 1 {
                        problem_at(expression.span, Problem::IntrinsicArguments)
                    } else {
                        Ok(
                            ExprView::Call {
                                function: path.segments@[0].name@,
                                arguments: values,
                            },
                        )
                    },
                    Err(diagnostic) => Err(diagnostic),
                }
            },
            _ => problem_at(function.span, Problem::IntrinsicNotSimple),
        },
        ExprKind::Lit(literal) => match literal.kind {
            LiteralKind::Int(digits) => Ok(ExprView::Literal(digits@)),
            LiteralKind::Float(digits) => Ok(ExprView::Literal(digits@ + "f"@)),
            LiteralKind::Bool(value) => Ok(
                ExprView::Literal(
                    if value {
                        "true"@
                    } else {
                        "false"@
                    },
                ),
            ),
            LiteralKind::Other => problem_at(literal.span, Problem::UnsupportedLiteral),
        },
        ExprKind::Paren(inner) => lowered(*inner, scope, locals),
        ExprKind::Group(inner) => lowered(*inner, scope, locals),
        ExprKind::Unary { op, operand } => match op {
            SourceUnaryOp::Deref => lowered(*operand, scope, locals),
            SourceUnaryOp::Neg => match lowered(*operand, scope, locals) {
                Ok(value) => Ok(ExprView::Unary { op: UnaryOp::Neg, value: Box::new(value) }),
                Err(diagnostic) => Err(diagnostic),
            },
            SourceUnaryOp::Other => problem_at(expression.span, Problem::UnsupportedUnary),
        },
        ExprKind::Binary { op, op_span, left, right } => match binary_operator(op) {
            Some(op) => match lowered(*left, scope, locals) {
                Ok(left) => match lowered(*right, scope, locals) {
                    Ok(right) => Ok(
                        ExprView::Binary { op, left: Box::new(left), right: Box::new(right) },
                    ),
                    Err(diagnostic) => Err(diagnostic),
                },
                Err(diagnostic) => Err(diagnostic),
            },
            None => problem_at(op_span, Problem::AssignmentOperator),
        },
        ExprKind::Cast { operand, ty } => match scalar_of(ty) {
            Some(scalar) => match lowered(*operand, scope, locals) {
                Ok(value) => Ok(ExprView::Cast { value: Box::new(value), ty: scalar }),
                Err(diagnostic) => Err(diagnostic),
            },
            None => problem_at(ty.span, Problem::UnsupportedCast),
        },
        ExprKind::If { condition, then_branch, else_branch } => match else_branch {
            Some(else_branch) => match lowered(*condition, scope, locals) {
                Ok(condition) => match lowered_block(then_branch, scope, locals) {
                    Ok(when_true) => match lowered(*else_branch, scope, locals) {
                        Ok(when_false) => Ok(
                            ExprView::Select {
                                condition: Box::new(condition),
                                when_true: Box::new(when_true),
                                when_false: Box::new(when_false),
                            },
                        ),
                        Err(diagnostic) => Err(diagnostic),
                    },
                    Err(diagnostic) => Err(diagnostic),
                },
                Err(diagnostic) => Err(diagnostic),
            },
            None => problem_at(expression.span, Problem::IfWithoutElse),
        },
        ExprKind::Block(block) => lowered_block(block, scope, locals),
        _ => problem_at(expression.span, Problem::UnsupportedExpression),
    }
}

/// What a block that consists of one expression is in the device language.
pub open spec fn lowered_block(
    block: SourceBlock,
    scope: Scope,
    locals: Map<Seq<char>, LocalInfo>,
) -> Result<ExprView, Diagnostic>
    decreases block,
{
    if block.statements@.len() == 1 {
        match block.statements@[0] {
            SourceStatement::Expr { expression, semicolon: false } => lowered(
                expression,
                scope,
                locals,
            ),
            _ => problem_at(block.span, Problem::NotOneChain),
        }
    } else {
        problem_at(block.span, Problem::NotOneChain)
    }
}

/// What each of a sequence of expressions is in the device language; the first that is not in it
/// decides.
pub open spec fn lowered_all(
    expressions: Seq<SourceExpr>,
    scope: Scope,
    locals: Map<Seq<char>, LocalInfo>,
) -> Result<Seq<ExprView>, Diagnostic>
    decreases expressions,
{
    if expressions.len() == 0 {
        Ok(Seq::empty())
    } else {
        match lowered_all(expressions.drop_last(), scope, locals) {
            Ok(values) => match lowered(expressions.last(), scope, locals) {
                Ok(value) => Ok(values.push(value)),
                Err(diagnostic) => Err(diagnostic),
            },
            Err(diagnostic) => Err(diagnostic),
        }
    }
}

/// Whether lowering an expression gave what it is in the device language.
pub open spec fn is_lowered(
    result: Result<Expr, Diagnostic>,
    expected: Result<ExprView, Diagnostic>,
) -> bool {
    match (result, expected) {
        (Ok(value), Ok(expected)) => value@ == expected,
        (Err(diagnostic), Err(expected)) => diagnostic == expected,
        _ => false,
    }
}

proof fn lemma_lowered_all_fails(
    expressions: Seq<SourceExpr>,
    scope: Scope,
    locals: Map<Seq<char>, LocalInfo>,
    count: int,
)
    requires
        0 <= count <= expressions.len(),
        lowered_all(expressions.take(count), scope, locals) is Err,
    ensures
        lowered_all(expressions, scope, locals) == lowered_all(
            expressions.take(count),
            scope,
            locals,
        ),
    decreases expressions.len(),
{
    if count < expressions.len() {
        let shorter = expressions.drop_last();
        assert(shorter.take(count) =~= expressions.take(count));
        lemma_lowered_all_fails(shorter, scope, locals, count);
    } else {
        assert(expressions.take(count) =~= expressions);
    }
}

fn lower_expressions(
    expressions: &Vec<SourceExpr>,
    context: &DeviceContext<'_>,
    locals: &NameMap<LocalInfo>,
) -> (values: Result<Vec<Expr>, Diagnostic>)
    ensures
        match (values, lowered_all(expressions@, context@, locals@)) {
            (Ok(values), Ok(expected)) => expr_views(values@) == expected,
            (Err(diagnostic), Err(expected)) => diagnostic == expected,
            _ => false,
        },
    decreases expressions,
{
    let mut values: Vec<Expr> = Vec::new();
    let mut index: usize = 0;
    while index < expressions.len()
        invariant
            index <= expressions@.len(),
            lowered_all(expressions@.take(index as int), context@, locals@) == Ok::<
                Seq<ExprView>,
                Diagnostic,
            >(expr_views(values@)),
        decreases expressions@.len() - index,
    {
        let ghost next = expressions@.take(index + 1);
        assert(next.drop_last() =~= expressions@.take(index as int));
        match lower_expression(&expressions[index], context, locals) {
            Ok(value) => {
                let ghost before = values@;
                values.push(value);
                assert(values@.drop_last() =~= before);
            },
            Err(diagnostic) => {
                proof {
                    lemma_lowered_all_fails(expressions@, context@, locals@, index + 1);
                }
                return Err(diagnostic);
            },
        }
        index += 1;
    }
    assert(expressions@.take(expressions@.len() as int) =~= expressions@);
    Ok(values)
}

fn names_contain(names: &Vec<String>, name: &str) -> (found: bool)
    ensures
        found == texts(names@).contains(name@),
{
    let mut index: usize = 0;
    while index < names.len()
        invariant
            index <= names@.len(),
            forall|i: int| 0 <= i < index ==> #[trigger] texts(names@)[i] != name@,
        decreases names@.len() - index,
    {
        assert(texts(names@)[index as int] == names@[index as int]@);
        if same_text(names[index].as_str(), name) {
            return true;
        }
        index += 1;
    }
    false
}

/// Lowers a name in an expression.
pub fn lower_name(name: &str, context: &DeviceContext<'_>, locals: &NameMap<LocalInfo>) -> (value:
    Option<Expr>)
    ensures
        match (value, value_of(name@, context@, locals@)) {
            (Some(value), Some(expected)) => value@ == expected,
            (None, None) => true,
            _ => false,
        },
{
    if let Some(index) = context.bindings.get(name) {
        Some(Expr::Input(index))
    } else if let Some(axis) = context.point_axes.get(name) {
        Some(Expr::PointAxis(axis))
    } else if context.scalars.contains(name) {
        Some(Expr::Scalar(scalar_msl_identifier(name)))
    } else if let Some(info) = locals.get(name) {
        Some(Expr::Local(variable_msl_identifier(name, info)))
    } else {
        None
    }
}

/// The axis that an expression is, written as a literal.
pub fn index_literal(expression: &SourceExpr) -> (axis: Result<usize, Diagnostic>)
    ensures
        axis == integer_of(*expression, usize::MAX as nat, Problem::AxisNotLiteral),
{
    parse_integer(expression, usize::MAX, Problem::AxisNotLiteral)
}

/// Finds the tensor that an expression names, where it is one that may be captured.
pub fn find_captured(
    expression: &SourceExpr,
    context: &DeviceContext<'_>,
    locals: &NameMap<LocalInfo>,
) -> (tensor: Option<CapturedTensor>)
    ensures
        tensor == captured_tensor(*expression, context@, locals@),
{
    match &expression.kind {
        ExprKind::Path(path) => {
            if path.qualified || path.segments.len() != 1 {
                return None;
            }
            let name: &str = path.segments[0].name.as_str();
            let is_point = match context.point_binding {
                Some(point) => same_text(point, name),
                None => false,
            };
            if is_point || lower_name(name, context, locals).is_some() {
                None
            } else {
                context.tensors.get(name)
            }
        },
        _ => None,
    }
}

fn find_extent_tensor(
    expression: &SourceExpr,
    context: &DeviceContext<'_>,
    locals: &NameMap<LocalInfo>,
) -> (tensor: Option<CapturedTensor>)
    ensures
        tensor == extent_tensor(*expression, context@, locals@),
{
    match &expression.kind {
        ExprKind::MethodCall { receiver, method, arguments, .. } => {
            if same_text(method.as_str(), "extent") && arguments.len() == 0 {
                find_captured(receiver, context, locals)
            } else {
                None
            }
        },
        _ => None,
    }
}

/// Lowers an index that reads an axis of a point, of the extent or of a captured tensor's extent.
pub fn lower_axis(
    expression: &SourceExpr,
    base: &SourceExpr,
    index: &SourceExpr,
    context: &DeviceContext<'_>,
    locals: &NameMap<LocalInfo>,
) -> (value: Result<Expr, Diagnostic>)
    ensures
        is_lowered(value, indexed_axis(*expression, *base, *index, context@, locals@)),
{
    match find_extent_tensor(base, context, locals) {
        Some(tensor) => {
            let axis: usize = match index_literal(index) {
                Ok(axis) => axis,
                Err(diagnostic) => return Err(diagnostic),
            };
            match tensor.rank {
                Some(rank) => if axis >= rank {
                    report(index.span, Problem::AxisOutOfBounds { axis, rank })
                } else {
                    Ok(Expr::CapturedAxis { capture: tensor.capture, axis })
                },
                None => report(expression.span, Problem::RankNotLiteral),
            }
        },
        None => lower_logical_axis(expression, base, index, context),
    }
}

fn lower_captured_element(
    expression: &SourceExpr,
    index: &SourceExpr,
    tensor: CapturedTensor,
    coordinates: Vec<Expr>,
) -> (value: Result<Expr, Diagnostic>)
    ensures
        is_lowered(
            value,
            captured_element(*expression, *index, tensor, expr_views(coordinates@)),
        ),
{
    proof {
        lemma_expr_views(coordinates@);
    }
    match tensor.rank {
        Some(rank) => if coordinates.len() != rank {
            report(
                index.span,
                Problem::CoordinateCount { coordinates: coordinates.len(), rank },
            )
        } else {
            Ok(Expr::Captured { capture: tensor.capture, coordinates })
        },
        None => report(expression.span, Problem::RankNotLiteral),
    }
}

/// Whether an expression is a sum.
pub fn expression_is_sum(expression: &SourceExpr) -> (found: bool)
    ensures
        found == is_sum(*expression),
{
    match &expression.kind {
        ExprKind::MethodCall { method, arguments, .. } => same_text(method.as_str(), "sum")
            && arguments.len() == 0,
        _ => false,
    }
}

fn lower_logical_axis(
    expression: &SourceExpr,
    base: &SourceExpr,
    index: &SourceExpr,
    context: &DeviceContext<'_>,
) -> (value: Result<Expr, Diagnostic>)
    ensures
        is_lowered(value, logical_axis(*expression, *base, *index, context@)),
{
    match &base.kind {
        ExprKind::Path(path) => {
            if path.segments.len() != 1 {
                return report(base.span, Problem::IndexedNotSimple);
            }
            let name: &str = path.segments[0].name.as_str();
            let axis: usize = match index_literal(index) {
                Ok(axis) => axis,
                Err(diagnostic) => return Err(diagnostic),
            };
            let rank: usize = match context.logical_rank {
                Some(rank) => rank,
                None => return report(expression.span, Problem::NoLogicalPoints),
            };
            if axis >= rank {
                return report(index.span, Problem::AxisOutOfBounds { axis, rank });
            }
            let is_point = match context.point_binding {
                Some(point) => same_text(point, name),
                None => false,
            };
            if is_point {
                Ok(Expr::PointAxis(axis))
            } else if names_contain(context.extent_names, name) {
                Ok(Expr::ExtentAxis(axis))
            } else {
                report(expression.span, Problem::IndexedUnknown)
            }
        },
        _ => report(expression.span, Problem::IndexedNotPath),
    }
}

/// Lowers an expression of the body.
pub fn lower_expression(
    expression: &SourceExpr,
    context: &DeviceContext<'_>,
    locals: &NameMap<LocalInfo>,
) -> (value: Result<Expr, Diagnostic>)
    ensures
        is_lowered(value, lowered(*expression, context@, locals@)),
    decreases expression,
{
    match &expression.kind {
        ExprKind::Index { base, index } => match &index.kind {
            ExprKind::Tuple(elements) => match find_captured(base, context, locals) {
                Some(tensor) => match lower_expressions(elements, context, locals) {
                    Ok(coordinates) => lower_captured_element(
                        expression,
                        index,
                        tensor,
                        coordinates,
                    ),
                    Err(diagnostic) => Err(diagnostic),
                },
                None => lower_axis(expression, base, index, context, locals),
            },
            _ => lower_axis(expression, base, index, context, locals),
        },
        ExprKind::MethodCall { .. } => if expression_is_sum(expression) {
            report(expression.span, Problem::SumPosition)
        } else {
            report(expression.span, Problem::UnsupportedExpression)
        },
        ExprKind::Path(path) => if !path.qualified && path.segments.len() == 1 {
            match lower_name(path.segments[0].name.as_str(), context, locals) {
                Some(value) => Ok(value),
                None => report(expression.span, Problem::UnknownValue),
            }
        } else {
            report(expression.span, Problem::UnsupportedExpression)
        },
        ExprKind::Call { function, arguments } => match &function.kind {
            ExprKind::Path(path) => {
                if path.segments.len() != 1 {
                    return report(function.span, Problem::IntrinsicNotSimple);
                }
                if !intrinsic(path.segments[0].name.as_str()) {
                    return report(expression.span, Problem::UnknownIntrinsic);
                }
                match lower_expressions(arguments, context, locals) {
                    Ok(values) => {
                        proof {
                            lemma_expr_views(values@);
                        }
                        if values.len() != 1 {
                            return report(expression.span, Problem::IntrinsicArguments);
                        }
                        Ok(
                            Expr::Call {
                                function: path.segments[0].name.clone(),
                                arguments: values,
                            },
                        )
                    },
                    Err(diagnostic) => Err(diagnostic),
                }
            },
            _ => report(function.span, Problem::IntrinsicNotSimple),
        },
        ExprKind::Lit(literal) => match &literal.kind {
            LiteralKind::Int(digits) => Ok(Expr::Literal(digits.clone())),
            LiteralKind::Float(digits) => {
                let mut text = digits.clone();
                text.append("f");
                Ok(Expr::Literal(text))
            },
            LiteralKind::Bool(value) => if *value {
                Ok(Expr::Literal("true".to_owned()))
            } else {
                Ok(Expr::Literal("false".to_owned()))
            },
            LiteralKind::Other => report(literal.span, Problem::UnsupportedLiteral),
        },
        ExprKind::Paren(inner) => lower_expression(inner, context, locals),
        ExprKind::Group(inner) => lower_expression(inner, context, locals),
        ExprKind::Unary { op, operand } => match op {
            SourceUnaryOp::Deref => lower_expression(operand, context, locals),
            SourceUnaryOp::Neg => match lower_expression(operand, context, locals) {
                Ok(value) => Ok(Expr::Unary { op: UnaryOp::Neg, value: Box::new(value) }),
                Err(diagnostic) => Err(diagnostic),
            },
            SourceUnaryOp::Other => report(expression.span, Problem::UnsupportedUnary),
        },
        ExprKind::Binary { op, op_span, left, right } => {
            let op: BinaryOp = match lower_binary_operator(*op, *op_span) {
                Ok(op) => op,
                Err(diagnostic) => return Err(diagnostic),
            };
            let left = match lower_expression(left, context, locals) {
                Ok(left) => left,
                Err(diagnostic) => return Err(diagnostic),
            };
            let right = match lower_expression(right, context, locals) {
                Ok(right) => right,
                Err(diagnostic) => return Err(diagnostic),
            };
            Ok(Expr::Binary { op, left: Box::new(left), right: Box::new(right) })
        },
        ExprKind::Cast { operand, ty } => match parse_scalar_type(ty) {
            Some(scalar) => match lower_expression(operand, context, locals) {
                Ok(value) => Ok(Expr::Cast { value: Box::new(value), ty: scalar }),
                Err(diagnostic) => Err(diagnostic),
            },
            None => report(ty.span, Problem::UnsupportedCast),
        },
        ExprKind::If { condition, then_branch, else_branch } => match else_branch {
            Some(else_branch) => {
                let condition = match lower_expression(condition, context, locals) {
                    Ok(condition) => condition,
                    Err(diagnostic) => return Err(diagnostic),
                };
                let when_true = match lower_pure_block_expression(then_branch, context, locals) {
                    Ok(when_true) => when_true,
                    Err(diagnostic) => return Err(diagnostic),
                };
                let when_false = match lower_expression(else_branch, context, locals) {
                    Ok(when_false) => when_false,
                    Err(diagnostic) => return Err(diagnostic),
                };
                Ok(
                    Expr::Select {
                        condition: Box::new(condition),
                        when_true: Box::new(when_true),
                        when_false: Box::new(when_false),
                    },
                )
            },
            None => report(expression.span, Problem::IfWithoutElse),
        },
        ExprKind::Block(block) => lower_pure_block_expression(block, context, locals),
        _ => report(expression.span, Problem::UnsupportedExpression),
    }
}

/// Lowers a block that consists of one expression.
pub fn lower_pure_block_expression(
    block: &SourceBlock,
    context: &DeviceContext<'_>,
    locals: &NameMap<LocalInfo>,
) -> (value: Result<Expr, Diagnostic>)
    ensures
        is_lowered(value, lowered_block(*block, context@, locals@)),
    decreases block,
{
    match only_tail_expression(block) {
        Ok(expression) => lower_expression(expression, context, locals),
        Err(diagnostic) => Err(diagnostic),
    }
}

/// An expression without the parentheses and groups around it.
pub open spec fn ungrouped<'a>(expression: &'a SourceExpr) -> &'a SourceExpr
    decreases expression,
{
    match &expression.kind {
        ExprKind::Paren(inner) => ungrouped(&**inner),
        ExprKind::Group(inner) => ungrouped(&**inner),
        _ => expression,
    }
}

/// An expression without the parentheses and groups around it.
pub fn strip_grouping<'a>(expression: &'a SourceExpr) -> (inner: &'a SourceExpr)
    ensures
        inner == ungrouped(expression),
    decreases expression,
{
    match &expression.kind {
        ExprKind::Paren(inner) => strip_grouping(&**inner),
        ExprKind::Group(inner) => strip_grouping(&**inner),
        _ => expression,
    }
}

/// The bounds of a loop.
#[derive(Debug, Clone, Copy, PartialEq, Eq, Structural)]
pub struct LoopRange {
    pub start: Bound,
    pub end: Bound,
    pub inclusive: bool,
}

/// The bound of a loop that an expression is: a literal, or the length of an axis.
pub open spec fn bound_of(
    expression: SourceExpr,
    scope: Scope,
    locals: Map<Seq<char>, LocalInfo>,
) -> Result<Bound, Diagnostic> {
    match expression.kind {
        ExprKind::Index { base, index } => match indexed_axis(
            expression,
            *base,
            *index,
            scope,
            locals,
        ) {
            Ok(ExprView::ExtentAxis(axis)) => Ok(Bound::ExtentAxis(axis)),
            Ok(ExprView::CapturedAxis { capture, axis }) => Ok(
                Bound::CapturedAxis { capture, axis },
            ),
            _ => problem_at(expression.span, Problem::LoopBoundNotLiteral),
        },
        _ => match integer_of(expression, u32::MAX as nat, Problem::LoopBoundNotLiteral) {
            Ok(value) => Ok(Bound::Literal(value as u32)),
            Err(diagnostic) => Err(diagnostic),
        },
    }
}

/// The bounds of the range that an expression is. A range that could include `u32::MAX` is
/// refused: its counter would never pass the end.
pub open spec fn range_of(
    expression: SourceExpr,
    scope: Scope,
    locals: Map<Seq<char>, LocalInfo>,
) -> Result<LoopRange, Diagnostic> {
    let range = ungrouped(&expression);
    match range.kind {
        ExprKind::Range { start: Some(start), end: Some(end), closed } => match bound_of(
            *start,
            scope,
            locals,
        ) {
            Ok(start) => match bound_of(*end, scope, locals) {
                Ok(end) => if closed && end == Bound::Literal(u32::MAX) {
                    problem_at(range.span, Problem::InclusiveRangeAtMaximum)
                } else if closed && !(end is Literal) {
                    problem_at(range.span, Problem::InclusiveRangeNotLiteral)
                } else {
                    Ok(LoopRange { start, end, inclusive: closed })
                },
                Err(diagnostic) => Err(diagnostic),
            },
            Err(diagnostic) => Err(diagnostic),
        },
        _ => problem_at(range.span, Problem::UnboundedRange),
    }
}

/// The bound of a loop that an expression is.
pub fn loop_bound(
    expression: &SourceExpr,
    context: &DeviceContext<'_>,
    locals: &NameMap<LocalInfo>,
) -> (bound: Result<Bound, Diagnostic>)
    ensures
        bound == bound_of(*expression, context@, locals@),
{
    match &expression.kind {
        ExprKind::Index { base, index } => match lower_axis(
            expression,
            base,
            index,
            context,
            locals,
        ) {
            Ok(Expr::ExtentAxis(axis)) => Ok(Bound::ExtentAxis(axis)),
            Ok(Expr::CapturedAxis { capture, axis }) => Ok(Bound::CapturedAxis { capture, axis }),
            _ => report(expression.span, Problem::LoopBoundNotLiteral),
        },
        _ => match integer_literal(expression) {
            Ok(value) => Ok(Bound::Literal(value)),
            Err(diagnostic) => Err(diagnostic),
        },
    }
}

/// The bounds of the range that an expression is.
pub fn fixed_range(
    expression: &SourceExpr,
    context: &DeviceContext<'_>,
    locals: &NameMap<LocalInfo>,
) -> (range: Result<LoopRange, Diagnostic>)
    ensures
        range == range_of(*expression, context@, locals@),
{
    let expression = strip_grouping(expression);
    match &expression.kind {
        ExprKind::Range { start: Some(start), end: Some(end), closed } => {
            let start: Bound = match loop_bound(start, context, locals) {
                Ok(start) => start,
                Err(diagnostic) => return Err(diagnostic),
            };
            let end: Bound = match loop_bound(end, context, locals) {
                Ok(end) => end,
                Err(diagnostic) => return Err(diagnostic),
            };
            if *closed {
                match end {
                    Bound::Literal(value) => if value == u32::MAX {
                        return report(expression.span, Problem::InclusiveRangeAtMaximum);
                    },
                    _ => return report(expression.span, Problem::InclusiveRangeNotLiteral),
                }
            }
            Ok(LoopRange { start, end, inclusive: *closed })
        },
        _ => report(expression.span, Problem::UnboundedRange),
    }
}

/// The loop bound that an expression is, written as a literal.
pub fn integer_literal(expression: &SourceExpr) -> (value: Result<u32, Diagnostic>)
    ensures
        match (value, integer_of(*expression, u32::MAX as nat, Problem::LoopBoundNotLiteral)) {
            (Ok(value), Ok(expected)) => value == expected,
            (Err(diagnostic), Err(expected)) => diagnostic == expected,
            _ => false,
        },
{
    match parse_integer(expression, u32::MAX as usize, Problem::LoopBoundNotLiteral) {
        Ok(value) => Ok(value as u32),
        Err(diagnostic) => Err(diagnostic),
    }
}

/// The kernel's name of the variable that an assignment writes.
pub open spec fn target_of(expression: SourceExpr, locals: Map<Seq<char>, LocalInfo>) -> Result<
    Seq<char>,
    Diagnostic,
> {
    match expression.kind {
        ExprKind::Path(path) => if path.segments@.len() != 1 {
            problem_at(expression.span, Problem::TargetNotLocal)
        } else {
            let name = path.segments@[0].name@;
            if !locals.dom().contains(name) {
                problem_at(expression.span, Problem::TargetUnknown)
            } else if !locals[name].mutable {
                problem_at(expression.span, Problem::TargetImmutable)
            } else {
                Ok(variable_text(name, locals[name]))
            }
        },
        _ => problem_at(expression.span, Problem::TargetNotLocal),
    }
}

/// The kernel's name of the variable that an assignment writes.
pub fn assignment_target(expression: &SourceExpr, locals: &NameMap<LocalInfo>) -> (target: Result<
    String,
    Diagnostic,
>)
    ensures
        match (target, target_of(*expression, locals@)) {
            (Ok(target), Ok(expected)) => target@ == expected,
            (Err(diagnostic), Err(expected)) => diagnostic == expected,
            _ => false,
        },
{
    match &expression.kind {
        ExprKind::Path(path) => {
            if path.segments.len() != 1 {
                return report(expression.span, Problem::TargetNotLocal);
            }
            let name: &str = path.segments[0].name.as_str();
            match locals.get(name) {
                Some(info) => if info.mutable {
                    Ok(variable_msl_identifier(name, info))
                } else {
                    report(expression.span, Problem::TargetImmutable)
                },
                None => report(expression.span, Problem::TargetUnknown),
            }
        },
        _ => report(expression.span, Problem::TargetNotLocal),
    }
}

/// The operator of a compound assignment.
pub open spec fn assignment_operator(op: SourceBinaryOp) -> Option<AssignOp> {
    match op {
        SourceBinaryOp::AddAssign => Some(AssignOp::Add),
        SourceBinaryOp::SubAssign => Some(AssignOp::Sub),
        SourceBinaryOp::MulAssign => Some(AssignOp::Mul),
        SourceBinaryOp::DivAssign => Some(AssignOp::Div),
        _ => None,
    }
}

fn lower_assignment_operator(op: SourceBinaryOp) -> (lowered: Option<AssignOp>)
    ensures
        lowered == assignment_operator(op),
{
    match op {
        SourceBinaryOp::AddAssign => Some(AssignOp::Add),
        SourceBinaryOp::SubAssign => Some(AssignOp::Sub),
        SourceBinaryOp::MulAssign => Some(AssignOp::Mul),
        SourceBinaryOp::DivAssign => Some(AssignOp::Div),
        _ => None,
    }
}

/// Whether a pattern binds its identifier as mutable.
pub open spec fn is_mutable(pattern: SourcePattern) -> bool
    decreases pattern,
{
    match pattern.kind {
        PatternKind::Ident { mutable, .. } => mutable,
        PatternKind::Paren(inner) => is_mutable(*inner),
        PatternKind::Reference(inner) => is_mutable(*inner),
        PatternKind::Typed { pattern: inner, .. } => is_mutable(*inner),
        _ => false,
    }
}

/// Whether a pattern binds its identifier as mutable.
pub fn typed_pat_is_mutable(pattern: &SourcePattern) -> (mutable: bool)
    ensures
        mutable == is_mutable(*pattern),
    decreases pattern,
{
    match &pattern.kind {
        PatternKind::Ident { mutable, .. } => *mutable,
        PatternKind::Paren(inner) => typed_pat_is_mutable(inner),
        PatternKind::Reference(inner) => typed_pat_is_mutable(inner),
        PatternKind::Typed { pattern: inner, .. } => typed_pat_is_mutable(inner),
        _ => false,
    }
}

/// The variables inside a loop.
pub open spec fn loop_locals(name: Seq<char>, locals: Map<Seq<char>, LocalInfo>) -> Map<
    Seq<char>,
    LocalInfo,
> {
    locals.insert(name, LocalInfo { looped: true, mutable: false })
}

/// The statement that gives a variable the sum `(start..end).map(|index| term).sum()`.
pub open spec fn lowered_sum(
    receiver: SourceExpr,
    name: Seq<char>,
    ty: ScalarType,
    scope: Scope,
    locals: Map<Seq<char>, LocalInfo>,
) -> Result<StatementView, Diagnostic> {
    match receiver.kind {
        ExprKind::MethodCall { receiver: range, method, arguments, .. } => if method@ == "map"@
            && arguments@.len() == 1 {
            match arguments@[0].kind {
                ExprKind::Closure(closure) => if closure.inputs@.len() != 1 {
                    problem_at(closure.inputs_span, Problem::SumChain)
                } else {
                    match pattern_ident(&closure.inputs@[0]) {
                        Ok(ident) => match range_of(*range, scope, locals) {
                            Ok(range) => match lowered(
                                *closure.body,
                                scope,
                                loop_locals(ident.name@, locals),
                            ) {
                                Ok(term) => Ok(
                                    StatementView::Sum {
                                        name,
                                        ty,
                                        variable: loop_text(ident.name@),
                                        start: range.start,
                                        end: range.end,
                                        inclusive: range.inclusive,
                                        term,
                                    },
                                ),
                                Err(diagnostic) => Err(diagnostic),
                            },
                            Err(diagnostic) => Err(diagnostic),
                        },
                        Err(diagnostic) => Err(diagnostic),
                    }
                },
                _ => problem_at(receiver.span, Problem::SumChain),
            }
        } else {
            problem_at(receiver.span, Problem::SumChain)
        },
        _ => problem_at(receiver.span, Problem::SumChain),
    }
}

/// The statement that declares a variable and gives it the value of an expression.
pub open spec fn lowered_let(
    value: SourceExpr,
    name: Seq<char>,
    ty: ScalarType,
    scope: Scope,
    locals: Map<Seq<char>, LocalInfo>,
) -> Result<StatementView, Diagnostic> {
    if is_sum(value) {
        lowered_sum(*value.kind->MethodCall_receiver, name, ty, scope, locals)
    } else {
        match lowered(value, scope, locals) {
            Ok(value) => Ok(StatementView::Let { name, ty, value }),
            Err(diagnostic) => Err(diagnostic),
        }
    }
}

/// Lowers the sum `(start..end).map(|index| term).sum()`.
pub fn lower_sum(
    receiver: &SourceExpr,
    name: String,
    ty: ScalarType,
    context: &DeviceContext<'_>,
    locals: &NameMap<LocalInfo>,
) -> (statement: Result<Statement, Diagnostic>)
    ensures
        is_lowered_statement(statement, lowered_sum(*receiver, name@, ty, context@, locals@)),
{
    match &receiver.kind {
        ExprKind::MethodCall { receiver: range, method, arguments, .. } => {
            if !same_text(method.as_str(), "map") || arguments.len() != 1 {
                return report(receiver.span, Problem::SumChain);
            }
            let closure = match &arguments[0].kind {
                ExprKind::Closure(closure) => closure,
                _ => return report(receiver.span, Problem::SumChain),
            };
            if closure.inputs.len() != 1 {
                return report(closure.inputs_span, Problem::SumChain);
            }
            let ident = match simple_pat_ident(&closure.inputs[0]) {
                Ok(ident) => ident,
                Err(diagnostic) => return Err(diagnostic),
            };
            let range: LoopRange = match fixed_range(range, context, locals) {
                Ok(range) => range,
                Err(diagnostic) => return Err(diagnostic),
            };
            let mut inner = locals.duplicate();
            inner.insert(ident.name.clone(), LocalInfo { looped: true, mutable: false });
            match lower_expression(&closure.body, context, &inner) {
                Ok(term) => Ok(
                    Statement::Sum {
                        name,
                        ty,
                        variable: loop_msl_identifier(ident.name.as_str()),
                        start: range.start,
                        end: range.end,
                        inclusive: range.inclusive,
                        term,
                    },
                ),
                Err(diagnostic) => Err(diagnostic),
            }
        },
        _ => report(receiver.span, Problem::SumChain),
    }
}

/// Lowers the declaration of a variable with the value of an expression.
pub fn lower_let(
    value: &SourceExpr,
    name: String,
    ty: ScalarType,
    context: &DeviceContext<'_>,
    locals: &NameMap<LocalInfo>,
) -> (statement: Result<Statement, Diagnostic>)
    ensures
        is_lowered_statement(statement, lowered_let(*value, name@, ty, context@, locals@)),
{
    if expression_is_sum(value) {
        if let ExprKind::MethodCall { receiver, .. } = &value.kind {
            return lower_sum(receiver, name, ty, context, locals);
        }
    }
    match lower_expression(value, context, locals) {
        Ok(value) => Ok(Statement::Let { name, ty, value }),
        Err(diagnostic) => Err(diagnostic),
    }
}

/// The statement that a `let` is in the device language, and the variables after it.
pub open spec fn lowered_local(
    local: SourceLocal,
    scope: Scope,
    locals: Map<Seq<char>, LocalInfo>,
) -> Result<(StatementView, Map<Seq<char>, LocalInfo>), Diagnostic> {
    match local.pattern.kind {
        PatternKind::Typed { pattern, ty } => match pattern_ident(&*pattern) {
            Ok(ident) => if locals.dom().contains(ident.name@) {
                problem_at(ident.span, Problem::ShadowedLocal)
            } else {
                match scalar_of(ty) {
                    Some(scalar) => match local.initializer {
                        Some(initializer) => if initializer.diverges {
                            problem_at(initializer.value.span, Problem::LetElse)
                        } else {
                            match lowered_let(
                                initializer.value,
                                local_text(ident.name@),
                                scalar,
                                scope,
                                locals,
                            ) {
                                Ok(statement) => Ok(
                                    (
                                        statement,
                                        locals.insert(
                                            ident.name@,
                                            LocalInfo {
                                                looped: false,
                                                mutable: is_mutable(*pattern),
                                            },
                                        ),
                                    ),
                                ),
                                Err(diagnostic) => Err(diagnostic),
                            }
                        },
                        None => problem_at(local.span, Problem::LocalWithoutInitializer),
                    },
                    None => problem_at(ty.span, Problem::LocalNotScalar),
                }
            },
            Err(diagnostic) => Err(diagnostic),
        },
        _ => problem_at(local.pattern.span, Problem::UntypedLocal),
    }
}

/// Lowers a `let`, and adds its variable to the variables.
pub fn lower_local(
    local: &SourceLocal,
    context: &DeviceContext<'_>,
    locals: &mut NameMap<LocalInfo>,
) -> (statement: Result<Statement, Diagnostic>)
    ensures
        match (statement, lowered_local(*local, context@, old(locals)@)) {
            (Ok(statement), Ok((expected, after))) => statement@ == expected && final(locals)@
                == after,
            (Err(diagnostic), Err(expected)) => diagnostic == expected && final(locals)@ == old(
                locals,
            )@,
            _ => false,
        },
{
    match &local.pattern.kind {
        PatternKind::Typed { pattern, ty } => {
            let ident = match simple_pat_ident(pattern) {
                Ok(ident) => ident,
                Err(diagnostic) => return Err(diagnostic),
            };
            if locals.contains(ident.name.as_str()) {
                return report(ident.span, Problem::ShadowedLocal);
            }
            let scalar: ScalarType = match parse_scalar_type(ty) {
                Some(scalar) => scalar,
                None => return report(ty.span, Problem::LocalNotScalar),
            };
            let initializer = match &local.initializer {
                Some(initializer) => initializer,
                None => return report(local.span, Problem::LocalWithoutInitializer),
            };
            if initializer.diverges {
                return report(initializer.value.span, Problem::LetElse);
            }
            let name = local_msl_identifier(ident.name.as_str());
            let statement = match lower_let(&initializer.value, name, scalar, context, locals) {
                Ok(statement) => statement,
                Err(diagnostic) => return Err(diagnostic),
            };
            let mutable = typed_pat_is_mutable(pattern);
            locals.insert(ident.name.clone(), LocalInfo { looped: false, mutable });
            Ok(statement)
        },
        _ => report(local.pattern.span, Problem::UntypedLocal),
    }
}

/// The loop over a literal range that runs lowered statements.
pub open spec fn loop_over(
    name: Seq<char>,
    range: LoopRange,
    body: Result<(Seq<StatementView>, Map<Seq<char>, LocalInfo>), Diagnostic>,
) -> Result<StatementView, Diagnostic> {
    match body {
        Ok((body, _)) => Ok(
            StatementView::ForRange {
                variable: loop_text(name),
                start: range.start,
                end: range.end,
                inclusive: range.inclusive,
                body,
            },
        ),
        Err(diagnostic) => Err(diagnostic),
    }
}

/// What an expression that stands as a statement is in the device language.
pub open spec fn lowered_statement(
    expression: SourceExpr,
    scope: Scope,
    locals: Map<Seq<char>, LocalInfo>,
) -> Result<StatementView, Diagnostic>
    decreases expression, 0nat,
{
    match expression.kind {
        ExprKind::Assign { left, right } => match target_of(*left, locals) {
            Ok(name) => match lowered(*right, scope, locals) {
                Ok(value) => Ok(StatementView::Assign { name, op: AssignOp::Assign, value }),
                Err(diagnostic) => Err(diagnostic),
            },
            Err(diagnostic) => Err(diagnostic),
        },
        ExprKind::Binary { op, left, right, .. } => match assignment_operator(op) {
            Some(op) => match target_of(*left, locals) {
                Ok(name) => match lowered(*right, scope, locals) {
                    Ok(value) => Ok(StatementView::Assign { name, op, value }),
                    Err(diagnostic) => Err(diagnostic),
                },
                Err(diagnostic) => Err(diagnostic),
            },
            None => problem_at(expression.span, Problem::BinaryStatement),
        },
        ExprKind::ForLoop { pattern, range, body } => lowered_for_loop(
            pattern,
            *range,
            body,
            scope,
            locals,
        ),
        ExprKind::MethodCall { receiver, method, arguments, arguments_span } => if method@
            == "for_each"@ {
            if arguments@.len() != 1 {
                problem_at(arguments_span, Problem::ForEachArguments)
            } else {
                match arguments@[0].kind {
                    ExprKind::Closure(closure) => lowered_for_each(
                        *receiver,
                        closure,
                        scope,
                        locals,
                    ),
                    _ => problem_at(arguments@[0].span, Problem::ForEachNotClosure),
                }
            }
        } else {
            problem_at(expression.span, Problem::UnsupportedStatement)
        },
        _ => problem_at(expression.span, Problem::UnsupportedStatement),
    }
}

/// The loop that `for` is on a range.
pub open spec fn lowered_for_loop(
    pattern: SourcePattern,
    range: SourceExpr,
    body: SourceBlock,
    scope: Scope,
    locals: Map<Seq<char>, LocalInfo>,
) -> Result<StatementView, Diagnostic>
    decreases body, 0nat,
{
    match pattern_ident(&pattern) {
        Ok(ident) => match range_of(range, scope, locals) {
            Ok(range) => loop_over(
                ident.name@,
                range,
                lowered_statements(body.statements@, scope, loop_locals(ident.name@, locals)),
            ),
            Err(diagnostic) => Err(diagnostic),
        },
        Err(diagnostic) => Err(diagnostic),
    }
}

/// The loop that `for_each` with a closure is on a range.
pub open spec fn lowered_for_each(
    receiver: SourceExpr,
    closure: SourceClosure,
    scope: Scope,
    locals: Map<Seq<char>, LocalInfo>,
) -> Result<StatementView, Diagnostic>
    decreases closure, 0nat,
{
    if closure.inputs@.len() != 1 {
        problem_at(closure.inputs_span, Problem::ForEachInputs)
    } else {
        match pattern_ident(&closure.inputs@[0]) {
            Ok(ident) => match range_of(receiver, scope, locals) {
                Ok(range) => loop_over(
                    ident.name@,
                    range,
                    lowered_closure_body(*closure.body, scope, loop_locals(ident.name@, locals)),
                ),
                Err(diagnostic) => Err(diagnostic),
            },
            Err(diagnostic) => Err(diagnostic),
        }
    }
}

/// The statements that the body of a loop's closure is: those of a block, or one.
pub open spec fn lowered_closure_body(
    body: SourceExpr,
    scope: Scope,
    locals: Map<Seq<char>, LocalInfo>,
) -> Result<(Seq<StatementView>, Map<Seq<char>, LocalInfo>), Diagnostic>
    decreases body, 1nat,
{
    match body.kind {
        ExprKind::Block(block) => lowered_statements(block.statements@, scope, locals),
        _ => match lowered_statement(body, scope, locals) {
            Ok(statement) => Ok((seq![statement], locals)),
            Err(diagnostic) => Err(diagnostic),
        },
    }
}

/// What a statement inside a loop is in the device language, and the variables after it.
pub open spec fn lowered_step(
    statement: SourceStatement,
    scope: Scope,
    locals: Map<Seq<char>, LocalInfo>,
) -> Result<(StatementView, Map<Seq<char>, LocalInfo>), Diagnostic>
    decreases statement, 0nat,
{
    match statement {
        SourceStatement::Local(local) => lowered_local(local, scope, locals),
        SourceStatement::Expr { expression, .. } => match lowered_statement(
            expression,
            scope,
            locals,
        ) {
            Ok(statement) => Ok((statement, locals)),
            Err(diagnostic) => Err(diagnostic),
        },
        SourceStatement::Item(span) => problem_at(span, Problem::ItemInLoop),
        SourceStatement::Macro(span) => problem_at(span, Problem::MacroInLoop),
    }
}

/// What the statements inside a loop are in the device language, and the variables after them.
pub open spec fn lowered_statements(
    statements: Seq<SourceStatement>,
    scope: Scope,
    locals: Map<Seq<char>, LocalInfo>,
) -> Result<(Seq<StatementView>, Map<Seq<char>, LocalInfo>), Diagnostic>
    decreases statements, 0nat,
{
    if statements.len() == 0 {
        Ok((Seq::empty(), locals))
    } else {
        match lowered_statements(statements.drop_last(), scope, locals) {
            Ok((done, between)) => match lowered_step(statements.last(), scope, between) {
                Ok((statement, after)) => Ok((done.push(statement), after)),
                Err(diagnostic) => Err(diagnostic),
            },
            Err(diagnostic) => Err(diagnostic),
        }
    }
}

/// The variables that lowering the statements inside a loop leaves: those after them, or those
/// before the first one that is refused.
pub open spec fn locals_left(
    statements: Seq<SourceStatement>,
    scope: Scope,
    locals: Map<Seq<char>, LocalInfo>,
) -> Map<Seq<char>, LocalInfo>
    decreases statements.len(),
{
    if statements.len() == 0 {
        locals
    } else {
        match lowered_statements(statements.drop_last(), scope, locals) {
            Ok((_, between)) => match lowered_step(statements.last(), scope, between) {
                Ok((_, after)) => after,
                Err(_) => between,
            },
            Err(_) => locals_left(statements.drop_last(), scope, locals),
        }
    }
}

/// Whether lowering an expression that stands as a statement gave what it is in the device
/// language.
pub open spec fn is_lowered_statement(
    result: Result<Statement, Diagnostic>,
    expected: Result<StatementView, Diagnostic>,
) -> bool {
    match (result, expected) {
        (Ok(statement), Ok(expected)) => statement@ == expected,
        (Err(diagnostic), Err(expected)) => diagnostic == expected,
        _ => false,
    }
}

/// Whether lowering the statements of a loop gave what they are in the device language, and left
/// the variables after them.
pub open spec fn are_lowered_statements(
    result: Result<Vec<Statement>, Diagnostic>,
    locals: Map<Seq<char>, LocalInfo>,
    expected: Result<(Seq<StatementView>, Map<Seq<char>, LocalInfo>), Diagnostic>,
) -> bool {
    match (result, expected) {
        (Ok(statements), Ok((expected, after))) => statement_views(statements@) == expected
            && locals == after,
        (Err(diagnostic), Err(expected)) => diagnostic == expected,
        _ => false,
    }
}

/// Lowers an expression that stands as a statement.
pub fn lower_statement(
    expression: &SourceExpr,
    context: &DeviceContext<'_>,
    locals: &NameMap<LocalInfo>,
) -> (statement: Result<Statement, Diagnostic>)
    ensures
        is_lowered_statement(statement, lowered_statement(*expression, context@, locals@)),
    decreases expression, 0nat,
{
    match &expression.kind {
        ExprKind::Assign { left, right } => {
            let name = match assignment_target(left, locals) {
                Ok(name) => name,
                Err(diagnostic) => return Err(diagnostic),
            };
            match lower_expression(right, context, locals) {
                Ok(value) => Ok(Statement::Assign { name, op: AssignOp::Assign, value }),
                Err(diagnostic) => Err(diagnostic),
            }
        },
        ExprKind::Binary { op, left, right, .. } => {
            let op: AssignOp = match lower_assignment_operator(*op) {
                Some(op) => op,
                None => return report(expression.span, Problem::BinaryStatement),
            };
            let name = match assignment_target(left, locals) {
                Ok(name) => name,
                Err(diagnostic) => return Err(diagnostic),
            };
            match lower_expression(right, context, locals) {
                Ok(value) => Ok(Statement::Assign { name, op, value }),
                Err(diagnostic) => Err(diagnostic),
            }
        },
        ExprKind::ForLoop { pattern, range, body } => lower_for_loop(
            pattern,
            range,
            body,
            context,
            locals,
        ),
        ExprKind::MethodCall { receiver, method, arguments, arguments_span } => {
            if !same_text(method.as_str(), "for_each") {
                return report(expression.span, Problem::UnsupportedStatement);
            }
            if arguments.len() != 1 {
                return report(*arguments_span, Problem::ForEachArguments);
            }
            match &arguments[0].kind {
                ExprKind::Closure(closure) => lower_for_each(receiver, closure, context, locals),
                _ => report(arguments[0].span, Problem::ForEachNotClosure),
            }
        },
        _ => report(expression.span, Problem::UnsupportedStatement),
    }
}

/// Lowers `for` on a range.
pub fn lower_for_loop(
    pattern: &SourcePattern,
    range: &SourceExpr,
    body: &SourceBlock,
    context: &DeviceContext<'_>,
    locals: &NameMap<LocalInfo>,
) -> (statement: Result<Statement, Diagnostic>)
    ensures
        is_lowered_statement(
            statement,
            lowered_for_loop(*pattern, *range, *body, context@, locals@),
        ),
    decreases body, 0nat,
{
    let ident = match simple_pat_ident(pattern) {
        Ok(ident) => ident,
        Err(diagnostic) => return Err(diagnostic),
    };
    let range: LoopRange = match fixed_range(range, context, locals) {
        Ok(range) => range,
        Err(diagnostic) => return Err(diagnostic),
    };
    let mut inner = locals.duplicate();
    inner.insert(ident.name.clone(), LocalInfo { looped: true, mutable: false });
    match lower_unit_block(&body.statements, context, &mut inner) {
        Ok(body) => Ok(
            Statement::ForRange {
                variable: loop_msl_identifier(ident.name.as_str()),
                start: range.start,
                end: range.end,
                inclusive: range.inclusive,
                body,
            },
        ),
        Err(diagnostic) => Err(diagnostic),
    }
}

/// Lowers `for_each` with a closure on a range.
pub fn lower_for_each(
    receiver: &SourceExpr,
    closure: &SourceClosure,
    context: &DeviceContext<'_>,
    locals: &NameMap<LocalInfo>,
) -> (statement: Result<Statement, Diagnostic>)
    ensures
        is_lowered_statement(
            statement,
            lowered_for_each(*receiver, *closure, context@, locals@),
        ),
    decreases closure, 0nat,
{
    if closure.inputs.len() != 1 {
        return report(closure.inputs_span, Problem::ForEachInputs);
    }
    let ident = match simple_pat_ident(&closure.inputs[0]) {
        Ok(ident) => ident,
        Err(diagnostic) => return Err(diagnostic),
    };
    let range: LoopRange = match fixed_range(receiver, context, locals) {
        Ok(range) => range,
        Err(diagnostic) => return Err(diagnostic),
    };
    let mut inner = locals.duplicate();
    inner.insert(ident.name.clone(), LocalInfo { looped: true, mutable: false });
    match lower_loop_closure_body(&closure.body, context, &mut inner) {
        Ok(body) => Ok(
            Statement::ForRange {
                variable: loop_msl_identifier(ident.name.as_str()),
                start: range.start,
                end: range.end,
                inclusive: range.inclusive,
                body,
            },
        ),
        Err(diagnostic) => Err(diagnostic),
    }
}

/// Lowers the body of a loop's closure.
pub fn lower_loop_closure_body(
    body: &SourceExpr,
    context: &DeviceContext<'_>,
    locals: &mut NameMap<LocalInfo>,
) -> (statements: Result<Vec<Statement>, Diagnostic>)
    ensures
        are_lowered_statements(
            statements,
            final(locals)@,
            lowered_closure_body(*body, context@, old(locals)@),
        ),
        final(locals)@ == match body.kind {
            ExprKind::Block(block) => locals_left(block.statements@, context@, old(locals)@),
            _ => old(locals)@,
        },
    decreases body, 1nat,
{
    match &body.kind {
        ExprKind::Block(block) => lower_unit_block(&block.statements, context, locals),
        _ => match lower_statement(body, context, locals) {
            Ok(statement) => {
                let ghost view = statement@;
                let mut statements: Vec<Statement> = Vec::new();
                statements.push(statement);
                proof {
                    lemma_statement_views(statements@);
                    assert(statement_views(statements@) =~= seq![view]);
                }
                Ok(statements)
            },
            Err(diagnostic) => Err(diagnostic),
        },
    }
}

proof fn lemma_lowered_statements_fail(
    statements: Seq<SourceStatement>,
    scope: Scope,
    locals: Map<Seq<char>, LocalInfo>,
    count: int,
)
    requires
        0 <= count <= statements.len(),
        lowered_statements(statements.take(count), scope, locals) is Err,
    ensures
        lowered_statements(statements, scope, locals) == lowered_statements(
            statements.take(count),
            scope,
            locals,
        ),
        locals_left(statements, scope, locals) == locals_left(
            statements.take(count),
            scope,
            locals,
        ),
    decreases statements.len(),
{
    if count < statements.len() {
        let shorter = statements.drop_last();
        assert(shorter.take(count) =~= statements.take(count));
        lemma_lowered_statements_fail(shorter, scope, locals, count);
    } else {
        assert(statements.take(count) =~= statements);
    }
}

/// Lowers a statement inside a loop.
fn lower_step(
    statement: &SourceStatement,
    context: &DeviceContext<'_>,
    locals: &mut NameMap<LocalInfo>,
) -> (lowered: Result<Statement, Diagnostic>)
    ensures
        match (lowered, lowered_step(*statement, context@, old(locals)@)) {
            (Ok(lowered), Ok((expected, after))) => lowered@ == expected && final(locals)@ == after,
            (Err(diagnostic), Err(expected)) => diagnostic == expected && final(locals)@ == old(
                locals,
            )@,
            _ => false,
        },
    decreases statement, 0nat,
{
    match statement {
        SourceStatement::Local(local) => lower_local(local, context, locals),
        SourceStatement::Expr { expression, .. } => lower_statement(expression, context, locals),
        SourceStatement::Item(span) => report(*span, Problem::ItemInLoop),
        SourceStatement::Macro(span) => report(*span, Problem::MacroInLoop),
    }
}

/// Lowers the statements inside a loop.
pub fn lower_unit_block(
    statements: &Vec<SourceStatement>,
    context: &DeviceContext<'_>,
    locals: &mut NameMap<LocalInfo>,
) -> (lowered: Result<Vec<Statement>, Diagnostic>)
    ensures
        are_lowered_statements(
            lowered,
            final(locals)@,
            lowered_statements(statements@, context@, old(locals)@),
        ),
        final(locals)@ == locals_left(statements@, context@, old(locals)@),
    decreases statements, 0nat,
{
    let ghost outer = locals@;
    let mut lowered: Vec<Statement> = Vec::new();
    let mut index: usize = 0;
    while index < statements.len()
        invariant
            index <= statements@.len(),
            outer == old(locals)@,
            lowered_statements(statements@.take(index as int), context@, outer) == Ok::<
                (Seq<StatementView>, Map<Seq<char>, LocalInfo>),
                Diagnostic,
            >((statement_views(lowered@), locals@)),
            locals@ == locals_left(statements@.take(index as int), context@, outer),
        decreases statements@.len() - index,
    {
        let ghost next = statements@.take(index + 1);
        assert(next.drop_last() =~= statements@.take(index as int));
        match lower_step(&statements[index], context, locals) {
            Ok(statement) => {
                let ghost before = lowered@;
                lowered.push(statement);
                assert(lowered@.drop_last() =~= before);
            },
            Err(diagnostic) => {
                proof {
                    lemma_lowered_statements_fail(statements@, context@, outer, index + 1);
                }
                return Err(diagnostic);
            },
        }
        index += 1;
    }
    assert(statements@.take(statements@.len() as int) =~= statements@);
    Ok(lowered)
}

/// What some of the statements of a map's block are in the device language.
#[verifier::ext_equal]
pub ghost struct BlockParts {
    pub statements: Seq<StatementView>,
    /// The expression of the output element, where the block ends with one.
    pub result: Option<ExprView>,
    /// The variables after the statements.
    pub locals: Map<Seq<char>, LocalInfo>,
}

/// What the first `count` statements of a map's block are in the device language. The last
/// statement is the output expression where it has no semicolon and is no `for` loop.
pub open spec fn lowered_parts(
    statements: Seq<SourceStatement>,
    count: nat,
    scope: Scope,
    locals: Map<Seq<char>, LocalInfo>,
) -> Result<BlockParts, Diagnostic>
    decreases count,
{
    if count == 0 {
        Ok(BlockParts { statements: Seq::empty(), result: None, locals })
    } else {
        match lowered_parts(statements, (count - 1) as nat, scope, locals) {
            Ok(parts) => lowered_part(
                statements[count - 1],
                count == statements.len(),
                scope,
                parts,
            ),
            Err(diagnostic) => Err(diagnostic),
        }
    }
}

/// What the output expression is in the device language: the statements that compute it, and the
/// expression that gives it. A sum is computed in a variable of its own.
pub open spec fn lowered_result(
    expression: SourceExpr,
    scope: Scope,
    locals: Map<Seq<char>, LocalInfo>,
) -> Result<(Seq<StatementView>, ExprView), Diagnostic> {
    if is_sum(expression) {
        match lowered_let(expression, "__pm_sum"@, scope.output, scope, locals) {
            Ok(statement) => Ok((seq![statement], ExprView::Local("__pm_sum"@))),
            Err(diagnostic) => Err(diagnostic),
        }
    } else {
        match lowered(expression, scope, locals) {
            Ok(value) => Ok((Seq::empty(), value)),
            Err(diagnostic) => Err(diagnostic),
        }
    }
}

/// Lowers the output expression, and appends the statements that compute it.
pub fn lower_result(
    expression: &SourceExpr,
    context: &DeviceContext<'_>,
    locals: &NameMap<LocalInfo>,
    statements: &mut Vec<Statement>,
) -> (value: Result<Expr, Diagnostic>)
    ensures
        match (value, lowered_result(*expression, context@, locals@)) {
            (Ok(value), Ok((before, expected))) => value@ == expected && statement_views(
                final(statements)@,
            ) == statement_views(old(statements)@) + before,
            (Err(diagnostic), Err(expected)) => diagnostic == expected && final(statements)@ == old(
                statements,
            )@,
            _ => false,
        },
{
    if expression_is_sum(expression) {
        match lower_let(expression, "__pm_sum".to_owned(), context.output, context, locals) {
            Ok(statement) => {
                let ghost before = statements@;
                let ghost view = statement@;
                statements.push(statement);
                assert(statements@.drop_last() =~= before);
                assert(statement_views(statements@) =~= statement_views(before) + seq![view]);
                Ok(Expr::Local("__pm_sum".to_owned()))
            },
            Err(diagnostic) => Err(diagnostic),
        }
    } else {
        assert(statement_views(statements@) + Seq::<StatementView>::empty() =~= statement_views(
            statements@,
        ));
        lower_expression(expression, context, locals)
    }
}

/// The variables that lowering the first `count` statements of a map's block leaves: those after
/// them, or those before the first one that is refused.
pub open spec fn parts_left(
    statements: Seq<SourceStatement>,
    count: nat,
    scope: Scope,
    locals: Map<Seq<char>, LocalInfo>,
) -> Map<Seq<char>, LocalInfo>
    decreases count,
{
    if count == 0 {
        locals
    } else {
        let previous = (count - 1) as nat;
        match lowered_parts(statements, previous, scope, locals) {
            Ok(before) => match lowered_parts(statements, count, scope, locals) {
                Ok(parts) => parts.locals,
                Err(_) => before.locals,
            },
            Err(_) => parts_left(statements, previous, scope, locals),
        }
    }
}

/// What one more statement adds to the parts of a map's block.
pub open spec fn lowered_part(
    statement: SourceStatement,
    last: bool,
    scope: Scope,
    parts: BlockParts,
) -> Result<BlockParts, Diagnostic> {
    match statement {
        SourceStatement::Local(local) => match lowered_local(local, scope, parts.locals) {
            Ok((statement, locals)) => Ok(
                BlockParts {
                    statements: parts.statements.push(statement),
                    result: parts.result,
                    locals,
                },
            ),
            Err(diagnostic) => Err(diagnostic),
        },
        SourceStatement::Expr { expression, semicolon } => if !semicolon && last
            && !(expression.kind is ForLoop) {
            match lowered_result(expression, scope, parts.locals) {
                Ok((before, value)) => Ok(
                    BlockParts {
                        statements: parts.statements + before,
                        result: Some(value),
                        locals: parts.locals,
                    },
                ),
                Err(diagnostic) => Err(diagnostic),
            }
        } else {
            match lowered_statement(expression, scope, parts.locals) {
                Ok(statement) => Ok(
                    BlockParts { statements: parts.statements.push(statement), ..parts },
                ),
                Err(diagnostic) => Err(diagnostic),
            }
        },
        SourceStatement::Item(span) => problem_at(span, Problem::ItemInMapBlock),
        SourceStatement::Macro(span) => problem_at(span, Problem::MacroInMapBlock),
    }
}

proof fn lemma_lowered_parts_fail(
    statements: Seq<SourceStatement>,
    count: nat,
    total: nat,
    scope: Scope,
    locals: Map<Seq<char>, LocalInfo>,
)
    requires
        count <= total,
        lowered_parts(statements, count, scope, locals) is Err,
    ensures
        lowered_parts(statements, total, scope, locals) == lowered_parts(
            statements,
            count,
            scope,
            locals,
        ),
        parts_left(statements, total, scope, locals) == parts_left(
            statements,
            count,
            scope,
            locals,
        ),
    decreases total,
{
    if count < total {
        lemma_lowered_parts_fail(statements, count, (total - 1) as nat, scope, locals);
    }
}

/// The view of an optional expression.
pub open spec fn optional_expr(value: Option<Expr>) -> Option<ExprView> {
    match value {
        Some(value) => Some(value@),
        None => None,
    }
}

/// Lowers the statements of a map's block and the expression that it ends with.
pub fn lower_block_parts(
    block: &SourceBlock,
    context: &DeviceContext<'_>,
    locals: &mut NameMap<LocalInfo>,
) -> (parts: Result<(Vec<Statement>, Option<Expr>), Diagnostic>)
    ensures
        match (
            parts,
            lowered_parts(block.statements@, block.statements@.len(), context@, old(locals)@),
        ) {
            (Ok((statements, result)), Ok(expected)) => statement_views(statements@)
                == expected.statements && optional_expr(result) == expected.result && final(locals)@
                == expected.locals,
            (Err(diagnostic), Err(expected)) => diagnostic == expected,
            _ => false,
        },
        final(locals)@ == parts_left(
            block.statements@,
            block.statements@.len(),
            context@,
            old(locals)@,
        ),
{
    let ghost outer = locals@;
    let mut statements: Vec<Statement> = Vec::new();
    let mut result: Option<Expr> = None;
    let mut index: usize = 0;
    while index < block.statements.len()
        invariant
            index <= block.statements@.len(),
            outer == old(locals)@,
            lowered_parts(block.statements@, index as nat, context@, outer) == Ok::<
                BlockParts,
                Diagnostic,
            >(
                BlockParts {
                    statements: statement_views(statements@),
                    result: optional_expr(result),
                    locals: locals@,
                },
            ),
            locals@ == parts_left(block.statements@, index as nat, context@, outer),
        decreases block.statements@.len() - index,
    {
        let ghost before = statements@;
        let is_last = index + 1 == block.statements.len();
        let failed: Option<Diagnostic> = match &block.statements[index] {
            SourceStatement::Local(local) => match lower_local(local, context, locals) {
                Ok(statement) => {
                    statements.push(statement);
                    assert(statements@.drop_last() =~= before);
                    None
                },
                Err(diagnostic) => Some(diagnostic),
            },
            SourceStatement::Expr { expression, semicolon } => {
                if !*semicolon && is_last && !matches!(expression.kind, ExprKind::ForLoop { .. }) {
                    match lower_result(expression, context, locals, &mut statements) {
                        Ok(value) => {
                            result = Some(value);
                            None
                        },
                        Err(diagnostic) => Some(diagnostic),
                    }
                } else {
                    match lower_statement(expression, context, locals) {
                        Ok(statement) => {
                            statements.push(statement);
                            assert(statements@.drop_last() =~= before);
                            None
                        },
                        Err(diagnostic) => Some(diagnostic),
                    }
                }
            },
            SourceStatement::Item(span) => Some(
                Diagnostic { span: *span, problem: Problem::ItemInMapBlock },
            ),
            SourceStatement::Macro(span) => Some(
                Diagnostic { span: *span, problem: Problem::MacroInMapBlock },
            ),
        };
        index += 1;
        if let Some(diagnostic) = failed {
            proof {
                lemma_lowered_parts_fail(
                    block.statements@,
                    index as nat,
                    block.statements@.len(),
                    context@,
                    outer,
                );
            }
            return Err(diagnostic);
        }
    }
    Ok((statements, result))
}

/// What the body of a map's closure is in the device language: a block of statements that ends
/// with the output expression, or that expression alone.
pub open spec fn lowered_body(expression: SourceExpr, scope: Scope) -> Result<
    DeviceBlockView,
    Diagnostic,
> {
    match expression.kind {
        ExprKind::Block(block) => match lowered_parts(
            block.statements@,
            block.statements@.len(),
            scope,
            Map::empty(),
        ) {
            Ok(parts) => match parts.result {
                Some(result) => Ok(DeviceBlockView { statements: parts.statements, result }),
                None => problem_at(block.span, Problem::MapBlockWithoutResult),
            },
            Err(diagnostic) => Err(diagnostic),
        },
        _ => match lowered_result(expression, scope, Map::empty()) {
            Ok((statements, result)) => Ok(DeviceBlockView { statements, result }),
            Err(diagnostic) => Err(diagnostic),
        },
    }
}

/// Lowers the body of a map's closure.
pub fn lower_device_body(expression: &SourceExpr, context: &DeviceContext<'_>) -> (body: Result<
    DeviceBlock,
    Diagnostic,
>)
    ensures
        match (body, lowered_body(*expression, context@)) {
            (Ok(body), Ok(expected)) => body@ == expected,
            (Err(diagnostic), Err(expected)) => diagnostic == expected,
            _ => false,
        },
{
    let mut locals: NameMap<LocalInfo> = NameMap::new();
    match &expression.kind {
        ExprKind::Block(block) => match lower_block_parts(block, context, &mut locals) {
            Ok((statements, result)) => match result {
                Some(result) => Ok(DeviceBlock { statements, result }),
                None => report(block.span, Problem::MapBlockWithoutResult),
            },
            Err(diagnostic) => Err(diagnostic),
        },
        _ => {
            let mut statements: Vec<Statement> = Vec::new();
            match lower_result(expression, context, &locals, &mut statements) {
                Ok(result) => {
                    assert(statement_views(statements@)
                        =~= lowered_body(*expression, context@)->Ok_0.statements);
                    Ok(DeviceBlock { statements, result })
                },
                Err(diagnostic) => Err(diagnostic),
            }
        },
    }
}

/// Whether the first so many statements inside a loop are lowered, and leave variables, and the
/// next one is not.
pub open spec fn lowered_until(
    statements: Seq<SourceStatement>,
    scope: Scope,
    locals: Map<Seq<char>, LocalInfo>,
    count: int,
    left: Map<Seq<char>, LocalInfo>,
) -> bool {
    &&& 0 <= count < statements.len()
    &&& lowered_statements(statements.take(count), scope, locals) matches Ok((_, after)) && after
        == left
    &&& lowered_statements(statements.take(count + 1), scope, locals) is Err
}

/// Lowering the statements inside a loop leaves the variables of those that were lowered: of all of
/// them, or of those before the first one that is refused.
pub proof fn law_loops_leave_the_variables_of_what_was_lowered(
    statements: Seq<SourceStatement>,
    scope: Scope,
    locals: Map<Seq<char>, LocalInfo>,
)
    ensures
        ({
            let left = locals_left(statements, scope, locals);
            match lowered_statements(statements, scope, locals) {
                Ok((_, after)) => left == after,
                Err(_) => exists|count: int| #[trigger]
                    lowered_until(statements, scope, locals, count, left),
            }
        }),
    decreases statements.len(),
{
    if statements.len() > 0 {
        let shorter = statements.drop_last();
        let left = locals_left(statements, scope, locals);
        let last = statements.len() - 1;
        law_loops_leave_the_variables_of_what_was_lowered(shorter, scope, locals);
        assert(statements.take(last) =~= shorter);
        assert(statements.take(last + 1) =~= statements);
        match lowered_statements(shorter, scope, locals) {
            Ok(_) => {
                if lowered_statements(statements, scope, locals) is Err {
                    assert(lowered_until(statements, scope, locals, last, left));
                }
            },
            Err(_) => {
                let count = choose|count: int| #[trigger]
                    lowered_until(shorter, scope, locals, count, left);
                assert(statements.take(count) =~= shorter.take(count));
                assert(statements.take(count + 1) =~= shorter.take(count + 1));
                assert(lowered_until(statements, scope, locals, count, left));
            },
        }
    }
}

/// Whether the first so many statements of a map's block are lowered, and leave variables, and the
/// next one is not.
pub open spec fn parts_lowered_until(
    statements: Seq<SourceStatement>,
    scope: Scope,
    locals: Map<Seq<char>, LocalInfo>,
    count: nat,
    left: Map<Seq<char>, LocalInfo>,
) -> bool {
    &&& lowered_parts(statements, count, scope, locals) matches Ok(parts) && parts.locals == left
    &&& lowered_parts(statements, count + 1, scope, locals) is Err
}

/// Lowering the first statements of a map's block leaves the variables of those that were lowered:
/// of all of them, or of those before the first one that is refused.
pub proof fn law_blocks_leave_the_variables_of_what_was_lowered(
    statements: Seq<SourceStatement>,
    count: nat,
    scope: Scope,
    locals: Map<Seq<char>, LocalInfo>,
)
    ensures
        ({
            let left = parts_left(statements, count, scope, locals);
            match lowered_parts(statements, count, scope, locals) {
                Ok(parts) => left == parts.locals,
                Err(_) => exists|before: nat| #[trigger]
                    parts_lowered_until(statements, scope, locals, before, left) && before < count,
            }
        }),
    decreases count,
{
    if count > 0 {
        let previous = (count - 1) as nat;
        let left = parts_left(statements, count, scope, locals);
        law_blocks_leave_the_variables_of_what_was_lowered(statements, previous, scope, locals);
        if lowered_parts(statements, previous, scope, locals) is Ok {
            if lowered_parts(statements, count, scope, locals) is Err {
                assert(parts_lowered_until(statements, scope, locals, previous, left));
            }
        }
    }
}

} // verus!
