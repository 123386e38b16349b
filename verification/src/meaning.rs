//! What a closure computes and what its kernel computes: lowering keeps the meaning.
//!
//! Both are defined over a [`Device`], which says how values are computed with and leaves open
//! what they are. A value has a type of its own, so a variable holds what it is given.
use vstd::prelude::*;

use crate::diagnostic::{Diagnostic, Problem};
use crate::expand::{
    chain_of, expanded, mode_of, scalar_map, scope_of, tensor_map, TensorParameter,
};
use crate::expr::ExprView;
use crate::extent::{coordinates, in_bounds, law_coordinates_of_offset, offset, product};
use crate::lower::{
    assignment_operator, bound_of, is_sum, loop_locals, lowered, lowered_all, lowered_block,
    lowered_body, lowered_for_each, lowered_let, lowered_local, lowered_parts, lowered_result,
    lowered_statement, lowered_statements, lowered_step, range_of, target_of, ungrouped,
    variable_text, CapturedTensor, LocalInfo, Scope,
};
use crate::names::{law_kinds_of_names_differ, local_text, loop_text, sanitized, scalar_text};
use crate::scoping::visible_tensors;
use crate::source::{
    ExprKind, LiteralKind, SourceBlock, SourceClosure, SourceExpr, SourceFunction, SourceLocal,
    SourceBinaryOp, SourceStatement, SourceType, SourceUnaryOp, TypeKind,
};
use crate::statement::{AssignOp, Bound, DeviceBlockView, StatementView};
use crate::syntax::{
    bindings_of, integer_of, pattern_ident, referent, scalar_of, ClosureBindingsView,
};
use crate::tensor::TensorView;
use crate::text::{digits_number, digits_value, without_plus};
use crate::types::{law_scalar_names_are_unique, ScalarType};

verus! {

/// How a device computes, whatever its values are.
#[verifier::reject_recursive_types(V)]
pub ghost struct Device<V> {
    /// What a literal stands for, as it is written in a kernel.
    pub literal: spec_fn(Seq<char>) -> V,
    /// A coordinate, the length of an axis, or the counter of a loop.
    pub number: spec_fn(nat) -> V,
    /// The value of an operator, by its token.
    pub unary: spec_fn(Seq<char>, V) -> V,
    /// The value of an operator, by its token.
    pub binary: spec_fn(Seq<char>, V, V) -> V,
    /// The value of a conversion, by the Metal name of the type.
    pub cast: spec_fn(Seq<char>, V) -> V,
    pub call: spec_fn(Seq<char>, V) -> V,
    /// Whether a condition holds.
    pub holds: spec_fn(V) -> bool,
    /// What a sum of a type starts from, by the Metal name of the type.
    pub zero: spec_fn(Seq<char>) -> V,
    /// The coordinate that a value is as an index.
    pub coordinate: spec_fn(V) -> usize,
}

/// What one thread of a kernel reads: its elements, its point, the extent, the tensors that the
/// body may capture, and the scalars by their names in the kernel.
pub ghost struct Thread<V> {
    pub inputs: Seq<V>,
    pub point: Seq<nat>,
    pub extent: Seq<nat>,
    pub captures: Seq<TensorView<V>>,
    pub scalars: Map<Seq<char>, V>,
}

/// The value of a device expression, given the variables by their names in the kernel.
pub open spec fn value<V>(
    expression: ExprView,
    thread: Thread<V>,
    variables: Map<Seq<char>, V>,
    device: Device<V>,
) -> V
    decreases expression,
{
    match expression {
        ExprView::Input(index) => thread.inputs[index as int],
        ExprView::PointAxis(axis) => (device.number)(thread.point[axis as int]),
        ExprView::ExtentAxis(axis) => (device.number)(thread.extent[axis as int]),
        ExprView::Captured { capture, coordinates } => thread.captures[capture.tensor as int].at(
            indices(values(coordinates, thread, variables, device), device),
        ),
        ExprView::CapturedAxis { capture, axis } => (device.number)(
            thread.captures[capture.tensor as int].axes[axis as int] as nat,
        ),
        ExprView::Scalar(name) => thread.scalars[name],
        ExprView::Local(name) => variables[name],
        ExprView::Literal(text) => (device.literal)(text),
        ExprView::Call { function, arguments } => if arguments.len() == 1 {
            (device.call)(function, value(arguments[0], thread, variables, device))
        } else {
            arbitrary()
        },
        ExprView::Unary { op, value: operand } => (device.unary)(
            op.msl_text(),
            value(*operand, thread, variables, device),
        ),
        ExprView::Binary { op, left, right } => (device.binary)(
            op.msl_text(),
            value(*left, thread, variables, device),
            value(*right, thread, variables, device),
        ),
        ExprView::Cast { value: operand, ty } => (device.cast)(
            ty.msl_text(),
            value(*operand, thread, variables, device),
        ),
        ExprView::Select { condition, when_true, when_false } => if (device.holds)(
            value(*condition, thread, variables, device),
        ) {
            value(*when_true, thread, variables, device)
        } else {
            value(*when_false, thread, variables, device)
        },
    }
}

/// The values of device expressions.
pub open spec fn values<V>(
    expressions: Seq<ExprView>,
    thread: Thread<V>,
    variables: Map<Seq<char>, V>,
    device: Device<V>,
) -> Seq<V>
    decreases expressions,
{
    if expressions.len() == 0 {
        Seq::empty()
    } else {
        values(expressions.drop_last(), thread, variables, device).push(
            value(expressions.last(), thread, variables, device),
        )
    }
}

/// The point that values are as indices.
pub open spec fn indices<V>(values: Seq<V>, device: Device<V>) -> Seq<usize> {
    values.map_values(|value: V| (device.coordinate)(value))
}

/// What the closure of a map sees of its element beside its arguments: the names by which it
/// indexes the point and the extent, and what it finds there; and the tensors by their names.
pub ghost struct Place<V> {
    pub point: Option<Seq<char>>,
    pub coordinates: Seq<nat>,
    pub lengths: Seq<nat>,
    pub tensors: Map<Seq<char>, TensorView<V>>,
}

/// The token of an operator in Rust.
pub open spec fn rust_token(op: SourceBinaryOp) -> Seq<char> {
    match op {
        SourceBinaryOp::Add => "+"@,
        SourceBinaryOp::Sub => "-"@,
        SourceBinaryOp::Mul => "*"@,
        SourceBinaryOp::Div => "/"@,
        SourceBinaryOp::Rem => "%"@,
        SourceBinaryOp::BitXor => "^"@,
        SourceBinaryOp::BitAnd => "&"@,
        SourceBinaryOp::BitOr => "|"@,
        SourceBinaryOp::Shl => "<<"@,
        SourceBinaryOp::Shr => ">>"@,
        SourceBinaryOp::Eq => "=="@,
        SourceBinaryOp::Ne => "!="@,
        SourceBinaryOp::Lt => "<"@,
        SourceBinaryOp::Le => "<="@,
        SourceBinaryOp::Gt => ">"@,
        SourceBinaryOp::Ge => ">="@,
        SourceBinaryOp::And => "&&"@,
        SourceBinaryOp::Or => "||"@,
        SourceBinaryOp::AddAssign => "+="@,
        SourceBinaryOp::SubAssign => "-="@,
        SourceBinaryOp::MulAssign => "*="@,
        SourceBinaryOp::DivAssign => "/="@,
        SourceBinaryOp::Other => Seq::empty(),
    }
}

/// Whether an operator assigns.
pub open spec fn is_assignment(op: SourceBinaryOp) -> bool {
    ||| op is AddAssign
    ||| op is SubAssign
    ||| op is MulAssign
    ||| op is DivAssign
}

/// The name in Metal of the type that has a name in Rust.
pub open spec fn metal_name(name: Seq<char>) -> Seq<char> {
    if name == "f32"@ {
        "float"@
    } else if name == "i8"@ {
        "char"@
    } else if name == "i16"@ {
        "short"@
    } else if name == "i32"@ {
        "int"@
    } else if name == "i64"@ {
        "long"@
    } else if name == "u8"@ {
        "uchar"@
    } else if name == "u16"@ {
        "ushort"@
    } else if name == "u32"@ {
        "uint"@
    } else if name == "u64"@ {
        "ulong"@
    } else {
        Seq::empty()
    }
}

/// The name in Metal of a Rust type.
pub open spec fn metal_type(ty: SourceType) -> Seq<char> {
    metal_name(ty.kind->last->0.name@)
}

/// The name in Metal of the element type of a tensor type, or of a reference to one.
pub open spec fn element_type(ty: SourceType) -> Seq<char> {
    let tensor = match ty.kind {
        TypeKind::Reference(referent) => *referent,
        _ => ty,
    };
    metal_type(tensor.kind->last->0.arguments->AngleBracketed_arguments@[0]->Type_0)
}

/// The name in Metal of the element type that a function returns.
pub open spec fn output_type(function: SourceFunction) -> Seq<char> {
    element_type(function.output->Type_0)
}

/// The number that a literal stands for.
pub open spec fn literal_number(literal: SourceExpr) -> nat {
    digits_value(without_plus(literal.kind->Lit_0.kind->Int_0@))
}

/// The axis that a literal index names.
pub open spec fn axis_of(index: SourceExpr) -> int {
    literal_number(index) as int
}

proof fn lemma_digits_number(text: Seq<char>, limit: nat)
    ensures
        digits_number(text, limit) matches Ok(value) ==> value == digits_value(text),
    decreases text.len(),
{
    if text.len() > 0 {
        lemma_digits_number(text.drop_last(), limit);
    }
}

/// An integer that was read from an expression is the number of its literal.
pub proof fn lemma_integer(expression: SourceExpr, limit: nat, otherwise: Problem)
    requires
        limit <= usize::MAX,
    ensures
        integer_of(expression, limit, otherwise) matches Ok(value) ==> value == literal_number(
            expression,
        ),
{
    if let ExprKind::Lit(literal) = expression.kind {
        if let LiteralKind::Int(digits) = literal.kind {
            lemma_digits_number(without_plus(digits@), limit);
            lemma_digits_bound(without_plus(digits@), limit);
        }
    }
}

proof fn lemma_digits_bound(text: Seq<char>, limit: nat)
    ensures
        digits_number(text, limit) matches Ok(value) ==> value <= limit,
{
}

/// A scalar type is written with the Metal name of its Rust name.
pub proof fn lemma_metal_name(name: Seq<char>)
    ensures
        ScalarType::named(name) matches Some(ty) ==> ty.msl_text() == metal_name(name),
{
    if let Some(ty) = ScalarType::named(name) {
        law_scalar_names_are_unique(name, ty);
        law_scalar_names_are_unique("f32"@, ScalarType::F32);
        law_scalar_names_are_unique("i8"@, ScalarType::I8);
        law_scalar_names_are_unique("i16"@, ScalarType::I16);
        law_scalar_names_are_unique("i32"@, ScalarType::I32);
        law_scalar_names_are_unique("i64"@, ScalarType::I64);
        law_scalar_names_are_unique("u8"@, ScalarType::U8);
        law_scalar_names_are_unique("u16"@, ScalarType::U16);
        law_scalar_names_are_unique("u32"@, ScalarType::U32);
        law_scalar_names_are_unique("u64"@, ScalarType::U64);
    }
}

/// The name that a path is.
pub open spec fn path_name(expression: SourceExpr) -> Seq<char> {
    expression.kind->Path_0.segments@[0].name@
}

/// What a Rust index with a literal finds: a coordinate of the point, the length of an axis, or the
/// length of an axis of a tensor.
pub open spec fn indexed<V>(base: SourceExpr, index: SourceExpr, place: Place<V>) -> nat {
    match base.kind {
        ExprKind::MethodCall { receiver, .. } => place.tensors[path_name(*receiver)].axes[axis_of(
            index,
        )] as nat,
        _ => if place.point == Some(path_name(base)) {
            place.coordinates[axis_of(index)]
        } else {
            place.lengths[axis_of(index)]
        },
    }
}

/// The value of a Rust expression, given what its names stand for.
pub open spec fn meaning<V>(
    expression: SourceExpr,
    names: Map<Seq<char>, V>,
    place: Place<V>,
    device: Device<V>,
) -> V
    decreases expression,
{
    match expression.kind {
        ExprKind::Index { base, index } => match index.kind {
            ExprKind::Tuple(elements) => place.tensors[path_name(*base)].at(
                indices(meanings(elements@, names, place, device), device),
            ),
            _ => (device.number)(indexed(*base, *index, place)),
        },
        ExprKind::Path(path) => names[path.segments@[0].name@],
        ExprKind::Call { function, arguments } => match function.kind {
            ExprKind::Path(path) => if arguments@.len() == 1 {
                (device.call)(
                    path.segments@[0].name@,
                    meaning(arguments@[0], names, place, device),
                )
            } else {
                arbitrary()
            },
            _ => arbitrary(),
        },
        ExprKind::Lit(literal) => match literal.kind {
            LiteralKind::Int(digits) => (device.literal)(digits@),
            LiteralKind::Float(digits) => (device.literal)(digits@ + "f"@),
            LiteralKind::Bool(true) => (device.literal)("true"@),
            LiteralKind::Bool(false) => (device.literal)("false"@),
            LiteralKind::Other => arbitrary(),
        },
        ExprKind::Paren(inner) => meaning(*inner, names, place, device),
        ExprKind::Group(inner) => meaning(*inner, names, place, device),
        ExprKind::Unary { op, operand } => match op {
            SourceUnaryOp::Deref => meaning(*operand, names, place, device),
            SourceUnaryOp::Neg => (device.unary)(
                "-"@,
                meaning(*operand, names, place, device),
            ),
            SourceUnaryOp::Other => arbitrary(),
        },
        ExprKind::Binary { op, left, right, .. } => (device.binary)(
            rust_token(op),
            meaning(*left, names, place, device),
            meaning(*right, names, place, device),
        ),
        ExprKind::Cast { operand, ty } => (device.cast)(
            metal_type(ty),
            meaning(*operand, names, place, device),
        ),
        ExprKind::If { condition, then_branch, else_branch } => match else_branch {
            Some(else_branch) => if (device.holds)(meaning(*condition, names, place, device)) {
                block_meaning(then_branch, names, place, device)
            } else {
                meaning(*else_branch, names, place, device)
            },
            None => arbitrary(),
        },
        ExprKind::Block(block) => block_meaning(block, names, place, device),
        _ => arbitrary(),
    }
}

/// The values of Rust expressions.
pub open spec fn meanings<V>(
    expressions: Seq<SourceExpr>,
    names: Map<Seq<char>, V>,
    place: Place<V>,
    device: Device<V>,
) -> Seq<V>
    decreases expressions,
{
    if expressions.len() == 0 {
        Seq::empty()
    } else {
        meanings(expressions.drop_last(), names, place, device).push(
            meaning(expressions.last(), names, place, device),
        )
    }
}

/// The value of a block that consists of one expression.
pub open spec fn block_meaning<V>(
    block: SourceBlock,
    names: Map<Seq<char>, V>,
    place: Place<V>,
    device: Device<V>,
) -> V
    decreases block,
{
    if block.statements@.len() == 1 {
        match block.statements@[0] {
            SourceStatement::Expr { expression, .. } => meaning(expression, names, place, device),
            _ => arbitrary(),
        }
    } else {
        arbitrary()
    }
}

/// Whether a name stands for something outside the body.
pub open spec fn outer(scope: Scope, name: Seq<char>) -> bool {
    ||| scope.bindings.dom().contains(name)
    ||| scope.point_axes.dom().contains(name)
    ||| scope.scalars.dom().contains(name)
}

/// The names that stand for something outside the body. They keep standing for it in device code,
/// also where the body declares a variable of the same name.
pub open spec fn fixed_names(scope: Scope) -> Set<Seq<char>> {
    Set::new(|name: Seq<char>| outer(scope, name))
}

/// What the names stand for once a variable is given a value: a name that is fixed keeps what it
/// stands for.
pub open spec fn rebound<V>(
    names: Map<Seq<char>, V>,
    fixed: Set<Seq<char>>,
    name: Seq<char>,
    given: V,
) -> Map<Seq<char>, V> {
    if fixed.contains(name) {
        names
    } else {
        names.insert(name, given)
    }
}

/// Whether no two names of a family become the same identifier in a kernel.
pub open spec fn distinct(family: Set<Seq<char>>) -> bool {
    forall|left: Seq<char>, right: Seq<char>|
        family.contains(left) && family.contains(right) && #[trigger] sanitized(left)
            == #[trigger] sanitized(right) ==> left == right
}

/// Whether a thread reads, under the names that lowering gives, what the closure reads under its
/// own.
pub open spec fn agree<V>(
    family: Set<Seq<char>>,
    scope: Scope,
    locals: Map<Seq<char>, LocalInfo>,
    names: Map<Seq<char>, V>,
    place: Place<V>,
    thread: Thread<V>,
    variables: Map<Seq<char>, V>,
    device: Device<V>,
) -> bool {
    &&& distinct(family)
    &&& place.point == scope.point
    &&& place.coordinates == thread.point
    &&& place.lengths == thread.extent
    &&& forall|name: Seq<char>| #[trigger]
        scope.tensors.dom().contains(name) ==> place.tensors[name]
            == thread.captures[scope.tensors[name].capture.tensor as int]
    &&& forall|name: Seq<char>| #[trigger] outer(scope, name) ==> names.dom().contains(name)
    &&& forall|name: Seq<char>| #[trigger]
        scope.bindings.dom().contains(name) ==> names[name]
            == thread.inputs[scope.bindings[name] as int]
    &&& forall|name: Seq<char>| #[trigger]
        scope.point_axes.dom().contains(name) && !scope.bindings.dom().contains(name)
            ==> names[name] == (device.number)(thread.point[scope.point_axes[name] as int])
    &&& forall|name: Seq<char>| #[trigger]
        scope.scalars.dom().contains(name) && !scope.bindings.dom().contains(name)
            && !scope.point_axes.dom().contains(name) ==> names[name]
            == thread.scalars[scalar_text(name)]
    &&& forall|name: Seq<char>| #[trigger]
        locals.dom().contains(name) ==> {
            &&& family.contains(name)
            &&& locals[name].looped ==> !locals[name].mutable
            &&& !outer(scope, name) ==> {
                &&& names.dom().contains(name)
                &&& variables.dom().contains(variable_text(name, locals[name]))
                &&& names[name] == variables[variable_text(name, locals[name])]
            }
        }
}

proof fn lemma_expression<V>(
    expression: SourceExpr,
    family: Set<Seq<char>>,
    scope: Scope,
    locals: Map<Seq<char>, LocalInfo>,
    names: Map<Seq<char>, V>,
    place: Place<V>,
    thread: Thread<V>,
    variables: Map<Seq<char>, V>,
    device: Device<V>,
)
    requires
        agree(family, scope, locals, names, place, thread, variables, device),
    ensures
        lowered(expression, scope, locals) matches Ok(lowered) ==> value(
            lowered,
            thread,
            variables,
            device,
        ) == meaning(expression, names, place, device),
    decreases expression,
{
    match expression.kind {
        ExprKind::Index { base, index } => {
            lemma_integer(*index, usize::MAX as nat, Problem::AxisNotLiteral);
            if let ExprKind::Tuple(elements) = index.kind {
                lemma_expressions(
                    elements@,
                    family,
                    scope,
                    locals,
                    names,
                    place,
                    thread,
                    variables,
                    device,
                );
            }
        },
        ExprKind::Call { function, arguments } => {
            if let Ok(values) = lowered_all(arguments@, scope, locals) {
                if values.len() == 1 {
                    lemma_only_argument(arguments@, scope, locals);
                    lemma_expression(
                        arguments@[0],
                        family,
                        scope,
                        locals,
                        names,
                        place,
                        thread,
                        variables,
                        device,
                    );
                }
            }
        },
        ExprKind::Paren(inner) => {
            lemma_expression(
                *inner,
                family,
                scope,
                locals,
                names,
                place,
                thread,
                variables,
                device,
            );
        },
        ExprKind::Group(inner) => {
            lemma_expression(
                *inner,
                family,
                scope,
                locals,
                names,
                place,
                thread,
                variables,
                device,
            );
        },
        ExprKind::Unary { op, operand } => {
            lemma_expression(
                *operand,
                family,
                scope,
                locals,
                names,
                place,
                thread,
                variables,
                device,
            );
        },
        ExprKind::Binary { op, op_span, left, right } => {
            lemma_expression(*left, family, scope, locals, names, place, thread, variables, device);
            lemma_expression(
                *right,
                family,
                scope,
                locals,
                names,
                place,
                thread,
                variables,
                device,
            );
        },
        ExprKind::Cast { operand, ty } => {
            lemma_metal_name(ty.kind->last->0.name@);
            lemma_expression(
                *operand,
                family,
                scope,
                locals,
                names,
                place,
                thread,
                variables,
                device,
            );
        },
        ExprKind::If { condition, then_branch, else_branch } => {
            if let Some(branch) = else_branch {
                lemma_expression(
                    *condition,
                    family,
                    scope,
                    locals,
                    names,
                    place,
                    thread,
                    variables,
                    device,
                );
                lemma_block(
                    then_branch,
                    family,
                    scope,
                    locals,
                    names,
                    place,
                    thread,
                    variables,
                    device,
                );
                lemma_expression(
                    *branch,
                    family,
                    scope,
                    locals,
                    names,
                    place,
                    thread,
                    variables,
                    device,
                );
            }
        },
        ExprKind::Block(block) => {
            lemma_block(block, family, scope, locals, names, place, thread, variables, device);
        },
        _ => {},
    }
}

proof fn lemma_block<V>(
    block: SourceBlock,
    family: Set<Seq<char>>,
    scope: Scope,
    locals: Map<Seq<char>, LocalInfo>,
    names: Map<Seq<char>, V>,
    place: Place<V>,
    thread: Thread<V>,
    variables: Map<Seq<char>, V>,
    device: Device<V>,
)
    requires
        agree(family, scope, locals, names, place, thread, variables, device),
    ensures
        lowered_block(block, scope, locals) matches Ok(lowered) ==> value(
            lowered,
            thread,
            variables,
            device,
        ) == block_meaning(block, names, place, device),
    decreases block,
{
    if block.statements@.len() == 1 {
        if let SourceStatement::Expr { expression, semicolon } = block.statements@[0] {
            lemma_expression(
                expression,
                family,
                scope,
                locals,
                names,
                place,
                thread,
                variables,
                device,
            );
        }
    }
}

proof fn lemma_expressions<V>(
    expressions: Seq<SourceExpr>,
    family: Set<Seq<char>>,
    scope: Scope,
    locals: Map<Seq<char>, LocalInfo>,
    names: Map<Seq<char>, V>,
    place: Place<V>,
    thread: Thread<V>,
    variables: Map<Seq<char>, V>,
    device: Device<V>,
)
    requires
        agree(family, scope, locals, names, place, thread, variables, device),
    ensures
        lowered_all(expressions, scope, locals) matches Ok(lowered) ==> values(
            lowered,
            thread,
            variables,
            device,
        ) == meanings(expressions, names, place, device),
    decreases expressions,
{
    if expressions.len() > 0 {
        let before = expressions.drop_last();
        lemma_expressions(before, family, scope, locals, names, place, thread, variables, device);
        lemma_expression(
            expressions.last(),
            family,
            scope,
            locals,
            names,
            place,
            thread,
            variables,
            device,
        );
        if let Ok(lowered) = lowered_all(expressions, scope, locals) {
            assert(lowered.drop_last() =~= lowered_all(before, scope, locals)->Ok_0);
        }
    }
}

/// A list of arguments that lowers to one value is one argument.
proof fn lemma_only_argument(
    arguments: Seq<SourceExpr>,
    scope: Scope,
    locals: Map<Seq<char>, LocalInfo>,
)
    requires
        lowered_all(arguments, scope, locals) is Ok,
        lowered_all(arguments, scope, locals)->Ok_0.len() == 1,
    ensures
        arguments.len() == 1,
        lowered(arguments[0], scope, locals) == Ok::<ExprView, Diagnostic>(
            lowered_all(arguments, scope, locals)->Ok_0[0],
        ),
{
    lemma_lowered_all_len(arguments, scope, locals);
    assert(arguments.drop_last() =~= Seq::empty());
}

proof fn lemma_lowered_all_len(
    arguments: Seq<SourceExpr>,
    scope: Scope,
    locals: Map<Seq<char>, LocalInfo>,
)
    ensures
        lowered_all(arguments, scope, locals) matches Ok(values) ==> values.len()
            == arguments.len(),
    decreases arguments.len(),
{
    if arguments.len() > 0 {
        lemma_lowered_all_len(arguments.drop_last(), scope, locals);
    }
}

/// What a variable holds after an assignment: what it is given, or what the operator before the
/// equals sign makes of what it held and what it is given.
pub open spec fn assigned<V>(token: Seq<char>, held: V, given: V, device: Device<V>) -> V {
    if token == "="@ {
        given
    } else {
        (device.binary)(token.drop_last(), held, given)
    }
}

/// The first counter that a loop does not reach.
pub open spec fn loop_stop(end: nat, inclusive: bool) -> nat {
    if inclusive {
        end + 1
    } else {
        end
    }
}

/// What a bound of a device loop is.
pub open spec fn bound_value<V>(bound: Bound, thread: Thread<V>) -> nat {
    match bound {
        Bound::Literal(value) => value as nat,
        Bound::ExtentAxis(axis) => thread.extent[axis as int],
        Bound::CapturedAxis { capture, axis } => thread.captures[capture.tensor as int].axes[
            axis as int] as nat,
    }
}

/// What a bound of a Rust range is.
pub open spec fn bound_meaning<V>(expression: SourceExpr, place: Place<V>) -> nat {
    match expression.kind {
        ExprKind::Index { base, index } => indexed(*base, *index, place),
        _ => literal_number(expression),
    }
}

/// The first counter of a Rust range.
pub open spec fn range_start<V>(expression: SourceExpr, place: Place<V>) -> nat {
    bound_meaning(*ungrouped(&expression).kind->Range_start->0, place)
}

/// The first counter behind a Rust range.
pub open spec fn range_stop<V>(expression: SourceExpr, place: Place<V>) -> nat {
    let range = ungrouped(&expression);
    loop_stop(bound_meaning(*range.kind->Range_end->0, place), range.kind->closed)
}

/// A device loop has the counters of the Rust range.
proof fn lemma_range<V>(
    expression: SourceExpr,
    family: Set<Seq<char>>,
    scope: Scope,
    locals: Map<Seq<char>, LocalInfo>,
    names: Map<Seq<char>, V>,
    place: Place<V>,
    thread: Thread<V>,
    variables: Map<Seq<char>, V>,
    device: Device<V>,
)
    requires
        agree(family, scope, locals, names, place, thread, variables, device),
    ensures
        range_of(expression, scope, locals) matches Ok(range) ==> {
            &&& bound_value(range.start, thread) == range_start(expression, place)
            &&& loop_stop(bound_value(range.end, thread), range.inclusive) == range_stop(
                expression,
                place,
            )
        },
{
    if let ExprKind::Range { start: Some(start), end: Some(end), .. } = ungrouped(
        &expression,
    ).kind {
        lemma_bound(*start, scope, locals);
        lemma_bound(*end, scope, locals);
    }
}

/// A bound that was read from an expression names the axis or holds the number of its literal.
proof fn lemma_bound(
    expression: SourceExpr,
    scope: Scope,
    locals: Map<Seq<char>, LocalInfo>,
)
    ensures
        bound_of(expression, scope, locals) matches Ok(bound) ==> match bound {
            Bound::Literal(value) => value == literal_number(expression) && !(
            expression.kind is Index),
            Bound::ExtentAxis(axis) => expression.kind is Index && axis == axis_of(
                *expression.kind->Index_index,
            ),
            Bound::CapturedAxis { axis, .. } => expression.kind is Index && axis == axis_of(
                *expression.kind->Index_index,
            ),
        },
{
    lemma_integer(expression, u32::MAX as nat, Problem::LoopBoundNotLiteral);
    if let ExprKind::Lit(literal) = expression.kind {
        if let LiteralKind::Int(digits) = literal.kind {
            lemma_digits_bound(without_plus(digits@), u32::MAX as nat);
        }
    }
    if let ExprKind::Index { base, index } = expression.kind {
        lemma_integer(*index, usize::MAX as nat, Problem::AxisNotLiteral);
    }
}

/// The sum of the device terms from a counter on, added to a total that a variable holds.
pub open spec fn sum_value<V>(
    term: ExprView,
    name: Seq<char>,
    variable: Seq<char>,
    counter: nat,
    stop: nat,
    total: V,
    thread: Thread<V>,
    variables: Map<Seq<char>, V>,
    device: Device<V>,
) -> V
    decreases stop - counter,
{
    if counter >= stop {
        total
    } else {
        let inside = variables.insert(name, total).insert(variable, (device.number)(counter));
        sum_value(
            term,
            name,
            variable,
            counter + 1,
            stop,
            (device.binary)("+"@, total, value(term, thread, inside, device)),
            thread,
            variables,
            device,
        )
    }
}

/// The sum of the values of a Rust closure from a counter on, added to a total.
pub open spec fn sum_meaning<V>(
    body: SourceExpr,
    variable: Seq<char>,
    counter: nat,
    stop: nat,
    total: V,
    names: Map<Seq<char>, V>,
    fixed: Set<Seq<char>>,
    place: Place<V>,
    device: Device<V>,
) -> V
    decreases stop - counter,
{
    if counter >= stop {
        total
    } else {
        let inside = rebound(names, fixed, variable, (device.number)(counter));
        sum_meaning(
            body,
            variable,
            counter + 1,
            stop,
            (device.binary)("+"@, total, meaning(body, inside, place, device)),
            names,
            fixed,
            place,
            device,
        )
    }
}

/// The closure of the map that a sum adds up.
pub open spec fn sum_closure(expression: SourceExpr) -> SourceClosure {
    let map = expression.kind->MethodCall_receiver;
    map.kind->MethodCall_arguments@[0].kind->Closure_0
}

/// The counter of a sum.
pub open spec fn sum_counter(expression: SourceExpr) -> Seq<char> {
    pattern_ident(&sum_closure(expression).inputs@[0])->Ok_0.name@
}

/// The value that a `let` of a type or the end of a body gives: of a sum, its terms added up from
/// the zero of the type.
pub open spec fn given_meaning<V>(
    expression: SourceExpr,
    ty: Seq<char>,
    names: Map<Seq<char>, V>,
    fixed: Set<Seq<char>>,
    place: Place<V>,
    device: Device<V>,
) -> V {
    if is_sum(expression) {
        let range = *expression.kind->MethodCall_receiver.kind->MethodCall_receiver;
        sum_meaning(
            *sum_closure(expression).body,
            sum_counter(expression),
            range_start(range, place),
            range_stop(range, place),
            (device.zero)(ty),
            names,
            fixed,
            place,
            device,
        )
    } else {
        meaning(expression, names, place, device)
    }
}

/// What holds after a round of a loop: what was declared in the round is gone, and the counter
/// gives its name back.
pub open spec fn leave<V>(
    before: Map<Seq<char>, V>,
    inside: Map<Seq<char>, V>,
    counter: Seq<char>,
) -> Map<Seq<char>, V> {
    Map::new(
        |name: Seq<char>| before.dom().contains(name),
        |name: Seq<char>|
            if name == counter {
                before[name]
            } else {
                inside[name]
            },
    )
}

/// The variables of a thread after a device statement.
pub open spec fn variables_after<V>(
    statement: StatementView,
    thread: Thread<V>,
    variables: Map<Seq<char>, V>,
    device: Device<V>,
) -> Map<Seq<char>, V>
    decreases statement, 0nat, 0nat,
{
    match statement {
        StatementView::Let { name, value: given, .. } => variables.insert(
            name,
            value(given, thread, variables, device),
        ),
        StatementView::Assign { name, op, value: given } => variables.insert(
            name,
            assigned(
                op.msl_text(),
                variables[name],
                value(given, thread, variables, device),
                device,
            ),
        ),
        StatementView::ForRange { variable, start, end, inclusive, body } => variables_after_rounds(
            body,
            variable,
            bound_value(start, thread),
            loop_stop(bound_value(end, thread), inclusive),
            thread,
            variables,
            device,
        ),
        StatementView::Sum { name, ty, variable, start, end, inclusive, term } => variables.insert(
            name,
            sum_value(
                term,
                name,
                variable,
                bound_value(start, thread),
                loop_stop(bound_value(end, thread), inclusive),
                (device.zero)(ty.msl_text()),
                thread,
                variables,
                device,
            ),
        ),
    }
}

/// The variables of a thread after device statements.
pub open spec fn variables_after_all<V>(
    statements: Seq<StatementView>,
    thread: Thread<V>,
    variables: Map<Seq<char>, V>,
    device: Device<V>,
) -> Map<Seq<char>, V>
    decreases statements, 0nat, 0nat,
{
    if statements.len() == 0 {
        variables
    } else {
        variables_after(
            statements.last(),
            thread,
            variables_after_all(statements.drop_last(), thread, variables, device),
            device,
        )
    }
}

/// The variables of a thread after the rounds of a device loop from a counter on.
pub open spec fn variables_after_rounds<V>(
    body: Seq<StatementView>,
    variable: Seq<char>,
    counter: nat,
    stop: nat,
    thread: Thread<V>,
    variables: Map<Seq<char>, V>,
    device: Device<V>,
) -> Map<Seq<char>, V>
    decreases body, 1nat, stop - counter,
{
    if counter >= stop {
        variables
    } else {
        let inside = variables_after_all(
            body,
            thread,
            variables.insert(variable, (device.number)(counter)),
            device,
        );
        variables_after_rounds(
            body,
            variable,
            counter + 1,
            stop,
            thread,
            leave(variables, inside, variable),
            device,
        )
    }
}

/// What the names stand for after a Rust expression that stands as a statement.
pub open spec fn names_after<V>(
    expression: SourceExpr,
    names: Map<Seq<char>, V>,
    fixed: Set<Seq<char>>,
    place: Place<V>,
    device: Device<V>,
) -> Map<Seq<char>, V>
    decreases expression, 0nat, 0nat,
{
    match expression.kind {
        ExprKind::Assign { left, right } => rebound(
            names,
            fixed,
            path_name(*left),
            meaning(*right, names, place, device),
        ),
        ExprKind::Binary { op, left, right, .. } => if is_assignment(op) {
            rebound(
                names,
                fixed,
                path_name(*left),
                assigned(
                    rust_token(op),
                    names[path_name(*left)],
                    meaning(*right, names, place, device),
                    device,
                ),
            )
        } else {
            arbitrary()
        },
        ExprKind::ForLoop { pattern, range, body } => names_after_rounds(
            body.statements@,
            pattern_ident(&pattern)->Ok_0.name@,
            range_start(*range, place),
            range_stop(*range, place),
            names,
            fixed,
            place,
            device,
        ),
        ExprKind::MethodCall { receiver, arguments, .. } => if arguments@.len() == 1 {
            match arguments@[0].kind {
                ExprKind::Closure(closure) => names_after_for_each(
                    *receiver,
                    closure,
                    names,
                    fixed,
                    place,
                    device,
                ),
                _ => arbitrary(),
            }
        } else {
            arbitrary()
        },
        _ => arbitrary(),
    }
}

/// What the names stand for after `for_each` with a closure on a range.
pub open spec fn names_after_for_each<V>(
    receiver: SourceExpr,
    closure: SourceClosure,
    names: Map<Seq<char>, V>,
    fixed: Set<Seq<char>>,
    place: Place<V>,
    device: Device<V>,
) -> Map<Seq<char>, V>
    decreases closure, 0nat, 0nat,
{
    let variable = pattern_ident(&closure.inputs@[0])->Ok_0.name@;
    let start = range_start(receiver, place);
    let stop = range_stop(receiver, place);
    match closure.body.kind {
        ExprKind::Block(block) => names_after_rounds(
            block.statements@,
            variable,
            start,
            stop,
            names,
            fixed,
            place,
            device,
        ),
        _ => names_after_each(*closure.body, variable, start, stop, names, fixed, place, device),
    }
}

/// What the names stand for after a Rust statement.
pub open spec fn names_after_step<V>(
    statement: SourceStatement,
    names: Map<Seq<char>, V>,
    fixed: Set<Seq<char>>,
    place: Place<V>,
    device: Device<V>,
) -> Map<Seq<char>, V>
    decreases statement, 0nat, 0nat,
{
    match statement {
        SourceStatement::Local(local) => rebound(
            names,
            fixed,
            declared_name(local),
            given_meaning(
                local.initializer->0.value,
                declared_type(local),
                names,
                fixed,
                place,
                device,
            ),
        ),
        SourceStatement::Expr { expression, .. } => names_after(
            expression,
            names,
            fixed,
            place,
            device,
        ),
        _ => arbitrary(),
    }
}

/// The name that a typed `let` declares.
pub open spec fn declared_name(local: SourceLocal) -> Seq<char> {
    pattern_ident(&*local.pattern.kind->Typed_pattern)->Ok_0.name@
}

/// The Metal name of the type that a typed `let` declares.
pub open spec fn declared_type(local: SourceLocal) -> Seq<char> {
    metal_type(local.pattern.kind->Typed_ty)
}

/// What the names stand for after Rust statements.
pub open spec fn names_after_all<V>(
    statements: Seq<SourceStatement>,
    names: Map<Seq<char>, V>,
    fixed: Set<Seq<char>>,
    place: Place<V>,
    device: Device<V>,
) -> Map<Seq<char>, V>
    decreases statements, 0nat, 0nat,
{
    if statements.len() == 0 {
        names
    } else {
        names_after_step(
            statements.last(),
            names_after_all(statements.drop_last(), names, fixed, place, device),
            fixed,
            place,
            device,
        )
    }
}

/// What the names stand for after the rounds of a Rust loop over a block from a counter on.
pub open spec fn names_after_rounds<V>(
    body: Seq<SourceStatement>,
    variable: Seq<char>,
    counter: nat,
    stop: nat,
    names: Map<Seq<char>, V>,
    fixed: Set<Seq<char>>,
    place: Place<V>,
    device: Device<V>,
) -> Map<Seq<char>, V>
    decreases body, 1nat, stop - counter,
{
    if counter >= stop {
        names
    } else {
        let inside = names_after_all(
            body,
            rebound(names, fixed, variable, (device.number)(counter)),
            fixed,
            place,
            device,
        );
        names_after_rounds(
            body,
            variable,
            counter + 1,
            stop,
            leave(names, inside, variable),
            fixed,
            place,
            device,
        )
    }
}

/// What the names stand for after the rounds of a Rust loop over one expression from a counter on.
pub open spec fn names_after_each<V>(
    body: SourceExpr,
    variable: Seq<char>,
    counter: nat,
    stop: nat,
    names: Map<Seq<char>, V>,
    fixed: Set<Seq<char>>,
    place: Place<V>,
    device: Device<V>,
) -> Map<Seq<char>, V>
    decreases body, 1nat, stop - counter,
{
    if counter >= stop {
        names
    } else {
        let inside = names_after(
            body,
            rebound(names, fixed, variable, (device.number)(counter)),
            fixed,
            place,
            device,
        );
        names_after_each(
            body,
            variable,
            counter + 1,
            stop,
            leave(names, inside, variable),
            fixed,
            place,
            device,
        )
    }
}

/// Whether the counter of an expression that is a sum is one of a family.
pub open spec fn sum_within(expression: SourceExpr, family: Set<Seq<char>>) -> bool {
    is_sum(expression) ==> family.contains(sum_counter(expression))
}

/// Whether every name that an expression declares or assigns as a statement is one of a family.
pub open spec fn statement_within(expression: SourceExpr, family: Set<Seq<char>>) -> bool
    decreases expression,
{
    match expression.kind {
        ExprKind::Assign { left, .. } => family.contains(path_name(*left)),
        ExprKind::Binary { op, left, .. } => is_assignment(op) ==> family.contains(
            path_name(*left),
        ),
        ExprKind::ForLoop { pattern, body, .. } => {
            &&& family.contains(pattern_ident(&pattern)->Ok_0.name@)
            &&& all_within(body.statements@, family)
        },
        ExprKind::MethodCall { arguments, .. } => if arguments@.len() == 1 {
            match arguments@[0].kind {
                ExprKind::Closure(closure) => {
                    &&& family.contains(pattern_ident(&closure.inputs@[0])->Ok_0.name@)
                    &&& match closure.body.kind {
                        ExprKind::Block(block) => all_within(block.statements@, family),
                        _ => statement_within(*closure.body, family),
                    }
                },
                _ => true,
            }
        } else {
            sum_within(expression, family)
        },
        _ => true,
    }
}

/// Whether every name that a statement declares or assigns is one of a family.
pub open spec fn step_within(
    statement: SourceStatement,
    family: Set<Seq<char>>,
) -> bool
    decreases statement,
{
    match statement {
        SourceStatement::Local(local) => {
            &&& family.contains(declared_name(local))
            &&& sum_within(local.initializer->0.value, family)
        },
        SourceStatement::Expr { expression, .. } => statement_within(expression, family),
        _ => true,
    }
}

/// Whether every name that statements declare or assign is one of a family.
pub open spec fn all_within(
    statements: Seq<SourceStatement>,
    family: Set<Seq<char>>,
) -> bool
    decreases statements,
{
    if statements.len() == 0 {
        true
    } else {
        all_within(statements.drop_last(), family) && step_within(statements.last(), family)
    }
}

/// Variables of different names have different names in the kernel.
pub proof fn lemma_texts_differ(family: Set<Seq<char>>, left: Seq<char>, right: Seq<char>)
    requires
        distinct(family),
        family.contains(left),
        family.contains(right),
    ensures
        local_text(left) == local_text(right) ==> left == right,
        loop_text(left) == loop_text(right) ==> left == right,
        local_text(left) != loop_text(right),
{
    law_kinds_of_names_differ(left, left, right, right);
    if local_text(left) == local_text(right) {
        let length = "__pm_local_"@.len() as int;
        assert(sanitized(left) =~= local_text(left).skip(length));
        assert(sanitized(right) =~= local_text(right).skip(length));
    }
    if loop_text(left) == loop_text(right) {
        let length = "__pm_loop_"@.len() as int;
        assert(sanitized(left) =~= loop_text(left).skip(length));
        assert(sanitized(right) =~= loop_text(right).skip(length));
    }
}

/// Whether the later variables keep what the earlier ones were.
pub open spec fn extends(
    before: Map<Seq<char>, LocalInfo>,
    later: Map<Seq<char>, LocalInfo>,
) -> bool {
    forall|name: Seq<char>| #[trigger]
        before.dom().contains(name) ==> later.dom().contains(name) && later[name] == before[name]
}

/// Whether a thread keeps the variables that a counter of the same name hides.
pub open spec fn hidden_kept<V>(
    locals: Map<Seq<char>, LocalInfo>,
    before: Map<Seq<char>, V>,
    later: Map<Seq<char>, V>,
) -> bool {
    forall|name: Seq<char>| #[trigger]
        locals.dom().contains(name) && locals[name].looped && before.dom().contains(
            local_text(name),
        ) ==> later.dom().contains(local_text(name)) && later[local_text(name)]
            == before[local_text(name)]
}

/// One round of a loop: if the names and the variables agree inside it, they agree after it.
proof fn lemma_leave<V>(
    variable: Seq<char>,
    counter: nat,
    family: Set<Seq<char>>,
    scope: Scope,
    locals: Map<Seq<char>, LocalInfo>,
    inside_locals: Map<Seq<char>, LocalInfo>,
    names: Map<Seq<char>, V>,
    inside_names: Map<Seq<char>, V>,
    place: Place<V>,
    thread: Thread<V>,
    variables: Map<Seq<char>, V>,
    inside_variables: Map<Seq<char>, V>,
    device: Device<V>,
)
    requires
        agree(family, scope, locals, names, place, thread, variables, device),
        family.contains(variable),
        agree(family, scope, inside_locals, inside_names, place, thread, inside_variables, device),
        extends(loop_locals(variable, locals), inside_locals),
        hidden_kept(
            loop_locals(variable, locals),
            variables.insert(loop_text(variable), (device.number)(counter)),
            inside_variables,
        ),
    ensures
        agree(
            family,
            scope,
            locals,
            leave(names, inside_names, variable),
            place,
            thread,
            leave(variables, inside_variables, loop_text(variable)),
            device,
        ),
        hidden_kept(
            locals,
            variables,
            leave(variables, inside_variables, loop_text(variable)),
        ),
{
    let entered = variables.insert(loop_text(variable), (device.number)(counter));
    let inner = loop_locals(variable, locals);
    let left_names = leave(names, inside_names, variable);
    let left_variables = leave(variables, inside_variables, loop_text(variable));
    assert(inner.dom().contains(variable) && inner[variable].looped);
    assert forall|name: Seq<char>| #[trigger] locals.dom().contains(name) implies {
        &&& family.contains(name)
        &&& locals[name].looped ==> !locals[name].mutable
        &&& !outer(scope, name) ==> {
            &&& left_names.dom().contains(name)
            &&& left_variables.dom().contains(variable_text(name, locals[name]))
            &&& left_names[name] == left_variables[variable_text(name, locals[name])]
        }
    } by {
        lemma_texts_differ(family, name, variable);
        lemma_texts_differ(family, variable, name);
        assert(inner.dom().contains(name));
        assert(inside_locals.dom().contains(name));
        if name == variable && !locals[name].looped && !outer(scope, name) {
            assert(entered.dom().contains(local_text(name)));
        }
    }
    assert forall|name: Seq<char>| #[trigger] outer(scope, name) implies left_names.dom().contains(
        name,
    ) by {}
    assert forall|name: Seq<char>| #[trigger] scope.bindings.dom().contains(name) implies
        left_names[name] == thread.inputs[scope.bindings[name] as int] by {
        assert(outer(scope, name));
    }
    assert forall|name: Seq<char>| #[trigger]
        scope.point_axes.dom().contains(name) && !scope.bindings.dom().contains(name) implies
        left_names[name] == (device.number)(thread.point[scope.point_axes[name] as int]) by {
        assert(outer(scope, name));
    }
    assert forall|name: Seq<char>| #[trigger]
        scope.scalars.dom().contains(name) && !scope.bindings.dom().contains(name)
            && !scope.point_axes.dom().contains(name) implies left_names[name]
        == thread.scalars[scalar_text(name)] by {
        assert(outer(scope, name));
    }
    assert forall|name: Seq<char>| #[trigger]
        locals.dom().contains(name) && locals[name].looped && variables.dom().contains(
            local_text(name),
        ) implies left_variables.dom().contains(local_text(name))
        && left_variables[local_text(name)] == variables[local_text(name)] by {
        lemma_texts_differ(family, name, variable);
        assert(inner.dom().contains(name) && inner[name].looped);
        assert(entered.dom().contains(local_text(name)));
    }
}

/// Entering a loop: the names and the variables agree inside it, with the counter.
proof fn lemma_enter<V>(
    variable: Seq<char>,
    counter: nat,
    family: Set<Seq<char>>,
    scope: Scope,
    locals: Map<Seq<char>, LocalInfo>,
    names: Map<Seq<char>, V>,
    place: Place<V>,
    thread: Thread<V>,
    variables: Map<Seq<char>, V>,
    device: Device<V>,
)
    requires
        agree(family, scope, locals, names, place, thread, variables, device),
        family.contains(variable),
    ensures
        agree(
            family,
            scope,
            loop_locals(variable, locals),
            rebound(names, fixed_names(scope), variable, (device.number)(counter)),
            place,
            thread,
            variables.insert(loop_text(variable), (device.number)(counter)),
            device,
        ),
{
    let inner = loop_locals(variable, locals);
    let entered_names = rebound(names, fixed_names(scope), variable, (device.number)(counter));
    let entered = variables.insert(loop_text(variable), (device.number)(counter));
    assert forall|name: Seq<char>| #[trigger] inner.dom().contains(name) implies {
        &&& family.contains(name)
        &&& inner[name].looped ==> !inner[name].mutable
        &&& !outer(scope, name) ==> {
            &&& entered_names.dom().contains(name)
            &&& entered.dom().contains(variable_text(name, inner[name]))
            &&& entered_names[name] == entered[variable_text(name, inner[name])]
        }
    } by {
        if name != variable {
            assert(locals.dom().contains(name));
            lemma_texts_differ(family, name, variable);
        }
    }
    assert forall|name: Seq<char>| #[trigger] scope.bindings.dom().contains(name) implies
        entered_names[name] == thread.inputs[scope.bindings[name] as int] by {
        assert(outer(scope, name));
    }
    assert forall|name: Seq<char>| #[trigger]
        scope.point_axes.dom().contains(name) && !scope.bindings.dom().contains(name) implies
        entered_names[name] == (device.number)(thread.point[scope.point_axes[name] as int]) by {
        assert(outer(scope, name));
    }
    assert forall|name: Seq<char>| #[trigger]
        scope.scalars.dom().contains(name) && !scope.bindings.dom().contains(name)
            && !scope.point_axes.dom().contains(name) implies entered_names[name]
        == thread.scalars[scalar_text(name)] by {
        assert(outer(scope, name));
    }
}

/// Giving a variable a value under its name and under its name in the kernel keeps the agreement.
proof fn lemma_give<V>(
    name: Seq<char>,
    given: V,
    held: V,
    info: LocalInfo,
    family: Set<Seq<char>>,
    scope: Scope,
    locals: Map<Seq<char>, LocalInfo>,
    names: Map<Seq<char>, V>,
    place: Place<V>,
    thread: Thread<V>,
    variables: Map<Seq<char>, V>,
    device: Device<V>,
)
    requires
        agree(family, scope, locals, names, place, thread, variables, device),
        family.contains(name),
        !info.looped,
        locals.dom().contains(name) ==> locals[name] == info,
        !outer(scope, name) ==> held == given,
    ensures
        agree(
            family,
            scope,
            locals.insert(name, info),
            rebound(names, fixed_names(scope), name, given),
            place,
            thread,
            variables.insert(local_text(name), held),
            device,
        ),
        hidden_kept(locals, variables, variables.insert(local_text(name), held)),
{
    let later = locals.insert(name, info);
    let later_names = rebound(names, fixed_names(scope), name, given);
    let later_variables = variables.insert(local_text(name), held);
    assert forall|other: Seq<char>| #[trigger] later.dom().contains(other) implies {
        &&& family.contains(other)
        &&& later[other].looped ==> !later[other].mutable
        &&& !outer(scope, other) ==> {
            &&& later_names.dom().contains(other)
            &&& later_variables.dom().contains(variable_text(other, later[other]))
            &&& later_names[other] == later_variables[variable_text(other, later[other])]
        }
    } by {
        if other != name {
            assert(locals.dom().contains(other));
            lemma_texts_differ(family, name, other);
        }
    }
    assert forall|other: Seq<char>| #[trigger] scope.bindings.dom().contains(other) implies
        later_names[other] == thread.inputs[scope.bindings[other] as int] by {
        assert(outer(scope, other));
    }
    assert forall|other: Seq<char>| #[trigger]
        scope.point_axes.dom().contains(other) && !scope.bindings.dom().contains(other) implies
        later_names[other] == (device.number)(thread.point[scope.point_axes[other] as int]) by {
        assert(outer(scope, other));
    }
    assert forall|other: Seq<char>| #[trigger]
        scope.scalars.dom().contains(other) && !scope.bindings.dom().contains(other)
            && !scope.point_axes.dom().contains(other) implies later_names[other]
        == thread.scalars[scalar_text(other)] by {
        assert(outer(scope, other));
    }
    assert forall|other: Seq<char>| #[trigger]
        locals.dom().contains(other) && locals[other].looped && variables.dom().contains(
            local_text(other),
        ) implies later_variables.dom().contains(local_text(other))
        && later_variables[local_text(other)] == variables[local_text(other)] by {
        lemma_texts_differ(family, name, other);
    }
}

/// A variable that is none of those in scope can hold anything.
proof fn lemma_unseen<V>(
    text: Seq<char>,
    held: V,
    family: Set<Seq<char>>,
    scope: Scope,
    locals: Map<Seq<char>, LocalInfo>,
    names: Map<Seq<char>, V>,
    place: Place<V>,
    thread: Thread<V>,
    variables: Map<Seq<char>, V>,
    device: Device<V>,
)
    requires
        agree(family, scope, locals, names, place, thread, variables, device),
        forall|name: Seq<char>| #[trigger]
            locals.dom().contains(name) ==> variable_text(name, locals[name]) != text,
    ensures
        agree(
            family,
            scope,
            locals,
            names,
            place,
            thread,
            variables.insert(text, held),
            device,
        ),
{
}

/// The sum of the device terms is the sum of the values of the closure.
proof fn lemma_terms<V>(
    body: SourceExpr,
    term: ExprView,
    text: Seq<char>,
    variable: Seq<char>,
    counter: nat,
    stop: nat,
    total: V,
    family: Set<Seq<char>>,
    scope: Scope,
    locals: Map<Seq<char>, LocalInfo>,
    names: Map<Seq<char>, V>,
    place: Place<V>,
    thread: Thread<V>,
    variables: Map<Seq<char>, V>,
    device: Device<V>,
)
    requires
        agree(family, scope, locals, names, place, thread, variables, device),
        forall|name: Seq<char>| #[trigger]
            locals.dom().contains(name) ==> variable_text(name, locals[name]) != text,
        family.contains(variable),
        lowered(body, scope, loop_locals(variable, locals)) == Ok::<ExprView, Diagnostic>(term),
    ensures
        sum_value(
            term,
            text,
            loop_text(variable),
            counter,
            stop,
            total,
            thread,
            variables,
            device,
        ) == sum_meaning(
            body,
            variable,
            counter,
            stop,
            total,
            names,
            fixed_names(scope),
            place,
            device,
        ),
    decreases stop - counter,
{
    if counter < stop {
        let held = variables.insert(text, total);
        lemma_unseen(
            text,
            total,
            family,
            scope,
            locals,
            names,
            place,
            thread,
            variables,
            device,
        );
        lemma_enter(
            variable,
            counter,
            family,
            scope,
            locals,
            names,
            place,
            thread,
            held,
            device,
        );
        let inside_names = rebound(names, fixed_names(scope), variable, (device.number)(counter));
        let inside = held.insert(loop_text(variable), (device.number)(counter));
        lemma_expression(
            body,
            family,
            scope,
            loop_locals(variable, locals),
            inside_names,
            place,
            thread,
            inside,
            device,
        );
        let next = (device.binary)(
            "+"@,
            total,
            meaning(body, inside_names, place, device),
        );
        lemma_terms(
            body,
            term,
            text,
            variable,
            counter + 1,
            stop,
            next,
            family,
            scope,
            locals,
            names,
            place,
            thread,
            variables,
            device,
        );
    }
}

/// What a declaration gives a variable is what the Rust expression gives.
proof fn lemma_given<V>(
    expression: SourceExpr,
    text: Seq<char>,
    ty: ScalarType,
    family: Set<Seq<char>>,
    scope: Scope,
    locals: Map<Seq<char>, LocalInfo>,
    names: Map<Seq<char>, V>,
    place: Place<V>,
    thread: Thread<V>,
    variables: Map<Seq<char>, V>,
    device: Device<V>,
)
    requires
        agree(family, scope, locals, names, place, thread, variables, device),
        forall|name: Seq<char>| #[trigger]
            locals.dom().contains(name) ==> variable_text(name, locals[name]) != text,
        sum_within(expression, family),
    ensures
        lowered_let(expression, text, ty, scope, locals) matches Ok(statement) ==> variables_after(
            statement,
            thread,
            variables,
            device,
        ) == variables.insert(text, given_meaning(
            expression,
            ty.msl_text(),
            names,
            fixed_names(scope),
            place,
            device,
        )),
{
    if let Ok(statement) = lowered_let(expression, text, ty, scope, locals) {
        if is_sum(expression) {
            let range = *expression.kind->MethodCall_receiver.kind->MethodCall_receiver;
            lemma_range(range, family, scope, locals, names, place, thread, variables, device);
            lemma_terms(
                *sum_closure(expression).body,
                statement->Sum_term,
                text,
                sum_counter(expression),
                range_start(range, place),
                range_stop(range, place),
                (device.zero)(ty.msl_text()),
                family,
                scope,
                locals,
                names,
                place,
                thread,
                variables,
                device,
            );
        } else {
            lemma_expression(
                expression,
                family,
                scope,
                locals,
                names,
                place,
                thread,
                variables,
                device,
            );
        }
    }
}

/// The variable that holds the output's sum is none that a body declares.
pub proof fn lemma_sum_is_unseen(name: Seq<char>, info: LocalInfo)
    ensures
        variable_text(name, info) != "__pm_sum"@,
{
    law_kinds_of_names_differ(name, name, name, name);
}

/// The output expression and the statements that compute it give what the Rust expression gives.
proof fn lemma_result<V>(
    expression: SourceExpr,
    family: Set<Seq<char>>,
    scope: Scope,
    locals: Map<Seq<char>, LocalInfo>,
    names: Map<Seq<char>, V>,
    place: Place<V>,
    thread: Thread<V>,
    variables: Map<Seq<char>, V>,
    device: Device<V>,
)
    requires
        agree(family, scope, locals, names, place, thread, variables, device),
        sum_within(expression, family),
    ensures
        lowered_result(expression, scope, locals) matches Ok((before, result)) ==> {
            &&& before.len() <= 1
            &&& value(
                result,
                thread,
                variables_after_all(before, thread, variables, device),
                device,
            ) == given_meaning(
                expression,
                scope.output.msl_text(),
                names,
                fixed_names(scope),
                place,
                device,
            )
        },
{
    if let Ok((before, result)) = lowered_result(expression, scope, locals) {
        if is_sum(expression) {
            assert forall|name: Seq<char>| #[trigger] locals.dom().contains(name) implies
                variable_text(name, locals[name]) != "__pm_sum"@ by {
                lemma_sum_is_unseen(name, locals[name]);
            }
            lemma_given(
                expression,
                "__pm_sum"@,
                scope.output,
                family,
                scope,
                locals,
                names,
                place,
                thread,
                variables,
                device,
            );
            assert(before.drop_last() =~= Seq::<StatementView>::empty());
            assert(variables_after_all(before.drop_last(), thread, variables, device)
                == variables);
        } else {
            lemma_expression(
                expression,
                family,
                scope,
                locals,
                names,
                place,
                thread,
                variables,
                device,
            );
        }
    }
}

proof fn lemma_assignment<V>(
    left: SourceExpr,
    op: AssignOp,
    right: SourceExpr,
    family: Set<Seq<char>>,
    scope: Scope,
    locals: Map<Seq<char>, LocalInfo>,
    names: Map<Seq<char>, V>,
    place: Place<V>,
    thread: Thread<V>,
    variables: Map<Seq<char>, V>,
    device: Device<V>,
)
    requires
        agree(family, scope, locals, names, place, thread, variables, device),
    ensures
        (target_of(left, locals), lowered(right, scope, locals)) matches (Ok(name), Ok(given)) ==> {
            let later_names = rebound(
                names,
                fixed_names(scope),
                path_name(left),
                assigned(
                    op.msl_text(),
                    names[path_name(left)],
                    meaning(right, names, place, device),
                    device,
                ),
            );
            let later_variables = variables_after(
                StatementView::Assign { name, op, value: given },
                thread,
                variables,
                device,
            );
            &&& agree(family, scope, locals, later_names, place, thread, later_variables, device)
            &&& hidden_kept(locals, variables, later_variables)
        },
{
    if let (Ok(name), Ok(given)) = (target_of(left, locals), lowered(right, scope, locals)) {
        let source = path_name(left);
        assert(locals.dom().contains(source) && locals[source].mutable);
        assert(name == local_text(source));
        lemma_expression(right, family, scope, locals, names, place, thread, variables, device);
        let right_value = value(given, thread, variables, device);
        lemma_give(
            source,
            assigned(op.msl_text(), names[source], meaning(right, names, place, device), device),
            assigned(op.msl_text(), variables[name], right_value, device),
            locals[source],
            family,
            scope,
            locals,
            names,
            place,
            thread,
            variables,
            device,
        );
        assert(locals.insert(source, locals[source]) =~= locals);
    }
}

proof fn lemma_statement<V>(
    expression: SourceExpr,
    family: Set<Seq<char>>,
    scope: Scope,
    locals: Map<Seq<char>, LocalInfo>,
    names: Map<Seq<char>, V>,
    place: Place<V>,
    thread: Thread<V>,
    variables: Map<Seq<char>, V>,
    device: Device<V>,
)
    requires
        agree(family, scope, locals, names, place, thread, variables, device),
        statement_within(expression, family),
    ensures
        lowered_statement(expression, scope, locals) matches Ok(statement) ==> {
            let later_names = names_after(expression, names, fixed_names(scope), place, device);
            let later_variables = variables_after(statement, thread, variables, device);
            &&& agree(family, scope, locals, later_names, place, thread, later_variables, device)
            &&& hidden_kept(locals, variables, later_variables)
        },
    decreases expression, 0nat, 0nat,
{
    match expression.kind {
        ExprKind::Assign { left, right } => {
            lemma_assignment(
                *left,
                AssignOp::Assign,
                *right,
                family,
                scope,
                locals,
                names,
                place,
                thread,
                variables,
                device,
            );
        },
        ExprKind::Binary { op, left, right, .. } => {
            if let Some(op) = assignment_operator(op) {
                lemma_assignment(
                    *left,
                    op,
                    *right,
                    family,
                    scope,
                    locals,
                    names,
                    place,
                    thread,
                    variables,
                    device,
                );
            }
        },
        ExprKind::ForLoop { pattern, range, body } => {
            if let (Ok(ident), Ok(bounds)) = (
                pattern_ident(&pattern),
                range_of(*range, scope, locals),
            ) {
                let name = ident.name@;
                lemma_range(
                    *range,
                    family,
                    scope,
                    locals,
                    names,
                    place,
                    thread,
                    variables,
                    device,
                );
                if let Ok((lowered_body, inside)) = lowered_statements(
                    body.statements@,
                    scope,
                    loop_locals(name, locals),
                ) {
                    lemma_rounds(
                        body.statements@,
                        lowered_body,
                        name,
                        range_start(*range, place),
                        range_stop(*range, place),
                        family,
                        scope,
                        locals,
                        names,
                        place,
                        thread,
                        variables,
                        device,
                    );
                }
            }
        },
        ExprKind::MethodCall { receiver, method, arguments, arguments_span } => {
            if arguments@.len() == 1 {
                if let ExprKind::Closure(closure) = arguments@[0].kind {
                    lemma_for_each(
                        *receiver,
                        closure,
                        family,
                        scope,
                        locals,
                        names,
                        place,
                        thread,
                        variables,
                        device,
                    );
                }
            }
        },
        _ => {},
    }
}

proof fn lemma_for_each<V>(
    receiver: SourceExpr,
    closure: SourceClosure,
    family: Set<Seq<char>>,
    scope: Scope,
    locals: Map<Seq<char>, LocalInfo>,
    names: Map<Seq<char>, V>,
    place: Place<V>,
    thread: Thread<V>,
    variables: Map<Seq<char>, V>,
    device: Device<V>,
)
    requires
        agree(family, scope, locals, names, place, thread, variables, device),
        family.contains(pattern_ident(&closure.inputs@[0])->Ok_0.name@),
        match closure.body.kind {
            ExprKind::Block(block) => all_within(block.statements@, family),
            _ => statement_within(*closure.body, family),
        },
    ensures
        lowered_for_each(receiver, closure, scope, locals) matches Ok(statement) ==> {
            let later_names = names_after_for_each(
                receiver,
                closure,
                names,
                fixed_names(scope),
                place,
                device,
            );
            let later_variables = variables_after(statement, thread, variables, device);
            &&& agree(family, scope, locals, later_names, place, thread, later_variables, device)
            &&& hidden_kept(locals, variables, later_variables)
        },
    decreases closure, 2nat, 0nat,
{
    if closure.inputs@.len() == 1 {
        if let (Ok(ident), Ok(bounds)) = (
            pattern_ident(&closure.inputs@[0]),
            range_of(receiver, scope, locals),
        ) {
            let name = ident.name@;
            let start = range_start(receiver, place);
            let stop = range_stop(receiver, place);
            lemma_range(
                receiver,
                family,
                scope,
                locals,
                names,
                place,
                thread,
                variables,
                device,
            );
            let inner = loop_locals(name, locals);
            match closure.body.kind {
                ExprKind::Block(block) => {
                    if let Ok((lowered_body, inside)) = lowered_statements(
                        block.statements@,
                        scope,
                        inner,
                    ) {
                        lemma_rounds(
                            block.statements@,
                            lowered_body,
                            name,
                            start,
                            stop,
                            family,
                            scope,
                            locals,
                            names,
                            place,
                            thread,
                            variables,
                            device,
                        );
                    }
                },
                _ => {
                    if let Ok(statement) = lowered_statement(*closure.body, scope, inner) {
                        lemma_each(
                            *closure.body,
                            statement,
                            name,
                            start,
                            stop,
                            family,
                            scope,
                            locals,
                            names,
                            place,
                            thread,
                            variables,
                            device,
                        );
                    }
                },
            }
        }
    }
}

proof fn lemma_step<V>(
    statement: SourceStatement,
    family: Set<Seq<char>>,
    scope: Scope,
    locals: Map<Seq<char>, LocalInfo>,
    names: Map<Seq<char>, V>,
    place: Place<V>,
    thread: Thread<V>,
    variables: Map<Seq<char>, V>,
    device: Device<V>,
)
    requires
        agree(family, scope, locals, names, place, thread, variables, device),
        step_within(statement, family),
    ensures
        lowered_step(statement, scope, locals) matches Ok((lowered, later)) ==> {
            let later_names = names_after_step(statement, names, fixed_names(scope), place, device);
            let later_variables = variables_after(lowered, thread, variables, device);
            &&& agree(family, scope, later, later_names, place, thread, later_variables, device)
            &&& extends(locals, later)
            &&& hidden_kept(locals, variables, later_variables)
        },
    decreases statement, 0nat, 0nat,
{
    match statement {
        SourceStatement::Local(local) => {
            lemma_local(local, family, scope, locals, names, place, thread, variables, device);
        },
        SourceStatement::Expr { expression, .. } => {
            lemma_statement(
                expression,
                family,
                scope,
                locals,
                names,
                place,
                thread,
                variables,
                device,
            );
        },
        _ => {},
    }
}

proof fn lemma_local<V>(
    local: SourceLocal,
    family: Set<Seq<char>>,
    scope: Scope,
    locals: Map<Seq<char>, LocalInfo>,
    names: Map<Seq<char>, V>,
    place: Place<V>,
    thread: Thread<V>,
    variables: Map<Seq<char>, V>,
    device: Device<V>,
)
    requires
        agree(family, scope, locals, names, place, thread, variables, device),
        family.contains(declared_name(local)),
        sum_within(local.initializer->0.value, family),
    ensures
        lowered_local(local, scope, locals) matches Ok((lowered, later)) ==> {
            let later_names = rebound(
                names,
                fixed_names(scope),
                declared_name(local),
                given_meaning(
                    local.initializer->0.value,
                    declared_type(local),
                    names,
                    fixed_names(scope),
                    place,
                    device,
                ),
            );
            let later_variables = variables_after(lowered, thread, variables, device);
            &&& agree(family, scope, later, later_names, place, thread, later_variables, device)
            &&& extends(locals, later)
            &&& hidden_kept(locals, variables, later_variables)
        },
{
    if let Ok((lowered, later)) = lowered_local(local, scope, locals) {
        let name = declared_name(local);
        let initializer = local.initializer->0;
        assert forall|other: Seq<char>| #[trigger] locals.dom().contains(other) implies
            variable_text(other, locals[other]) != local_text(name) by {
            lemma_texts_differ(family, name, other);
        }
        let ty = local.pattern.kind->Typed_ty;
        lemma_metal_name(ty.kind->last->0.name@);
        lemma_given(
            initializer.value,
            local_text(name),
            scalar_of(ty)->0,
            family,
            scope,
            locals,
            names,
            place,
            thread,
            variables,
            device,
        );
        let given = given_meaning(
            initializer.value,
            declared_type(local),
            names,
            fixed_names(scope),
            place,
            device,
        );
        lemma_give(
            name,
            given,
            given,
            later[name],
            family,
            scope,
            locals,
            names,
            place,
            thread,
            variables,
            device,
        );
    }
}

proof fn lemma_statements<V>(
    statements: Seq<SourceStatement>,
    family: Set<Seq<char>>,
    scope: Scope,
    locals: Map<Seq<char>, LocalInfo>,
    names: Map<Seq<char>, V>,
    place: Place<V>,
    thread: Thread<V>,
    variables: Map<Seq<char>, V>,
    device: Device<V>,
)
    requires
        agree(family, scope, locals, names, place, thread, variables, device),
        all_within(statements, family),
    ensures
        lowered_statements(statements, scope, locals) matches Ok((lowered, later)) ==> {
            let later_names = names_after_all(statements, names, fixed_names(scope), place, device);
            let later_variables = variables_after_all(lowered, thread, variables, device);
            &&& agree(family, scope, later, later_names, place, thread, later_variables, device)
            &&& extends(locals, later)
            &&& hidden_kept(locals, variables, later_variables)
        },
    decreases statements, 0nat, 0nat,
{
    if statements.len() > 0 {
        lemma_statements(
            statements.drop_last(),
            family,
            scope,
            locals,
            names,
            place,
            thread,
            variables,
            device,
        );
        if let Ok((done, between)) = lowered_statements(statements.drop_last(), scope, locals) {
            let middle_names = names_after_all(
                statements.drop_last(),
                names,
                fixed_names(scope),
                place,
                device,
            );
            let middle = variables_after_all(done, thread, variables, device);
            lemma_step(
                statements.last(),
                family,
                scope,
                between,
                middle_names,
                place,
                thread,
                middle,
                device,
            );
            if let Ok((statement, later)) = lowered_step(statements.last(), scope, between) {
                let lowered = done.push(statement);
                assert(lowered.drop_last() =~= done);
                assert(lowered.last() == statement);
                let later_variables = variables_after(statement, thread, middle, device);
                assert(variables_after_all(lowered, thread, variables, device) == later_variables);
                lemma_hidden_kept(locals, between, variables, middle, later_variables);
            }
        }
    }
}

proof fn lemma_hidden_kept<V>(
    locals: Map<Seq<char>, LocalInfo>,
    between: Map<Seq<char>, LocalInfo>,
    first: Map<Seq<char>, V>,
    second: Map<Seq<char>, V>,
    third: Map<Seq<char>, V>,
)
    requires
        extends(locals, between),
        hidden_kept(locals, first, second),
        hidden_kept(between, second, third),
    ensures
        hidden_kept(locals, first, third),
{
    assert forall|name: Seq<char>| #[trigger]
        locals.dom().contains(name) && locals[name].looped && first.dom().contains(
            local_text(name),
        ) implies third.dom().contains(local_text(name)) && third[local_text(name)]
        == first[local_text(name)] by {
        assert(between.dom().contains(name));
    }
}

proof fn lemma_rounds<V>(
    statements: Seq<SourceStatement>,
    body: Seq<StatementView>,
    variable: Seq<char>,
    counter: nat,
    stop: nat,
    family: Set<Seq<char>>,
    scope: Scope,
    locals: Map<Seq<char>, LocalInfo>,
    names: Map<Seq<char>, V>,
    place: Place<V>,
    thread: Thread<V>,
    variables: Map<Seq<char>, V>,
    device: Device<V>,
)
    requires
        agree(family, scope, locals, names, place, thread, variables, device),
        family.contains(variable),
        all_within(statements, family),
        lowered_statements(statements, scope, loop_locals(variable, locals)) is Ok,
        lowered_statements(statements, scope, loop_locals(variable, locals))->Ok_0.0 == body,
    ensures
        ({
            let later_names = names_after_rounds(
                statements,
                variable,
                counter,
                stop,
                names,
                fixed_names(scope),
                place,
                device,
            );
            let later_variables = variables_after_rounds(
                body,
                loop_text(variable),
                counter,
                stop,
                thread,
                variables,
                device,
            );
            &&& agree(family, scope, locals, later_names, place, thread, later_variables, device)
            &&& hidden_kept(locals, variables, later_variables)
        }),
    decreases statements, 1nat, stop - counter,
{
    if counter < stop {
        let inner = loop_locals(variable, locals);
        let entered_names = rebound(names, fixed_names(scope), variable, (device.number)(counter));
        let entered = variables.insert(loop_text(variable), (device.number)(counter));
        lemma_enter(
            variable,
            counter,
            family,
            scope,
            locals,
            names,
            place,
            thread,
            variables,
            device,
        );
        lemma_statements(
            statements,
            family,
            scope,
            inner,
            entered_names,
            place,
            thread,
            entered,
            device,
        );
        let inside_locals = lowered_statements(statements, scope, inner)->Ok_0.1;
        let inside_names = names_after_all(
            statements,
            entered_names,
            fixed_names(scope),
            place,
            device,
        );
        let inside = variables_after_all(body, thread, entered, device);
        lemma_leave(
            variable,
            counter,
            family,
            scope,
            locals,
            inside_locals,
            names,
            inside_names,
            place,
            thread,
            variables,
            inside,
            device,
        );
        let left_names = leave(names, inside_names, variable);
        let left = leave(variables, inside, loop_text(variable));
        lemma_rounds(
            statements,
            body,
            variable,
            counter + 1,
            stop,
            family,
            scope,
            locals,
            left_names,
            place,
            thread,
            left,
            device,
        );
        let later = variables_after_rounds(
            body,
            loop_text(variable),
            counter + 1,
            stop,
            thread,
            left,
            device,
        );
        lemma_hidden_kept(locals, locals, variables, left, later);
    }
}

proof fn lemma_each<V>(
    expression: SourceExpr,
    statement: StatementView,
    variable: Seq<char>,
    counter: nat,
    stop: nat,
    family: Set<Seq<char>>,
    scope: Scope,
    locals: Map<Seq<char>, LocalInfo>,
    names: Map<Seq<char>, V>,
    place: Place<V>,
    thread: Thread<V>,
    variables: Map<Seq<char>, V>,
    device: Device<V>,
)
    requires
        agree(family, scope, locals, names, place, thread, variables, device),
        family.contains(variable),
        statement_within(expression, family),
        lowered_statement(expression, scope, loop_locals(variable, locals)) is Ok,
        lowered_statement(expression, scope, loop_locals(variable, locals))->Ok_0 == statement,
    ensures
        ({
            let later_names = names_after_each(
                expression,
                variable,
                counter,
                stop,
                names,
                fixed_names(scope),
                place,
                device,
            );
            let later_variables = variables_after_rounds(
                seq![statement],
                loop_text(variable),
                counter,
                stop,
                thread,
                variables,
                device,
            );
            &&& agree(family, scope, locals, later_names, place, thread, later_variables, device)
            &&& hidden_kept(locals, variables, later_variables)
        }),
    decreases expression, 1nat, stop - counter,
{
    if counter < stop {
        let inner = loop_locals(variable, locals);
        let entered_names = rebound(names, fixed_names(scope), variable, (device.number)(counter));
        let entered = variables.insert(loop_text(variable), (device.number)(counter));
        lemma_enter(
            variable,
            counter,
            family,
            scope,
            locals,
            names,
            place,
            thread,
            variables,
            device,
        );
        lemma_statement(
            expression,
            family,
            scope,
            inner,
            entered_names,
            place,
            thread,
            entered,
            device,
        );
        let inside_names = names_after(
            expression,
            entered_names,
            fixed_names(scope),
            place,
            device,
        );
        let inside = variables_after_all(seq![statement], thread, entered, device);
        assert(seq![statement].drop_last() =~= Seq::<StatementView>::empty());
        assert(variables_after_all(seq![statement].drop_last(), thread, entered, device)
            == entered);
        assert(inside == variables_after(statement, thread, entered, device));
        lemma_leave(
            variable,
            counter,
            family,
            scope,
            locals,
            inner,
            names,
            inside_names,
            place,
            thread,
            variables,
            inside,
            device,
        );
        let left_names = leave(names, inside_names, variable);
        let left = leave(variables, inside, loop_text(variable));
        lemma_each(
            expression,
            statement,
            variable,
            counter + 1,
            stop,
            family,
            scope,
            locals,
            left_names,
            place,
            thread,
            left,
            device,
        );
        let later = variables_after_rounds(
            seq![statement],
            loop_text(variable),
            counter + 1,
            stop,
            thread,
            left,
            device,
        );
        lemma_hidden_kept(locals, locals, variables, left, later);
    }
}

/// The value of the body of a map's closure: of the expression that its block ends with, after the
/// statements before it, or of the expression that it is.
pub open spec fn body_meaning<V>(
    body: SourceExpr,
    output: Seq<char>,
    names: Map<Seq<char>, V>,
    fixed: Set<Seq<char>>,
    place: Place<V>,
    device: Device<V>,
) -> V {
    match body.kind {
        ExprKind::Block(block) => if block.statements@.len() > 0 {
            match block.statements@.last() {
                SourceStatement::Expr { expression, .. } => given_meaning(
                    expression,
                    output,
                    names_after_all(block.statements@.drop_last(), names, fixed, place, device),
                    fixed,
                    place,
                    device,
                ),
                _ => arbitrary(),
            }
        } else {
            arbitrary()
        },
        _ => given_meaning(body, output, names, fixed, place, device),
    }
}

/// The value of the output element of a thread.
pub open spec fn output_value<V>(body: DeviceBlockView, thread: Thread<V>, device: Device<V>) -> V {
    value(
        body.result,
        thread,
        variables_after_all(body.statements, thread, Map::empty(), device),
        device,
    )
}

/// Whether every name that the body of a map's closure declares or assigns is one of a family.
pub open spec fn body_within(body: SourceExpr, family: Set<Seq<char>>) -> bool {
    match body.kind {
        ExprKind::Block(block) => all_within(block.statements@, family),
        _ => sum_within(body, family),
    }
}

/// What holds of all statements holds of the first ones.
pub proof fn lemma_within_prefix(
    statements: Seq<SourceStatement>,
    count: int,
    family: Set<Seq<char>>,
)
    requires
        all_within(statements, family),
        0 <= count <= statements.len(),
    ensures
        all_within(statements.take(count), family),
        count < statements.len() ==> step_within(statements[count], family),
    decreases statements.len(),
{
    if count < statements.len() {
        let shorter = statements.drop_last();
        if count < shorter.len() {
            lemma_within_prefix(shorter, count, family);
            assert(shorter.take(count) =~= statements.take(count));
        } else {
            assert(statements.take(count) =~= shorter);
        }
    } else {
        assert(statements.take(count) =~= statements);
    }
}

proof fn lemma_parts<V>(
    statements: Seq<SourceStatement>,
    count: nat,
    family: Set<Seq<char>>,
    scope: Scope,
    names: Map<Seq<char>, V>,
    place: Place<V>,
    thread: Thread<V>,
    device: Device<V>,
)
    requires
        agree(family, scope, Map::empty(), names, place, thread, Map::empty(), device),
        all_within(statements, family),
        count < statements.len(),
    ensures
        lowered_parts(statements, count, scope, Map::empty()) matches Ok(parts) ==> {
            &&& parts.result is None
            &&& agree(
                family,
                scope,
                parts.locals,
                names_after_all(
                    statements.take(count as int),
                    names,
                    fixed_names(scope),
                    place,
                    device,
                ),
                place,
                thread,
                variables_after_all(parts.statements, thread, Map::empty(), device),
                device,
            )
        },
    decreases count,
{
    if count > 0 {
        let previous = (count - 1) as nat;
        lemma_parts(statements, previous, family, scope, names, place, thread, device);
        lemma_within_prefix(statements, previous as int, family);
        let prefix = statements.take(count as int);
        assert(prefix.drop_last() =~= statements.take(previous as int));
        assert(prefix.last() == statements[previous as int]);
        if let Ok(parts) = lowered_parts(statements, previous, scope, Map::empty()) {
            let middle_names = names_after_all(
                prefix.drop_last(),
                names,
                fixed_names(scope),
                place,
                device,
            );
            let middle = variables_after_all(parts.statements, thread, Map::empty(), device);
            lemma_step(
                statements[previous as int],
                family,
                scope,
                parts.locals,
                middle_names,
                place,
                thread,
                middle,
                device,
            );
            if let Ok((statement, later)) = lowered_step(
                statements[previous as int],
                scope,
                parts.locals,
            ) {
                assert(parts.statements.push(statement).drop_last() =~= parts.statements);
            }
        }
    }
}

/// Lowering keeps the meaning: where a thread reads what the closure reads, its output element is
/// what the body of the closure computes. That holds of every body that is lowered, as long as no
/// two names that it declares become the same identifier in a kernel. A name that stands for an
/// argument or a parameter keeps that meaning where the body declares it again.
pub proof fn law_lowering_keeps_the_meaning<V>(
    body: SourceExpr,
    family: Set<Seq<char>>,
    scope: Scope,
    names: Map<Seq<char>, V>,
    place: Place<V>,
    thread: Thread<V>,
    device: Device<V>,
)
    requires
        agree(family, scope, Map::empty(), names, place, thread, Map::empty(), device),
        body_within(body, family),
    ensures
        lowered_body(body, scope) matches Ok(lowered) ==> output_value(lowered, thread, device)
            == body_meaning(
            body,
            scope.output.msl_text(),
            names,
            fixed_names(scope),
            place,
            device,
        ),
{
    let none = Map::<Seq<char>, LocalInfo>::empty();
    match body.kind {
        ExprKind::Block(block) => {
            let statements = block.statements@;
            if statements.len() > 0 {
                let previous = (statements.len() - 1) as nat;
                assert(statements.take(previous as int) =~= statements.drop_last());
                lemma_parts(statements, previous, family, scope, names, place, thread, device);
                if let Ok(parts) = lowered_parts(statements, previous, scope, none) {
                    if let SourceStatement::Expr { expression, semicolon } = statements.last() {
                        let variables = variables_after_all(
                            parts.statements,
                            thread,
                            Map::empty(),
                            device,
                        );
                        assert(step_within(statements.last(), family));
                        lemma_result(
                            expression,
                            family,
                            scope,
                            parts.locals,
                            names_after_all(
                                statements.drop_last(),
                                names,
                                fixed_names(scope),
                                place,
                                device,
                            ),
                            place,
                            thread,
                            variables,
                            device,
                        );
                        if let Ok((before, result)) = lowered_result(
                            expression,
                            scope,
                            parts.locals,
                        ) {
                            lemma_variables_after(
                                parts.statements,
                                before,
                                thread,
                                Map::empty(),
                                device,
                            );
                        }
                    }
                }
            }
        },
        _ => lemma_result(
            body,
            family,
            scope,
            none,
            names,
            place,
            thread,
            Map::empty(),
            device,
        ),
    }
}

/// Running statements one after the other is running them all.
proof fn lemma_variables_after<V>(
    first: Seq<StatementView>,
    second: Seq<StatementView>,
    thread: Thread<V>,
    variables: Map<Seq<char>, V>,
    device: Device<V>,
)
    ensures
        variables_after_all(first + second, thread, variables, device) == variables_after_all(
            second,
            thread,
            variables_after_all(first, thread, variables, device),
            device,
        ),
    decreases second.len(),
{
    if second.len() == 0 {
        assert(first + second =~= first);
    } else {
        lemma_variables_after(first, second.drop_last(), thread, variables, device);
        assert((first + second).drop_last() =~= first + second.drop_last());
        assert((first + second).last() == second.last());
    }
}

/// The tensors by the names of the parameters that they are passed as.
pub open spec fn named_tensors<'a, V>(
    parameters: Seq<TensorParameter<'a>>,
    tensors: Seq<TensorView<V>>,
) -> Map<Seq<char>, TensorView<V>> {
    tensor_map(parameters).map_values(
        |tensor: CapturedTensor| tensors[tensor.capture.tensor as int],
    )
}

/// Whether no name of a family is fixed.
pub open spec fn free(family: Set<Seq<char>>, fixed: Set<Seq<char>>) -> bool {
    forall|name: Seq<char>| #[trigger] family.contains(name) ==> !fixed.contains(name)
}

proof fn lemma_free_sum<V>(
    body: SourceExpr,
    variable: Seq<char>,
    counter: nat,
    stop: nat,
    total: V,
    names: Map<Seq<char>, V>,
    fixed: Set<Seq<char>>,
    place: Place<V>,
    device: Device<V>,
)
    requires
        !fixed.contains(variable),
    ensures
        sum_meaning(body, variable, counter, stop, total, names, fixed, place, device)
            == sum_meaning(
            body,
            variable,
            counter,
            stop,
            total,
            names,
            Set::empty(),
            place,
            device,
        ),
    decreases stop - counter,
{
    if counter < stop {
        let inside = names.insert(variable, (device.number)(counter));
        let next = (device.binary)("+"@, total, meaning(body, inside, place, device));
        lemma_free_sum(
            body,
            variable,
            counter + 1,
            stop,
            next,
            names,
            fixed,
            place,
            device,
        );
    }
}

proof fn lemma_free_given<V>(
    expression: SourceExpr,
    ty: Seq<char>,
    family: Set<Seq<char>>,
    names: Map<Seq<char>, V>,
    fixed: Set<Seq<char>>,
    place: Place<V>,
    device: Device<V>,
)
    requires
        free(family, fixed),
        sum_within(expression, family),
    ensures
        given_meaning(expression, ty, names, fixed, place, device) == given_meaning(
            expression,
            ty,
            names,
            Set::empty(),
            place,
            device,
        ),
{
    if is_sum(expression) {
        let range = *expression.kind->MethodCall_receiver.kind->MethodCall_receiver;
        lemma_free_sum(
            *sum_closure(expression).body,
            sum_counter(expression),
            range_start(range, place),
            range_stop(range, place),
            (device.zero)(ty),
            names,
            fixed,
            place,
            device,
        );
    }
}

proof fn lemma_free_statement<V>(
    expression: SourceExpr,
    family: Set<Seq<char>>,
    names: Map<Seq<char>, V>,
    fixed: Set<Seq<char>>,
    place: Place<V>,
    device: Device<V>,
)
    requires
        free(family, fixed),
        statement_within(expression, family),
    ensures
        names_after(expression, names, fixed, place, device) == names_after(
            expression,
            names,
            Set::empty(),
            place,
            device,
        ),
    decreases expression, 0nat, 0nat,
{
    match expression.kind {
        ExprKind::ForLoop { pattern, range, body } => {
            lemma_free_rounds(
                body.statements@,
                pattern_ident(&pattern)->Ok_0.name@,
                range_start(*range, place),
                range_stop(*range, place),
                family,
                names,
                fixed,
                place,
                device,
            );
        },
        ExprKind::MethodCall { receiver, arguments, .. } => {
            if arguments@.len() == 1 {
                if let ExprKind::Closure(closure) = arguments@[0].kind {
                    lemma_free_for_each(*receiver, closure, family, names, fixed, place, device);
                }
            }
        },
        _ => {},
    }
}

proof fn lemma_free_for_each<V>(
    receiver: SourceExpr,
    closure: SourceClosure,
    family: Set<Seq<char>>,
    names: Map<Seq<char>, V>,
    fixed: Set<Seq<char>>,
    place: Place<V>,
    device: Device<V>,
)
    requires
        free(family, fixed),
        family.contains(pattern_ident(&closure.inputs@[0])->Ok_0.name@),
        match closure.body.kind {
            ExprKind::Block(block) => all_within(block.statements@, family),
            _ => statement_within(*closure.body, family),
        },
    ensures
        names_after_for_each(receiver, closure, names, fixed, place, device)
            == names_after_for_each(receiver, closure, names, Set::empty(), place, device),
    decreases closure, 2nat, 0nat,
{
    let variable = pattern_ident(&closure.inputs@[0])->Ok_0.name@;
    let start = range_start(receiver, place);
    let stop = range_stop(receiver, place);
    match closure.body.kind {
        ExprKind::Block(block) => {
            lemma_free_rounds(
                block.statements@,
                variable,
                start,
                stop,
                family,
                names,
                fixed,
                place,
                device,
            );
        },
        _ => {
            lemma_free_each(
                *closure.body,
                variable,
                start,
                stop,
                family,
                names,
                fixed,
                place,
                device,
            );
        },
    }
}

proof fn lemma_free_step<V>(
    statement: SourceStatement,
    family: Set<Seq<char>>,
    names: Map<Seq<char>, V>,
    fixed: Set<Seq<char>>,
    place: Place<V>,
    device: Device<V>,
)
    requires
        free(family, fixed),
        step_within(statement, family),
    ensures
        names_after_step(statement, names, fixed, place, device) == names_after_step(
            statement,
            names,
            Set::empty(),
            place,
            device,
        ),
    decreases statement, 0nat, 0nat,
{
    match statement {
        SourceStatement::Local(local) => {
            lemma_free_given(
                local.initializer->0.value,
                declared_type(local),
                family,
                names,
                fixed,
                place,
                device,
            );
        },
        SourceStatement::Expr { expression, .. } => {
            lemma_free_statement(expression, family, names, fixed, place, device);
        },
        _ => {},
    }
}

proof fn lemma_free_statements<V>(
    statements: Seq<SourceStatement>,
    family: Set<Seq<char>>,
    names: Map<Seq<char>, V>,
    fixed: Set<Seq<char>>,
    place: Place<V>,
    device: Device<V>,
)
    requires
        free(family, fixed),
        all_within(statements, family),
    ensures
        names_after_all(statements, names, fixed, place, device) == names_after_all(
            statements,
            names,
            Set::empty(),
            place,
            device,
        ),
    decreases statements, 0nat, 0nat,
{
    if statements.len() > 0 {
        let before = statements.drop_last();
        lemma_free_statements(before, family, names, fixed, place, device);
        lemma_free_step(
            statements.last(),
            family,
            names_after_all(before, names, fixed, place, device),
            fixed,
            place,
            device,
        );
    }
}

proof fn lemma_free_rounds<V>(
    statements: Seq<SourceStatement>,
    variable: Seq<char>,
    counter: nat,
    stop: nat,
    family: Set<Seq<char>>,
    names: Map<Seq<char>, V>,
    fixed: Set<Seq<char>>,
    place: Place<V>,
    device: Device<V>,
)
    requires
        free(family, fixed),
        family.contains(variable),
        all_within(statements, family),
    ensures
        names_after_rounds(statements, variable, counter, stop, names, fixed, place, device)
            == names_after_rounds(
            statements,
            variable,
            counter,
            stop,
            names,
            Set::empty(),
            place,
            device,
        ),
    decreases statements, 1nat, stop - counter,
{
    if counter < stop {
        let entered = names.insert(variable, (device.number)(counter));
        lemma_free_statements(statements, family, entered, fixed, place, device);
        let inside = names_after_all(statements, entered, fixed, place, device);
        lemma_free_rounds(
            statements,
            variable,
            counter + 1,
            stop,
            family,
            leave(names, inside, variable),
            fixed,
            place,
            device,
        );
    }
}

proof fn lemma_free_each<V>(
    expression: SourceExpr,
    variable: Seq<char>,
    counter: nat,
    stop: nat,
    family: Set<Seq<char>>,
    names: Map<Seq<char>, V>,
    fixed: Set<Seq<char>>,
    place: Place<V>,
    device: Device<V>,
)
    requires
        free(family, fixed),
        family.contains(variable),
        statement_within(expression, family),
    ensures
        names_after_each(expression, variable, counter, stop, names, fixed, place, device)
            == names_after_each(
            expression,
            variable,
            counter,
            stop,
            names,
            Set::empty(),
            place,
            device,
        ),
    decreases expression, 1nat, stop - counter,
{
    if counter < stop {
        let entered = names.insert(variable, (device.number)(counter));
        lemma_free_statement(expression, family, entered, fixed, place, device);
        let inside = names_after(expression, entered, fixed, place, device);
        lemma_free_each(
            expression,
            variable,
            counter + 1,
            stop,
            family,
            leave(names, inside, variable),
            fixed,
            place,
            device,
        );
    }
}

/// A body that declares and assigns no fixed name has the meaning that Rust gives it, in which a
/// declaration hides whatever had its name before.
pub proof fn law_other_bodies_mean_what_rust_says<V>(
    body: SourceExpr,
    output: Seq<char>,
    family: Set<Seq<char>>,
    names: Map<Seq<char>, V>,
    fixed: Set<Seq<char>>,
    place: Place<V>,
    device: Device<V>,
)
    requires
        free(family, fixed),
        body_within(body, family),
    ensures
        body_meaning(body, output, names, fixed, place, device) == body_meaning(
            body,
            output,
            names,
            Set::empty(),
            place,
            device,
        ),
{
    match body.kind {
        ExprKind::Block(block) => {
            let statements = block.statements@;
            if statements.len() > 0 {
                let before = statements.drop_last();
                lemma_within_prefix(statements, before.len() as int, family);
                assert(statements.take(before.len() as int) =~= before);
                lemma_free_statements(before, family, names, fixed, place, device);
                if let SourceStatement::Expr { expression, .. } = statements.last() {
                    lemma_free_given(
                        expression,
                        output,
                        family,
                        names_after_all(before, names, fixed, place, device),
                        fixed,
                        place,
                        device,
                    );
                }
            }
        },
        _ => lemma_free_given(body, output, family, names, fixed, place, device),
    }
}

/// What the names in the body of a map's closure stand for, before it declares any: the arguments
/// of the closure, and the scalar parameters of the function.
pub open spec fn closure_names<V>(
    bindings: ClosureBindingsView,
    scalars: Map<Seq<char>, V>,
    elements: Seq<V>,
    point: Seq<nat>,
    device: Device<V>,
) -> Map<Seq<char>, V> {
    Map::new(
        |name: Seq<char>|
            bindings.values.dom().contains(name) || bindings.point_axes.dom().contains(name)
                || scalars.dom().contains(name),
        |name: Seq<char>|
            if bindings.values.dom().contains(name) {
                elements[bindings.values[name] as int]
            } else if bindings.point_axes.dom().contains(name) {
                (device.number)(point[bindings.point_axes[name] as int])
            } else {
                scalars[name]
            },
    )
}

/// The kernel of a function computes, in each thread, what the closure of the function's map
/// computes for the elements and the point of that thread and for the tensors that it captures.
pub proof fn law_kernels_compute_the_closure<'a, V>(
    function: &'a SourceFunction,
    family: Set<Seq<char>>,
    scalars: Map<Seq<char>, V>,
    thread: Thread<V>,
    device: Device<V>,
)
    requires
        distinct(family),
        expanded(function) matches Ok(expansion) ==> {
            let chain = chain_of(&function.block)->Ok_0;
            &&& scalars.dom() == scalar_map(expansion.scalars).dom()
            &&& forall|name: Seq<char>| #[trigger]
                scalars.dom().contains(name) ==> thread.scalars[scalar_text(name)] == scalars[name]
            &&& body_within(*chain.closure.body, family)
        },
    ensures
        expanded(function) matches Ok(expansion) ==> {
            let chain = chain_of(&function.block)->Ok_0;
            let bindings = bindings_of(
                *chain.closure,
                mode_of(chain, expansion.domain),
                expansion.kernel.logical_rank,
            )->Ok_0;
            let place = Place {
                point: bindings.point,
                coordinates: thread.point,
                lengths: thread.extent,
                tensors: named_tensors(visible_tensors(function), thread.captures),
            };
            let names = closure_names(bindings, scalars, thread.inputs, thread.point, device);
            output_value(expansion.kernel.body, thread, device) == body_meaning(
                *chain.closure.body,
                output_type(*function),
                names,
                names.dom(),
                place,
                device,
            )
        },
{
    if let Ok(expansion) = expanded(function) {
        let chain = chain_of(&function.block)->Ok_0;
        let rank = expansion.kernel.logical_rank;
        let bindings = bindings_of(*chain.closure, mode_of(chain, expansion.domain), rank)->Ok_0;
        let scope = scope_of(
            bindings,
            expansion.domain,
            rank,
            expansion.scalars,
            visible_tensors(function),
            expansion.output,
        );
        let place = Place {
            point: bindings.point,
            coordinates: thread.point,
            lengths: thread.extent,
            tensors: named_tensors(visible_tensors(function), thread.captures),
        };
        let names = closure_names(bindings, scalars, thread.inputs, thread.point, device);
        assert(agree(
            family,
            scope,
            Map::empty(),
            names,
            place,
            thread,
            Map::<Seq<char>, V>::empty(),
            device,
        ));
        assert(fixed_names(scope) =~= names.dom());
        lemma_metal_name(
            referent(&function.output->Type_0).kind->last->0.arguments->AngleBracketed_arguments@[0]
                ->Type_0.kind->last->0.name@,
        );
        law_lowering_keeps_the_meaning(
            *chain.closure.body,
            family,
            scope,
            names,
            place,
            thread,
            device,
        );
    }
}

/// What the thread at a linear position reads: the elements at that position, the point of the
/// extent that lies there, and all of the tensors that the body may capture.
pub open spec fn thread_at<V>(
    inputs: Seq<TensorView<V>>,
    captures: Seq<TensorView<V>>,
    scalars: Map<Seq<char>, V>,
    axes: Seq<usize>,
    linear: nat,
) -> Thread<V> {
    Thread {
        inputs: inputs.map_values(|input: TensorView<V>| input.values[linear as int]),
        point: coordinates(axes, linear).map_values(|coordinate: usize| coordinate as nat),
        extent: axes.map_values(|length: usize| length as nat),
        captures,
        scalars,
    }
}

/// The tensor that the threads of a kernel write.
pub open spec fn output_tensor<V>(
    body: DeviceBlockView,
    inputs: Seq<TensorView<V>>,
    captures: Seq<TensorView<V>>,
    scalars: Map<Seq<char>, V>,
    axes: Seq<usize>,
    device: Device<V>,
) -> TensorView<V> {
    TensorView {
        axes,
        values: Seq::new(
            product(axes),
            |linear: int|
                output_value(
                    body,
                    thread_at(inputs, captures, scalars, axes, linear as nat),
                    device,
                ),
        ),
    }
}

/// A compiled map is the map: where every input has the extent of the output, the element of the
/// output at a point is what the closure computes for the elements of the inputs at that point,
/// for the point itself and for the tensors that it captures, whatever their extents.
pub proof fn law_the_output_is_the_map<'a, V>(
    function: &'a SourceFunction,
    family: Set<Seq<char>>,
    inputs: Seq<TensorView<V>>,
    captures: Seq<TensorView<V>>,
    scalars: Map<Seq<char>, V>,
    kernel_scalars: Map<Seq<char>, V>,
    axes: Seq<usize>,
    point: Seq<usize>,
    device: Device<V>,
)
    requires
        in_bounds(axes, point),
        forall|i: int| 0 <= i < inputs.len() ==> (#[trigger] inputs[i]).axes == axes,
        distinct(family),
        expanded(function) matches Ok(expansion) ==> {
            let chain = chain_of(&function.block)->Ok_0;
            &&& scalars.dom() == scalar_map(expansion.scalars).dom()
            &&& forall|name: Seq<char>| #[trigger]
                scalars.dom().contains(name) ==> kernel_scalars[scalar_text(name)] == scalars[name]
            &&& body_within(*chain.closure.body, family)
        },
    ensures
        expanded(function) matches Ok(expansion) ==> {
            let chain = chain_of(&function.block)->Ok_0;
            let bindings = bindings_of(
                *chain.closure,
                mode_of(chain, expansion.domain),
                expansion.kernel.logical_rank,
            )->Ok_0;
            let output = output_tensor(
                expansion.kernel.body,
                inputs,
                captures,
                kernel_scalars,
                axes,
                device,
            );
            let elements = inputs.map_values(|input: TensorView<V>| input.at(point));
            let place = Place {
                point: bindings.point,
                coordinates: point.map_values(|coordinate: usize| coordinate as nat),
                lengths: axes.map_values(|length: usize| length as nat),
                tensors: named_tensors(visible_tensors(function), captures),
            };
            let names = closure_names(bindings, scalars, elements, place.coordinates, device);
            &&& output.axes == axes
            &&& output.values.len() == product(axes)
            &&& offset(axes, point) < product(axes)
            &&& output.at(point) == body_meaning(
                *chain.closure.body,
                output_type(*function),
                names,
                names.dom(),
                place,
                device,
            )
        },
{
    let linear = offset(axes, point);
    let thread = thread_at(inputs, captures, kernel_scalars, axes, linear);
    law_coordinates_of_offset(axes, point);
    law_kernels_compute_the_closure(function, family, scalars, thread, device);
    assert(thread.inputs =~= inputs.map_values(|input: TensorView<V>| input.at(point)));
}

} // verus!
