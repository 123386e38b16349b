//! What Metal source means, read from its text.
//!
//! A [`MetalExpr`], a [`MetalStatement`] and a [`MetalKernel`] are pieces of Metal source by their
//! syntax: each has a text, and each has a meaning that rests on the names in that text alone. A
//! kernel sees only what its parameters declare, and finds behind a parameter what is bound at the
//! buffer slot that the parameter names. The laws say that the source of a kernel is the text of
//! such a piece, and that running the piece gives what the kernel stands for.
use vstd::arithmetic::div_mod::*;
use vstd::prelude::*;

use crate::captures::{
    bounds, captures_of, law_captures_are_complete, occurs, occurs_in_any, occurs_in_statement,
    occurs_in_statements,
};
use crate::expr::{
    arguments_msl, captured_axis_msl, captured_msl, closings_msl, openings_msl, position_msl,
    Capture, ExprView,
};
use crate::extent::{
    coordinates, law_offset_is_nested, law_strides, lemma_coordinates_in_bounds,
    lemma_stride_positive, nested_offset, offset, positive, stride,
};
use crate::kernel::{
    capture_extent_msl, capture_extent_slot, capture_extents_msl, capture_msl, capture_slot,
    captures_msl, count_slot, domain_msl, extent_slot, input_msl, input_slot, inputs_msl,
    output_slot, point_steps, reconstruction_msl, scalar_msl, scalar_slot, scalars_msl, step_msl,
    steps_msl, ElementKernelView, PointStep, ScalarParamView,
};
use crate::layout::lemma_sum_term;
use crate::lower::CapturedTensor;
use crate::meaning::{
    assigned, bound_value, indices, leave, loop_stop, output_value, sum_value, value, values,
    variables_after, variables_after_all, variables_after_rounds, Device, Thread,
};
use crate::scoping::{
    closed_bound, closed_expr, closed_exprs, closed_kernel, closed_statement, closed_statements,
    declared_after, declared_after_all, kernel_declared, known_capture, known_captures, Declared,
};
use crate::statement::{
    assign_msl, comparison_msl, loop_end_msl, loop_header_msl, statements_msl, AssignOp, Bound,
    StatementView,
};
use crate::text::{
    all_digits, decimal, digits_value, law_decimal_is_injective, law_decimal_is_read_back,
};
use crate::types::ScalarType;

verus! {

/// What a kernel can name at some point of its text.
#[verifier::ext_equal]
pub ghost struct Memory<V> {
    /// The variables that the body declares.
    pub variables: Map<Seq<char>, V>,
    pub scalars: Map<Seq<char>, V>,
    /// Positions, counts and coordinates.
    pub numbers: Map<Seq<char>, nat>,
    /// The elements of tensors.
    pub elements: Map<Seq<char>, Seq<V>>,
    /// The lengths of axes.
    pub lengths: Map<Seq<char>, Seq<nat>>,
    /// The buffer slots that can be written.
    pub outputs: Map<Seq<char>, nat>,
}

/// An expression of Metal source.
pub ghost enum MetalExpr {
    /// The name of a variable.
    Variable(Seq<char>),
    /// The name of a scalar.
    Scalar(Seq<char>),
    /// The name of a number.
    Number(Seq<char>),
    Literal(Seq<char>),
    /// The length of an axis, `array[axis]`.
    Length { array: Seq<char>, axis: Seq<char> },
    /// An element of a tensor, `array[index]`.
    Element { array: Seq<char>, index: MetalIndex },
    /// `(left token right)`
    Operation { left: Box<MetalExpr>, token: Seq<char>, right: Box<MetalExpr> },
    /// `(token operand)`
    Prefix { token: Seq<char>, operand: Box<MetalExpr> },
    /// `ty(operand)`
    Conversion { ty: Seq<char>, operand: Box<MetalExpr> },
    /// `function(argument)`
    Call { function: Seq<char>, argument: Box<MetalExpr> },
    /// `(condition ? yes : no)`
    Choice { condition: Box<MetalExpr>, yes: Box<MetalExpr>, no: Box<MetalExpr> },
}

/// An index of Metal source.
pub ghost enum MetalIndex {
    /// The name of a number.
    Position(Seq<char>),
    /// `0`
    Zero,
    Coordinate(Box<MetalExpr>),
    /// `(coordinate + array[axis] * rest)`
    Nested {
        coordinate: Box<MetalExpr>,
        array: Seq<char>,
        axis: Seq<char>,
        rest: Box<MetalIndex>,
    },
}

/// The text of `array[axis]`.
pub open spec fn bracketed(array: Seq<char>, axis: Seq<char>) -> Seq<char> {
    array + "["@ + axis + "]"@
}

/// The text of an expression.
pub open spec fn text_of(expression: MetalExpr) -> Seq<char>
    decreases expression,
{
    match expression {
        MetalExpr::Variable(name) => name,
        MetalExpr::Scalar(name) => name,
        MetalExpr::Number(name) => name,
        MetalExpr::Literal(text) => text,
        MetalExpr::Length { array, axis } => bracketed(array, axis),
        MetalExpr::Element { array, index } => bracketed(array, index_text(index)),
        MetalExpr::Operation { left, token, right } => "("@ + text_of(*left) + " "@ + token + " "@
            + text_of(*right) + ")"@,
        MetalExpr::Prefix { token, operand } => "("@ + token + text_of(*operand) + ")"@,
        MetalExpr::Conversion { ty, operand } => ty + "("@ + text_of(*operand) + ")"@,
        MetalExpr::Call { function, argument } => function + "("@ + text_of(*argument) + ")"@,
        MetalExpr::Choice { condition, yes, no } => "("@ + text_of(*condition) + " ? "@ + text_of(
            *yes,
        ) + " : "@ + text_of(*no) + ")"@,
    }
}

/// The text of an index.
pub open spec fn index_text(index: MetalIndex) -> Seq<char>
    decreases index,
{
    match index {
        MetalIndex::Position(name) => name,
        MetalIndex::Zero => "0"@,
        MetalIndex::Coordinate(expression) => text_of(*expression),
        MetalIndex::Nested { coordinate, array, axis, rest } => "("@ + text_of(*coordinate)
            + " + "@ + bracketed(array, axis) + " * "@ + index_text(*rest) + ")"@,
    }
}

/// The number that a numeral stands for.
pub open spec fn numeral(text: Seq<char>) -> Option<nat> {
    if text.len() > 0 && all_digits(text) {
        Some(digits_value(text))
    } else {
        None
    }
}

/// The length that `array[axis]` is, where the array is declared.
pub open spec fn length_at<V>(array: Seq<char>, axis: Seq<char>, memory: Memory<V>) -> Option<nat> {
    if memory.lengths.dom().contains(array) {
        match numeral(axis) {
            Some(axis) => Some(memory.lengths[array][axis as int]),
            None => None,
        }
    } else {
        None
    }
}

/// The value of an expression, where everything that it names is declared.
pub open spec fn evaluated<V>(
    expression: MetalExpr,
    memory: Memory<V>,
    device: Device<V>,
) -> Option<V>
    decreases expression,
{
    match expression {
        MetalExpr::Variable(name) => if memory.variables.dom().contains(name) {
            Some(memory.variables[name])
        } else {
            None
        },
        MetalExpr::Scalar(name) => if memory.scalars.dom().contains(name) {
            Some(memory.scalars[name])
        } else {
            None
        },
        MetalExpr::Number(name) => if memory.numbers.dom().contains(name) {
            Some((device.number)(memory.numbers[name]))
        } else {
            None
        },
        MetalExpr::Literal(text) => Some((device.literal)(text)),
        MetalExpr::Length { array, axis } => match length_at(array, axis, memory) {
            Some(length) => Some((device.number)(length)),
            None => None,
        },
        MetalExpr::Element { array, index } => match index_value(index, memory, device) {
            Some(position) => if memory.elements.dom().contains(array) {
                Some(memory.elements[array][position as int])
            } else {
                None
            },
            None => None,
        },
        MetalExpr::Operation { left, token, right } => match (
            evaluated(*left, memory, device),
            evaluated(*right, memory, device),
        ) {
            (Some(left), Some(right)) => Some((device.binary)(token, left, right)),
            _ => None,
        },
        MetalExpr::Prefix { token, operand } => match evaluated(*operand, memory, device) {
            Some(operand) => Some((device.unary)(token, operand)),
            None => None,
        },
        MetalExpr::Conversion { ty, operand } => match evaluated(*operand, memory, device) {
            Some(operand) => Some((device.cast)(ty, operand)),
            None => None,
        },
        MetalExpr::Call { function, argument } => match evaluated(*argument, memory, device) {
            Some(argument) => Some((device.call)(function, argument)),
            None => None,
        },
        MetalExpr::Choice { condition, yes, no } => match (
            evaluated(*condition, memory, device),
            evaluated(*yes, memory, device),
            evaluated(*no, memory, device),
        ) {
            (Some(condition), Some(yes), Some(no)) => Some(
                if (device.holds)(condition) {
                    yes
                } else {
                    no
                },
            ),
            _ => None,
        },
    }
}

/// The position that an index is, where everything that it names is declared.
pub open spec fn index_value<V>(
    index: MetalIndex,
    memory: Memory<V>,
    device: Device<V>,
) -> Option<nat>
    decreases index,
{
    match index {
        MetalIndex::Position(name) => if memory.numbers.dom().contains(name) {
            Some(memory.numbers[name])
        } else {
            None
        },
        MetalIndex::Zero => Some(0),
        MetalIndex::Coordinate(expression) => match evaluated(*expression, memory, device) {
            Some(value) => Some((device.coordinate)(value) as nat),
            None => None,
        },
        MetalIndex::Nested { coordinate, array, axis, rest } => match (
            evaluated(*coordinate, memory, device),
            length_at(array, axis, memory),
            index_value(*rest, memory, device),
        ) {
            (Some(value), Some(length), Some(rest)) => Some(
                (device.coordinate)(value) as nat + length * rest,
            ),
            _ => None,
        },
    }
}

/// Whether the memory of a kernel holds, under the names of the device language, what a thread at
/// a linear position reads, and declares what has been declared.
pub open spec fn holds<V>(
    memory: Memory<V>,
    thread: Thread<V>,
    linear: nat,
    captures: Set<Capture>,
    declared: Declared,
) -> bool {
    &&& memory.numbers.dom().contains("__pm_linear"@)
    &&& memory.numbers["__pm_linear"@] == linear
    &&& declared.inputs == thread.inputs.len()
    &&& forall|i: nat|
        i < declared.inputs ==> {
            let name = "__pm_in"@ + #[trigger] decimal(i);
            &&& memory.elements.dom().contains(name)
            &&& memory.elements[name][linear as int] == thread.inputs[i as int]
        }
    &&& declared.rank matches Some(rank) ==> {
        &&& forall|axis: nat|
            axis < rank ==> {
                let name = "__pm_point"@ + #[trigger] decimal(axis);
                &&& memory.numbers.dom().contains(name)
                &&& memory.numbers[name] == thread.point[axis as int]
            }
    }
    &&& memory.lengths.dom().contains("__pm_extent"@)
    &&& memory.lengths["__pm_extent"@] == thread.extent
    &&& forall|name: Seq<char>| #[trigger]
        declared.scalars.contains(name) ==> memory.scalars.dom().contains(name)
            && memory.scalars[name] == thread.scalars[name]
    &&& forall|name: Seq<char>|
        (#[trigger] declared.lets.contains(name)) ==> memory.variables.dom().contains(name)
    &&& forall|name: Seq<char>|
        (#[trigger] declared.counters.contains(name)) ==> memory.variables.dom().contains(name)
    &&& forall|capture: Capture| #[trigger]
        captures.contains(capture) ==> {
            let name = "__pm_cap"@ + decimal(capture.tensor as nat);
            let tensor = thread.captures[capture.tensor as int];
            &&& memory.elements.dom().contains(name)
            &&& memory.elements[name] == tensor.values
            &&& memory.lengths.dom().contains(name + "_extent"@)
            &&& memory.lengths[name + "_extent"@] == tensor.axes.map_values(
                |length: usize| length as nat,
            )
            &&& declared.tensors[capture.tensor as int].rank matches Some(rank)
                ==> tensor.axes.len() == rank
        }
}

/// The Metal expression that a device expression is.
pub open spec fn metal(expression: ExprView) -> MetalExpr
    decreases expression,
{
    match expression {
        ExprView::Input(index) => MetalExpr::Element {
            array: "__pm_in"@ + decimal(index as nat),
            index: MetalIndex::Position("__pm_linear"@),
        },
        ExprView::PointAxis(axis) => MetalExpr::Number("__pm_point"@ + decimal(axis as nat)),
        ExprView::ExtentAxis(axis) => MetalExpr::Length {
            array: "__pm_extent"@,
            axis: decimal(axis as nat),
        },
        ExprView::Captured { capture, coordinates } => MetalExpr::Element {
            array: "__pm_cap"@ + decimal(capture.tensor as nat),
            index: metal_index(capture, coordinates, 0),
        },
        ExprView::CapturedAxis { capture, axis } => MetalExpr::Length {
            array: "__pm_cap"@ + decimal(capture.tensor as nat) + "_extent"@,
            axis: decimal(axis as nat),
        },
        ExprView::Scalar(name) => MetalExpr::Scalar(name),
        ExprView::Local(name) => MetalExpr::Variable(name),
        ExprView::Literal(text) => MetalExpr::Literal(text),
        ExprView::Call { function, arguments } => MetalExpr::Call {
            function,
            argument: Box::new(
                if arguments.len() == 1 {
                    metal(arguments[0])
                } else {
                    MetalExpr::Literal(Seq::empty())
                },
            ),
        },
        ExprView::Unary { op, value } => MetalExpr::Prefix {
            token: op.msl_text(),
            operand: Box::new(metal(*value)),
        },
        ExprView::Binary { op, left, right } => MetalExpr::Operation {
            left: Box::new(metal(*left)),
            token: op.msl_text(),
            right: Box::new(metal(*right)),
        },
        ExprView::Cast { value, ty } => MetalExpr::Conversion {
            ty: ty.msl_text(),
            operand: Box::new(metal(*value)),
        },
        ExprView::Select { condition, when_true, when_false } => MetalExpr::Choice {
            condition: Box::new(metal(*condition)),
            yes: Box::new(metal(*when_true)),
            no: Box::new(metal(*when_false)),
        },
    }
}

/// The Metal index that the coordinates of a captured tensor are, from an axis on.
pub open spec fn metal_index(
    capture: Capture,
    coordinates: Seq<ExprView>,
    axis: nat,
) -> MetalIndex
    decreases coordinates, coordinates.len() - axis,
{
    if axis >= coordinates.len() {
        MetalIndex::Zero
    } else if axis + 1 == coordinates.len() {
        MetalIndex::Coordinate(Box::new(metal(coordinates[axis as int])))
    } else {
        MetalIndex::Nested {
            coordinate: Box::new(metal(coordinates[axis as int])),
            array: "__pm_cap"@ + decimal(capture.tensor as nat) + "_extent"@,
            axis: decimal(axis),
            rest: Box::new(metal_index(capture, coordinates, axis + 1)),
        }
    }
}

proof fn lemma_closings(count: nat)
    ensures
        ")"@ + closings_msl(count) == closings_msl(count + 1),
    decreases count,
{
    if count == 0 {
        assert(")"@ + closings_msl(0) =~= closings_msl(0) + ")"@);
        assert(closings_msl(1) == closings_msl(0) + ")"@);
    } else {
        lemma_closings((count - 1) as nat);
        let shorter = closings_msl((count - 1) as nat);
        assert(")"@ + (shorter + ")"@) =~= (")"@ + shorter) + ")"@);
    }
}

proof fn lemma_length_text(capture: Capture, axis: nat)
    ensures
        bracketed("__pm_cap"@ + decimal(capture.tensor as nat) + "_extent"@, decimal(axis))
            == captured_axis_msl(capture, axis),
{
    reveal_strlit("_extent");
    reveal_strlit("_extent[");
    reveal_strlit("[");
    assert("_extent["@ =~= "_extent"@ + "["@);
    assert(bracketed("__pm_cap"@ + decimal(capture.tensor as nat) + "_extent"@, decimal(axis))
        =~= captured_axis_msl(capture, axis));
}

proof fn lemma_expr_text(expression: ExprView, declared: Declared)
    requires
        closed_expr(expression, declared),
    ensures
        text_of(metal(expression)) == expression.msl(),
    decreases expression, 0nat,
{
    match expression {
        ExprView::Input(index) => {
            reveal_strlit("[");
            reveal_strlit("]");
            reveal_strlit("__pm_linear");
            reveal_strlit("[__pm_linear]");
            assert("[__pm_linear]"@ =~= "["@ + "__pm_linear"@ + "]"@);
            assert(index_text(MetalIndex::Position("__pm_linear"@)) == "__pm_linear"@);
            assert(text_of(metal(expression)) =~= expression.msl());
        },
        ExprView::ExtentAxis(axis) => {
            reveal_strlit("[");
            reveal_strlit("__pm_extent");
            reveal_strlit("__pm_extent[");
            assert("__pm_extent["@ =~= "__pm_extent"@ + "["@);
            assert(text_of(metal(expression)) =~= expression.msl());
        },
        ExprView::Captured { capture, coordinates } => {
            if coordinates.len() > 0 {
                lemma_position_text(capture, coordinates, 0, declared);
                assert(coordinates.take(0) =~= Seq::empty());
                let text = index_text(metal_index(capture, coordinates, 0));
                assert(openings_msl(capture, coordinates.take(0)) + text + closings_msl(0)
                    =~= text);
            }
            let array = "__pm_cap"@ + decimal(capture.tensor as nat);
            let index = metal_index(capture, coordinates, 0);
            assert(metal(expression) == MetalExpr::Element { array, index });
            assert(index_text(index) == position_msl(capture, coordinates));
            assert(text_of(metal(expression)) == bracketed(array, index_text(index)));
            assert(expression.msl() == captured_msl(capture) + "["@ + position_msl(
                capture,
                coordinates,
            ) + "]"@);
        },
        ExprView::CapturedAxis { capture, axis } => lemma_length_text(capture, axis as nat),
        ExprView::Call { function, arguments } => {
            lemma_closed_at(arguments, declared, 0);
            lemma_expr_text(arguments[0], declared);
            assert(arguments_msl(arguments) == arguments[0].msl());
        },
        ExprView::Unary { value, .. } => lemma_expr_text(*value, declared),
        ExprView::Binary { left, right, .. } => {
            lemma_expr_text(*left, declared);
            lemma_expr_text(*right, declared);
        },
        ExprView::Cast { value, .. } => lemma_expr_text(*value, declared),
        ExprView::Select { condition, when_true, when_false } => {
            lemma_expr_text(*condition, declared);
            lemma_expr_text(*when_true, declared);
            lemma_expr_text(*when_false, declared);
        },
        _ => {},
    }
}

proof fn lemma_closed_at(values: Seq<ExprView>, declared: Declared, i: int)
    requires
        closed_exprs(values, declared),
        0 <= i < values.len(),
    ensures
        closed_expr(values[i], declared),
    decreases values.len(),
{
    if i < values.len() - 1 {
        lemma_closed_at(values.drop_last(), declared, i);
    }
}

proof fn lemma_position_text(
    capture: Capture,
    coordinates: Seq<ExprView>,
    axis: nat,
    declared: Declared,
)
    requires
        closed_exprs(coordinates, declared),
        axis < coordinates.len(),
    ensures
        openings_msl(capture, coordinates.take(axis as int)) + index_text(
            metal_index(capture, coordinates, axis),
        ) + closings_msl(axis) == position_msl(capture, coordinates),
    decreases coordinates, coordinates.len() - axis,
{
    lemma_closed_at(coordinates, declared, axis as int);
    lemma_expr_text(coordinates[axis as int], declared);
    if axis + 1 == coordinates.len() {
        assert(coordinates.take(axis as int) =~= coordinates.drop_last());
    } else {
        lemma_position_text(capture, coordinates, axis + 1, declared);
        lemma_length_text(capture, axis);
        lemma_closings(axis);
        let next = coordinates.take((axis + 1) as int);
        assert(next.drop_last() =~= coordinates.take(axis as int));
        let before = openings_msl(capture, coordinates.take(axis as int));
        let here = coordinates[axis as int].msl();
        let length = captured_axis_msl(capture, axis);
        let rest = index_text(metal_index(capture, coordinates, axis + 1));
        assert(openings_msl(capture, next) == before + "("@ + here + " + "@ + length + " * "@);
        assert(index_text(metal_index(capture, coordinates, axis)) == "("@ + here + " + "@ + length
            + " * "@ + rest + ")"@);
        assert(before + ("("@ + here + " + "@ + length + " * "@ + rest + ")"@) + closings_msl(axis)
            =~= (before + "("@ + here + " + "@ + length + " * "@) + rest + (")"@ + closings_msl(
            axis,
        )));
    }
}

proof fn lemma_values<V>(
    expressions: Seq<ExprView>,
    thread: Thread<V>,
    variables: Map<Seq<char>, V>,
    device: Device<V>,
)
    ensures
        values(expressions, thread, variables, device).len() == expressions.len(),
        forall|i: int|
            0 <= i < expressions.len() ==> #[trigger] values(
                expressions,
                thread,
                variables,
                device,
            )[i] == value(expressions[i], thread, variables, device),
    decreases expressions.len(),
{
    if expressions.len() > 0 {
        lemma_values(expressions.drop_last(), thread, variables, device);
    }
}

proof fn lemma_occurs_at(capture: Capture, values: Seq<ExprView>, i: int)
    requires
        0 <= i < values.len(),
        occurs(capture, values[i]),
    ensures
        occurs_in_any(capture, values),
    decreases values.len(),
{
    if i < values.len() - 1 {
        lemma_occurs_at(capture, values.drop_last(), i);
    }
}

/// Whether every capture that occurs in an expression is one of a set.
pub open spec fn captures_within(expression: ExprView, captures: Set<Capture>) -> bool {
    forall|capture: Capture| #[trigger] occurs(capture, expression) ==> captures.contains(capture)
}

proof fn lemma_within_argument(
    values: Seq<ExprView>,
    whole: ExprView,
    captures: Set<Capture>,
    i: int,
)
    requires
        captures_within(whole, captures),
        0 <= i < values.len(),
        forall|capture: Capture| #[trigger]
            occurs_in_any(capture, values) ==> occurs(capture, whole),
    ensures
        captures_within(values[i], captures),
{
    assert forall|capture: Capture| #[trigger] occurs(capture, values[i]) implies captures.contains(
        capture,
    ) by {
        lemma_occurs_at(capture, values, i);
    }
}

proof fn lemma_within_part(part: ExprView, whole: ExprView, captures: Set<Capture>)
    requires
        captures_within(whole, captures),
        forall|capture: Capture| #[trigger] occurs(capture, part) ==> occurs(capture, whole),
    ensures
        captures_within(part, captures),
{
    assert forall|capture: Capture| #[trigger] occurs(capture, part) implies captures.contains(
        capture,
    ) by {
        assert(occurs(capture, whole));
    }
}

proof fn lemma_expr_value<V>(
    expression: ExprView,
    memory: Memory<V>,
    thread: Thread<V>,
    linear: nat,
    captures: Set<Capture>,
    declared: Declared,
    device: Device<V>,
)
    requires
        closed_expr(expression, declared),
        captures_within(expression, captures),
        holds(memory, thread, linear, captures, declared),
    ensures
        evaluated(metal(expression), memory, device) == Some(
            value(expression, thread, memory.variables, device),
        ),
    decreases expression, 0nat,
{
    match expression {
        ExprView::Input(index) => {
            let i = index as nat;
            assert(i < declared.inputs);
            assert(memory.elements.dom().contains("__pm_in"@ + decimal(i)));
            assert(index_value(MetalIndex::Position("__pm_linear"@), memory, device) == Some(
                linear,
            ));
        },
        ExprView::PointAxis(axis) => {
            let axis = axis as nat;
            assert(memory.numbers.dom().contains("__pm_point"@ + decimal(axis)));
        },
        ExprView::ExtentAxis(axis) => law_decimal_is_read_back(axis as nat),
        ExprView::Captured { capture, coordinates } => {
            assert(occurs(capture, expression));
            let tensor = thread.captures[capture.tensor as int];
            let point = indices(values(coordinates, thread, memory.variables, device), device);
            lemma_values(coordinates, thread, memory.variables, device);
            assert(tensor.axes.len() == coordinates.len());
            if coordinates.len() > 0 {
                lemma_index_value(
                    expression,
                    capture,
                    coordinates,
                    0,
                    memory,
                    thread,
                    linear,
                    captures,
                    declared,
                    device,
                );
            }
            law_offset_is_nested(tensor.axes, point);
            let array = "__pm_cap"@ + decimal(capture.tensor as nat);
            let index = metal_index(capture, coordinates, 0);
            assert(index_value(index, memory, device) == Some(offset(tensor.axes, point)));
            assert(metal(expression) == MetalExpr::Element { array, index });
            assert(value(expression, thread, memory.variables, device) == tensor.at(point));
        },
        ExprView::CapturedAxis { capture, axis } => {
            assert(occurs(capture, expression));
            law_decimal_is_read_back(axis as nat);
            let tensor = thread.captures[capture.tensor as int];
            assert(axis < tensor.axes.len());
        },
        ExprView::Call { function, arguments } => {
            lemma_closed_at(arguments, declared, 0);
            lemma_within_argument(arguments, expression, captures, 0);
            lemma_expr_value(arguments[0], memory, thread, linear, captures, declared, device);
        },
        ExprView::Unary { value, .. } => {
            lemma_within_part(*value, expression, captures);
            lemma_expr_value(*value, memory, thread, linear, captures, declared, device);
        },
        ExprView::Binary { left, right, .. } => {
            lemma_within_part(*left, expression, captures);
            lemma_within_part(*right, expression, captures);
            lemma_expr_value(*left, memory, thread, linear, captures, declared, device);
            lemma_expr_value(*right, memory, thread, linear, captures, declared, device);
        },
        ExprView::Cast { value, .. } => {
            lemma_within_part(*value, expression, captures);
            lemma_expr_value(*value, memory, thread, linear, captures, declared, device);
        },
        ExprView::Select { condition, when_true, when_false } => {
            lemma_within_part(*condition, expression, captures);
            lemma_within_part(*when_true, expression, captures);
            lemma_within_part(*when_false, expression, captures);
            lemma_expr_value(*condition, memory, thread, linear, captures, declared, device);
            lemma_expr_value(*when_true, memory, thread, linear, captures, declared, device);
            lemma_expr_value(*when_false, memory, thread, linear, captures, declared, device);
        },
        _ => {},
    }
}

proof fn lemma_index_value<V>(
    whole: ExprView,
    capture: Capture,
    coordinates: Seq<ExprView>,
    axis: nat,
    memory: Memory<V>,
    thread: Thread<V>,
    linear: nat,
    captures: Set<Capture>,
    declared: Declared,
    device: Device<V>,
)
    requires
        whole == (ExprView::Captured { capture, coordinates }),
        closed_exprs(coordinates, declared),
        captures_within(whole, captures),
        captures.contains(capture),
        holds(memory, thread, linear, captures, declared),
        coordinates.len() == thread.captures[capture.tensor as int].axes.len(),
        axis < coordinates.len(),
    ensures
        index_value(metal_index(capture, coordinates, axis), memory, device) == Some(
            nested_offset(
                thread.captures[capture.tensor as int].axes,
                indices(values(coordinates, thread, memory.variables, device), device),
                axis,
            ),
        ),
    decreases coordinates, coordinates.len() - axis,
{
    lemma_values(coordinates, thread, memory.variables, device);
    lemma_closed_at(coordinates, declared, axis as int);
    lemma_within_argument(coordinates, whole, captures, axis as int);
    lemma_expr_value(
        coordinates[axis as int],
        memory,
        thread,
        linear,
        captures,
        declared,
        device,
    );
    if axis + 1 < coordinates.len() {
        lemma_index_value(
            whole,
            capture,
            coordinates,
            axis + 1,
            memory,
            thread,
            linear,
            captures,
            declared,
            device,
        );
        law_decimal_is_read_back(axis);
    }
}

/// A bound of a loop of Metal source.
pub ghost enum MetalBound {
    Numeral(Seq<char>),
    /// `array[axis]`
    Length { array: Seq<char>, axis: Seq<char> },
}

/// A statement of Metal source.
pub ghost enum MetalStatement {
    /// `ty name = value;`
    Declare { ty: Seq<char>, name: Seq<char>, value: MetalExpr },
    /// `ty name = 0;`
    DeclareZero { ty: Seq<char>, name: Seq<char> },
    /// `name token value;`
    Assign { name: Seq<char>, token: Seq<char>, value: MetalExpr },
    /// `for (uint variable = start; variable comparison end; ++variable) { body }`
    Loop {
        variable: Seq<char>,
        start: MetalBound,
        comparison: Seq<char>,
        end: MetalBound,
        body: Seq<MetalStatement>,
    },
    /// `uint name = from;`
    Copy { name: Seq<char>, from: Seq<char> },
    /// `uint name = of % array[axis];`
    Remainder { name: Seq<char>, of: Seq<char>, array: Seq<char>, axis: Seq<char> },
    /// `name /= array[axis];`
    Divide { name: Seq<char>, array: Seq<char>, axis: Seq<char> },
}

/// The text of a bound.
pub open spec fn bound_text(bound: MetalBound) -> Seq<char> {
    match bound {
        MetalBound::Numeral(text) => text,
        MetalBound::Length { array, axis } => bracketed(array, axis),
    }
}

/// The text of a statement behind an indentation.
pub open spec fn statement_text(statement: MetalStatement, indent: Seq<char>) -> Seq<char>
    decreases statement,
{
    match statement {
        MetalStatement::Declare { ty, name, value } => indent + ty + " "@ + name + " = "@ + text_of(
            value,
        ) + ";\n"@,
        MetalStatement::DeclareZero { ty, name } => indent + ty + " "@ + name + " = 0;\n"@,
        MetalStatement::Assign { name, token, value } => indent + name + " "@ + token + " "@
            + text_of(value) + ";\n"@,
        MetalStatement::Loop { variable, start, comparison, end, body } => indent + "for (uint "@
            + variable + " = "@ + bound_text(start) + "; "@ + variable + " "@ + comparison + " "@
            + bound_text(end) + "; ++"@ + variable + ") {\n"@ + (statements_text(
            body,
            indent + "    "@,
        ) + (indent + "}\n"@)),
        MetalStatement::Copy { name, from } => indent + "uint "@ + name + " = "@ + from + ";\n"@,
        MetalStatement::Remainder { name, of, array, axis } => indent + "uint "@ + name + " = "@
            + of + " % "@ + bracketed(array, axis) + ";\n"@,
        MetalStatement::Divide { name, array, axis } => indent + name + " /= "@ + bracketed(
            array,
            axis,
        ) + ";\n"@,
    }
}

/// The text of statements behind an indentation.
pub open spec fn statements_text(statements: Seq<MetalStatement>, indent: Seq<char>) -> Seq<char>
    decreases statements,
{
    if statements.len() == 0 {
        Seq::empty()
    } else {
        statements_text(statements.drop_last(), indent) + statement_text(
            statements.last(),
            indent,
        )
    }
}

/// What a bound is, where everything that it names is declared.
pub open spec fn bound_number<V>(bound: MetalBound, memory: Memory<V>) -> Option<nat> {
    match bound {
        MetalBound::Numeral(text) => numeral(text),
        MetalBound::Length { array, axis } => length_at(array, axis, memory),
    }
}

/// The first counter for which a comparison with the end fails.
pub open spec fn stop_of(comparison: Seq<char>, end: nat) -> Option<nat> {
    if comparison == "<"@ {
        Some(end)
    } else if comparison == "<="@ {
        Some(end + 1)
    } else {
        None
    }
}

/// The memory after a statement, where everything that the statement names is declared.
pub open spec fn ran<V>(
    statement: MetalStatement,
    memory: Memory<V>,
    device: Device<V>,
) -> Option<Memory<V>>
    decreases statement, 0nat, 0nat,
{
    match statement {
        MetalStatement::Declare { name, value, .. } => match evaluated(value, memory, device) {
            Some(value) => Some(
                Memory { variables: memory.variables.insert(name, value), ..memory },
            ),
            None => None,
        },
        MetalStatement::DeclareZero { ty, name } => Some(
            Memory { variables: memory.variables.insert(name, (device.zero)(ty)), ..memory },
        ),
        MetalStatement::Assign { name, token, value } => match evaluated(value, memory, device) {
            Some(value) => if memory.variables.dom().contains(name) {
                let after = assigned(token, memory.variables[name], value, device);
                Some(Memory { variables: memory.variables.insert(name, after), ..memory })
            } else {
                None
            },
            None => None,
        },
        MetalStatement::Loop { variable, start, comparison, end, body } => match (
            bound_number(start, memory),
            bound_number(end, memory),
        ) {
            (Some(start), Some(end)) => match stop_of(comparison, end) {
                Some(stop) => ran_rounds(body, variable, start, stop, memory, device),
                None => None,
            },
            _ => None,
        },
        MetalStatement::Copy { name, from } => if memory.numbers.dom().contains(from) {
            Some(
                Memory {
                    numbers: memory.numbers.insert(name, memory.numbers[from]),
                    ..memory
                },
            )
        } else {
            None
        },
        MetalStatement::Remainder { name, of, array, axis } => match length_at(
            array,
            axis,
            memory,
        ) {
            Some(length) => if memory.numbers.dom().contains(of) {
                Some(
                    Memory {
                        numbers: memory.numbers.insert(name, memory.numbers[of] % length),
                        ..memory
                    },
                )
            } else {
                None
            },
            None => None,
        },
        MetalStatement::Divide { name, array, axis } => match length_at(array, axis, memory) {
            Some(length) => if memory.numbers.dom().contains(name) {
                Some(
                    Memory {
                        numbers: memory.numbers.insert(name, memory.numbers[name] / length),
                        ..memory
                    },
                )
            } else {
                None
            },
            None => None,
        },
    }
}

/// The memory after statements.
pub open spec fn ran_all<V>(
    statements: Seq<MetalStatement>,
    memory: Memory<V>,
    device: Device<V>,
) -> Option<Memory<V>>
    decreases statements, 0nat, 0nat,
{
    if statements.len() == 0 {
        Some(memory)
    } else {
        match ran_all(statements.drop_last(), memory, device) {
            Some(between) => ran(statements.last(), between, device),
            None => None,
        }
    }
}

/// The memory after the rounds of a loop from a counter on.
pub open spec fn ran_rounds<V>(
    body: Seq<MetalStatement>,
    variable: Seq<char>,
    counter: nat,
    stop: nat,
    memory: Memory<V>,
    device: Device<V>,
) -> Option<Memory<V>>
    decreases body, 1nat, stop - counter,
{
    if counter >= stop {
        Some(memory)
    } else {
        let entered = Memory {
            variables: memory.variables.insert(variable, (device.number)(counter)),
            ..memory
        };
        match ran_all(body, entered, device) {
            Some(inside) => ran_rounds(
                body,
                variable,
                counter + 1,
                stop,
                Memory {
                    variables: leave(memory.variables, inside.variables, variable),
                    ..memory
                },
                device,
            ),
            None => None,
        }
    }
}

/// The Metal bound that a bound is.
pub open spec fn metal_bound(bound: Bound) -> MetalBound {
    match bound {
        Bound::Literal(value) => MetalBound::Numeral(decimal(value as nat)),
        Bound::ExtentAxis(axis) => MetalBound::Length {
            array: "__pm_extent"@,
            axis: decimal(axis as nat),
        },
        Bound::CapturedAxis { capture, axis } => MetalBound::Length {
            array: "__pm_cap"@ + decimal(capture.tensor as nat) + "_extent"@,
            axis: decimal(axis as nat),
        },
    }
}

/// The Metal statements that a device statement is.
pub open spec fn metal_statement(statement: StatementView) -> Seq<MetalStatement>
    decreases statement,
{
    match statement {
        StatementView::Let { name, ty, value } => seq![
            MetalStatement::Declare { ty: ty.msl_text(), name, value: metal(value) },
        ],
        StatementView::Assign { name, op, value } => seq![
            MetalStatement::Assign { name, token: op.msl_text(), value: metal(value) },
        ],
        StatementView::ForRange { variable, start, end, inclusive, body } => seq![
            MetalStatement::Loop {
                variable,
                start: metal_bound(start),
                comparison: comparison_msl(inclusive),
                end: metal_bound(end),
                body: metal_statements(body),
            },
        ],
        StatementView::Sum { name, ty, variable, start, end, inclusive, term } => seq![
            MetalStatement::DeclareZero { ty: ty.msl_text(), name },
            MetalStatement::Loop {
                variable,
                start: metal_bound(start),
                comparison: comparison_msl(inclusive),
                end: metal_bound(end),
                body: seq![
                    MetalStatement::Assign { name, token: "+="@, value: metal(term) },
                ],
            },
        ],
    }
}

/// The Metal statements that device statements are.
pub open spec fn metal_statements(statements: Seq<StatementView>) -> Seq<MetalStatement>
    decreases statements,
{
    if statements.len() == 0 {
        Seq::empty()
    } else {
        metal_statements(statements.drop_last()) + metal_statement(statements.last())
    }
}

proof fn lemma_bound_text(bound: Bound)
    ensures
        bound_text(metal_bound(bound)) == bound.msl_text(),
{
    match bound {
        Bound::Literal(_) => {},
        Bound::ExtentAxis(axis) => {
            reveal_strlit("[");
            reveal_strlit("__pm_extent");
            reveal_strlit("__pm_extent[");
            assert("__pm_extent["@ =~= "__pm_extent"@ + "["@);
            assert(bound_text(metal_bound(bound)) =~= bound.msl_text());
        },
        Bound::CapturedAxis { capture, axis } => lemma_length_text(capture, axis as nat),
    }
}

proof fn lemma_one_text(statement: MetalStatement, indent: Seq<char>)
    ensures
        statements_text(seq![statement], indent) == statement_text(statement, indent),
{
    let one = seq![statement];
    assert(one.drop_last() =~= Seq::empty());
    assert(statements_text(one.drop_last(), indent) =~= Seq::empty());
    assert(statements_text(one, indent) =~= statement_text(statement, indent));
}

proof fn lemma_joined_text(
    first: Seq<MetalStatement>,
    second: Seq<MetalStatement>,
    indent: Seq<char>,
)
    ensures
        statements_text(first + second, indent) == statements_text(first, indent)
            + statements_text(second, indent),
    decreases second.len(),
{
    if second.len() == 0 {
        assert(first + second =~= first);
        assert(statements_text(first, indent) + statements_text(second, indent)
            =~= statements_text(first, indent));
    } else {
        lemma_joined_text(first, second.drop_last(), indent);
        assert((first + second).drop_last() =~= first + second.drop_last());
        assert((first + second).last() == second.last());
        let last = statement_text(second.last(), indent);
        assert(statements_text(first, indent) + statements_text(second.drop_last(), indent) + last
            =~= statements_text(first, indent) + (statements_text(second.drop_last(), indent)
            + last));
    }
}

proof fn lemma_statement_text(statement: StatementView, declared: Declared, indent: Seq<char>)
    requires
        closed_statement(statement, declared),
    ensures
        statements_text(metal_statement(statement), indent) == statement.msl(indent),
    decreases statement, 0nat,
{
    match statement {
        StatementView::Let { name, ty, value } => {
            lemma_expr_text(value, declared);
            lemma_one_text(metal_statement(statement)[0], indent);
        },
        StatementView::Assign { name, op, value } => {
            lemma_expr_text(value, declared);
            lemma_one_text(metal_statement(statement)[0], indent);
        },
        StatementView::ForRange { variable, start, end, inclusive, body } => {
            let inner = Declared { counters: declared.counters.insert(variable), ..declared };
            lemma_bound_text(start);
            lemma_bound_text(end);
            lemma_statements_text(body, inner, indent + "    "@);
            let looped = MetalStatement::Loop {
                variable,
                start: metal_bound(start),
                comparison: comparison_msl(inclusive),
                end: metal_bound(end),
                body: metal_statements(body),
            };
            assert(metal_statement(statement) =~= seq![looped]);
            lemma_one_text(looped, indent);
            assert(statement_text(looped, indent) == loop_header_msl(
                variable,
                start,
                end,
                inclusive,
                indent,
            ) + (statements_text(metal_statements(body), indent + "    "@) + loop_end_msl(
                indent,
            )));
        },
        StatementView::Sum { name, ty, variable, start, end, inclusive, term } => {
            let inner = Declared { counters: declared.counters.insert(variable), ..declared };
            lemma_bound_text(start);
            lemma_bound_text(end);
            lemma_expr_text(term, inner);
            let zero = MetalStatement::DeclareZero { ty: ty.msl_text(), name };
            let step = MetalStatement::Assign { name, token: "+="@, value: metal(term) };
            let looped = MetalStatement::Loop {
                variable,
                start: metal_bound(start),
                comparison: comparison_msl(inclusive),
                end: metal_bound(end),
                body: seq![step],
            };
            assert(metal_statement(statement) =~= seq![zero] + seq![looped]);
            lemma_joined_text(seq![zero], seq![looped], indent);
            lemma_one_text(zero, indent);
            lemma_one_text(looped, indent);
            lemma_one_text(step, indent + "    "@);
            lemma_sum_term(name, term, indent);
            assert(statement_text(step, indent + "    "@) == assign_msl(
                name,
                AssignOp::Add,
                term,
                indent + "    "@,
            ));
            assert(statement_text(looped, indent) == loop_header_msl(
                variable,
                start,
                end,
                inclusive,
                indent,
            ) + (statements_text(seq![step], indent + "    "@) + loop_end_msl(indent)));
        },
    }
}

proof fn lemma_statements_text(
    statements: Seq<StatementView>,
    declared: Declared,
    indent: Seq<char>,
)
    requires
        closed_statements(statements, declared),
    ensures
        statements_text(metal_statements(statements), indent) == statements_msl(
            statements,
            indent,
        ),
    decreases statements, 0nat,
{
    if statements.len() > 0 {
        let before = statements.drop_last();
        lemma_statements_text(before, declared, indent);
        lemma_statement_text(statements.last(), declared_after_all(before, declared), indent);
        lemma_joined_text(metal_statements(before), metal_statement(statements.last()), indent);
    }
}

/// Whether every capture that occurs in a statement is one of a set.
pub open spec fn statement_captures_within(
    statement: StatementView,
    captures: Set<Capture>,
) -> bool {
    forall|capture: Capture| #[trigger]
        occurs_in_statement(capture, statement) ==> captures.contains(capture)
}

/// Whether every capture that occurs in statements is one of a set.
pub open spec fn statements_captures_within(
    statements: Seq<StatementView>,
    captures: Set<Capture>,
) -> bool {
    forall|capture: Capture| #[trigger]
        occurs_in_statements(capture, statements) ==> captures.contains(capture)
}

proof fn lemma_bound_number<V>(
    bound: Bound,
    memory: Memory<V>,
    thread: Thread<V>,
    linear: nat,
    captures: Set<Capture>,
    declared: Declared,
)
    requires
        closed_bound(bound, declared),
        holds(memory, thread, linear, captures, declared),
        forall|capture: Capture| #[trigger] bounds(capture, bound) ==> captures.contains(capture),
    ensures
        bound_number(metal_bound(bound), memory) == Some(bound_value(bound, thread)),
{
    match bound {
        Bound::Literal(value) => law_decimal_is_read_back(value as nat),
        Bound::ExtentAxis(axis) => law_decimal_is_read_back(axis as nat),
        Bound::CapturedAxis { capture, axis } => {
            assert(bounds(capture, bound));
            law_decimal_is_read_back(axis as nat);
            assert(axis < thread.captures[capture.tensor as int].axes.len());
        },
    }
}

proof fn lemma_stop(inclusive: bool, end: nat)
    ensures
        stop_of(comparison_msl(inclusive), end) == Some(loop_stop(end, inclusive)),
{
    reveal_strlit("<");
    reveal_strlit("<=");
    assert("<="@.len() != "<"@.len());
}

proof fn lemma_ran_one<V>(statement: MetalStatement, memory: Memory<V>, device: Device<V>)
    ensures
        ran_all(seq![statement], memory, device) == ran(statement, memory, device),
{
    let one = seq![statement];
    assert(one.drop_last() =~= Seq::empty());
    assert(ran_all(one.drop_last(), memory, device) == Some(memory));
}

proof fn lemma_ran_joined<V>(
    first: Seq<MetalStatement>,
    second: Seq<MetalStatement>,
    memory: Memory<V>,
    device: Device<V>,
)
    ensures
        ran_all(first + second, memory, device) == match ran_all(first, memory, device) {
            Some(between) => ran_all(second, between, device),
            None => None,
        },
    decreases second.len(),
{
    if second.len() == 0 {
        assert(first + second =~= first);
    } else {
        lemma_ran_joined(first, second.drop_last(), memory, device);
        assert((first + second).drop_last() =~= first + second.drop_last());
        assert((first + second).last() == second.last());
    }
}

/// What holds of a memory holds of one with more variables.
proof fn lemma_holds_after<V>(
    memory: Memory<V>,
    variables: Map<Seq<char>, V>,
    thread: Thread<V>,
    linear: nat,
    captures: Set<Capture>,
    declared: Declared,
    after: Declared,
)
    requires
        holds(memory, thread, linear, captures, declared),
        after.inputs == declared.inputs,
        after.rank == declared.rank,
        after.scalars == declared.scalars,
        after.tensors == declared.tensors,
        forall|name: Seq<char>|
            (#[trigger] after.lets.contains(name)) ==> variables.dom().contains(name),
        forall|name: Seq<char>|
            (#[trigger] after.counters.contains(name)) ==> variables.dom().contains(name),
    ensures
        holds(Memory { variables, ..memory }, thread, linear, captures, after),
{
}

proof fn lemma_statement_runs<V>(
    statement: StatementView,
    memory: Memory<V>,
    thread: Thread<V>,
    linear: nat,
    captures: Set<Capture>,
    declared: Declared,
    device: Device<V>,
)
    requires
        closed_statement(statement, declared),
        statement_captures_within(statement, captures),
        holds(memory, thread, linear, captures, declared),
    ensures
        ({
            let variables = variables_after(statement, thread, memory.variables, device);
            let after = Memory { variables, ..memory };
            &&& ran_all(metal_statement(statement), memory, device) == Some(after)
            &&& holds(after, thread, linear, captures, declared_after(statement, declared))
        }),
    decreases statement, 0nat, 0nat,
{
    let variables = variables_after(statement, thread, memory.variables, device);
    let after = declared_after(statement, declared);
    match statement {
        StatementView::Let { name, ty, value } => {
            assert forall|capture: Capture| #[trigger] occurs(
                capture,
                value,
            ) implies captures.contains(capture) by {
                assert(occurs_in_statement(capture, statement));
            }
            lemma_expr_value(value, memory, thread, linear, captures, declared, device);
            lemma_ran_one(metal_statement(statement)[0], memory, device);
            lemma_holds_after(memory, variables, thread, linear, captures, declared, after);
        },
        StatementView::Assign { name, op, value } => {
            assert forall|capture: Capture| #[trigger] occurs(
                capture,
                value,
            ) implies captures.contains(capture) by {
                assert(occurs_in_statement(capture, statement));
            }
            lemma_expr_value(value, memory, thread, linear, captures, declared, device);
            lemma_ran_one(metal_statement(statement)[0], memory, device);
            lemma_holds_after(memory, variables, thread, linear, captures, declared, after);
        },
        StatementView::ForRange { variable, start, end, inclusive, body } => {
            assert forall|capture: Capture| #[trigger] bounds(
                capture,
                start,
            ) implies captures.contains(capture) by {
                assert(occurs_in_statement(capture, statement));
            }
            assert forall|capture: Capture| #[trigger] bounds(
                capture,
                end,
            ) implies captures.contains(capture) by {
                assert(occurs_in_statement(capture, statement));
            }
            assert forall|capture: Capture| #[trigger] occurs_in_statements(
                capture,
                body,
            ) implies captures.contains(capture) by {
                assert(occurs_in_statement(capture, statement));
            }
            lemma_bound_number(start, memory, thread, linear, captures, declared);
            lemma_bound_number(end, memory, thread, linear, captures, declared);
            let stop = loop_stop(bound_value(end, thread), inclusive);
            lemma_stop(inclusive, bound_value(end, thread));
            lemma_rounds_run(
                body,
                variable,
                bound_value(start, thread),
                stop,
                memory,
                thread,
                linear,
                captures,
                declared,
                device,
            );
            let looped = MetalStatement::Loop {
                variable,
                start: metal_bound(start),
                comparison: comparison_msl(inclusive),
                end: metal_bound(end),
                body: metal_statements(body),
            };
            assert(metal_statement(statement) =~= seq![looped]);
            lemma_ran_one(looped, memory, device);
            assert(ran(looped, memory, device) == ran_rounds(
                metal_statements(body),
                variable,
                bound_value(start, thread),
                stop,
                memory,
                device,
            ));
        },
        StatementView::Sum { name, ty, variable, start, end, inclusive, term } => {
            lemma_sum_runs(
                statement,
                name,
                ty,
                variable,
                start,
                end,
                inclusive,
                term,
                memory,
                thread,
                linear,
                captures,
                declared,
                device,
            );
            lemma_holds_after(memory, variables, thread, linear, captures, declared, after);
        },
    }
}

proof fn lemma_sum_runs<V>(
    statement: StatementView,
    name: Seq<char>,
    ty: ScalarType,
    variable: Seq<char>,
    start: Bound,
    end: Bound,
    inclusive: bool,
    term: ExprView,
    memory: Memory<V>,
    thread: Thread<V>,
    linear: nat,
    captures: Set<Capture>,
    declared: Declared,
    device: Device<V>,
)
    requires
        statement == (StatementView::Sum { name, ty, variable, start, end, inclusive, term }),
        closed_statement(statement, declared),
        statement_captures_within(statement, captures),
        holds(memory, thread, linear, captures, declared),
    ensures
        ran_all(metal_statement(statement), memory, device) == Some(
            Memory {
                variables: variables_after(statement, thread, memory.variables, device),
                ..memory
            },
        ),
{
    assert forall|capture: Capture| #[trigger] bounds(capture, start) implies captures.contains(
        capture,
    ) by {
        assert(occurs_in_statement(capture, statement));
    }
    assert forall|capture: Capture| #[trigger] bounds(capture, end) implies captures.contains(
        capture,
    ) by {
        assert(occurs_in_statement(capture, statement));
    }
    assert forall|capture: Capture| #[trigger] occurs(capture, term) implies captures.contains(
        capture,
    ) by {
        assert(occurs_in_statement(capture, statement));
    }
    let zero = MetalStatement::DeclareZero { ty: ty.msl_text(), name };
    let step = MetalStatement::Assign { name, token: "+="@, value: metal(term) };
    let looped = MetalStatement::Loop {
        variable,
        start: metal_bound(start),
        comparison: comparison_msl(inclusive),
        end: metal_bound(end),
        body: seq![step],
    };
    let total = (device.zero)(ty.msl_text());
    let between = Memory { variables: memory.variables.insert(name, total), ..memory };
    assert(metal_statement(statement) =~= seq![zero] + seq![looped]);
    lemma_ran_joined(seq![zero], seq![looped], memory, device);
    lemma_ran_one(zero, memory, device);
    lemma_ran_one(looped, between, device);
    lemma_holds_after(
        memory,
        between.variables,
        thread,
        linear,
        captures,
        declared,
        declared,
    );
    lemma_bound_number(start, between, thread, linear, captures, declared);
    lemma_bound_number(end, between, thread, linear, captures, declared);
    lemma_stop(inclusive, bound_value(end, thread));
    let stop = loop_stop(bound_value(end, thread), inclusive);
    lemma_terms_run(
        term,
        name,
        variable,
        bound_value(start, thread),
        stop,
        total,
        memory,
        thread,
        linear,
        captures,
        declared,
        device,
    );
    assert(ran(looped, between, device) == ran_rounds(
        seq![step],
        variable,
        bound_value(start, thread),
        stop,
        between,
        device,
    ));
}

proof fn lemma_terms_run<V>(
    term: ExprView,
    name: Seq<char>,
    variable: Seq<char>,
    counter: nat,
    stop: nat,
    total: V,
    memory: Memory<V>,
    thread: Thread<V>,
    linear: nat,
    captures: Set<Capture>,
    declared: Declared,
    device: Device<V>,
)
    requires
        name != variable,
        closed_expr(
            term,
            Declared { counters: declared.counters.insert(variable), ..declared },
        ),
        captures_within(term, captures),
        holds(memory, thread, linear, captures, declared),
    ensures
        ran_rounds(
            seq![MetalStatement::Assign { name, token: "+="@, value: metal(term) }],
            variable,
            counter,
            stop,
            Memory { variables: memory.variables.insert(name, total), ..memory },
            device,
        ) == Some(
            Memory {
                variables: memory.variables.insert(
                    name,
                    sum_value(
                        term,
                        name,
                        variable,
                        counter,
                        stop,
                        total,
                        thread,
                        memory.variables,
                        device,
                    ),
                ),
                ..memory
            },
        ),
    decreases stop - counter,
{
    if counter < stop {
        let step = MetalStatement::Assign { name, token: "+="@, value: metal(term) };
        let held = Memory { variables: memory.variables.insert(name, total), ..memory };
        let variables = held.variables.insert(variable, (device.number)(counter));
        let entered = Memory { variables, ..memory };
        let inner = Declared { counters: declared.counters.insert(variable), ..declared };
        lemma_holds_after(memory, variables, thread, linear, captures, declared, inner);
        lemma_expr_value(term, entered, thread, linear, captures, inner, device);
        lemma_ran_one(step, entered, device);
        reveal_strlit("+=");
        reveal_strlit("=");
        reveal_strlit("+");
        assert("+="@.len() != "="@.len());
        assert("+="@.drop_last() =~= "+"@);
        let next = (device.binary)("+"@, total, value(term, thread, variables, device));
        let inside = variables.insert(name, next);
        assert(leave(held.variables, inside, variable) =~= memory.variables.insert(name, next));
        lemma_terms_run(
            term,
            name,
            variable,
            counter + 1,
            stop,
            next,
            memory,
            thread,
            linear,
            captures,
            declared,
            device,
        );
    }
}

proof fn lemma_rounds_run<V>(
    body: Seq<StatementView>,
    variable: Seq<char>,
    counter: nat,
    stop: nat,
    memory: Memory<V>,
    thread: Thread<V>,
    linear: nat,
    captures: Set<Capture>,
    declared: Declared,
    device: Device<V>,
)
    requires
        closed_statements(
            body,
            Declared { counters: declared.counters.insert(variable), ..declared },
        ),
        statements_captures_within(body, captures),
        holds(memory, thread, linear, captures, declared),
    ensures
        ({
            let variables = variables_after_rounds(
                body,
                variable,
                counter,
                stop,
                thread,
                memory.variables,
                device,
            );
            let after = Memory { variables, ..memory };
            &&& ran_rounds(
                metal_statements(body),
                variable,
                counter,
                stop,
                memory,
                device,
            ) == Some(after)
            &&& holds(after, thread, linear, captures, declared)
        }),
    decreases body, 1nat, stop - counter,
{
    if counter < stop {
        let inner = Declared { counters: declared.counters.insert(variable), ..declared };
        let entered = memory.variables.insert(variable, (device.number)(counter));
        let inside_memory = Memory { variables: entered, ..memory };
        lemma_holds_after(memory, entered, thread, linear, captures, declared, inner);
        lemma_statements_run(body, inside_memory, thread, linear, captures, inner, device);
        let inside = variables_after_all(body, thread, entered, device);
        let left = leave(memory.variables, inside, variable);
        lemma_holds_after(memory, left, thread, linear, captures, declared, declared);
        lemma_rounds_run(
            body,
            variable,
            counter + 1,
            stop,
            Memory { variables: left, ..memory },
            thread,
            linear,
            captures,
            declared,
            device,
        );
    }
}

proof fn lemma_statements_run<V>(
    statements: Seq<StatementView>,
    memory: Memory<V>,
    thread: Thread<V>,
    linear: nat,
    captures: Set<Capture>,
    declared: Declared,
    device: Device<V>,
)
    requires
        closed_statements(statements, declared),
        statements_captures_within(statements, captures),
        holds(memory, thread, linear, captures, declared),
    ensures
        ({
            let variables = variables_after_all(statements, thread, memory.variables, device);
            let after = Memory { variables, ..memory };
            &&& ran_all(metal_statements(statements), memory, device) == Some(after)
            &&& holds(
                after,
                thread,
                linear,
                captures,
                declared_after_all(statements, declared),
            )
        }),
    decreases statements, 0nat, 0nat,
{
    if statements.len() > 0 {
        let before = statements.drop_last();
        assert forall|capture: Capture| #[trigger] occurs_in_statements(
            capture,
            before,
        ) implies captures.contains(capture) by {
            assert(occurs_in_statements(capture, statements));
        }
        assert forall|capture: Capture| #[trigger] occurs_in_statement(
            capture,
            statements.last(),
        ) implies captures.contains(capture) by {
            assert(occurs_in_statements(capture, statements));
        }
        lemma_statements_run(before, memory, thread, linear, captures, declared, device);
        let variables = variables_after_all(before, thread, memory.variables, device);
        lemma_statement_runs(
            statements.last(),
            Memory { variables, ..memory },
            thread,
            linear,
            captures,
            declared_after_all(before, declared),
            device,
        );
        lemma_ran_joined(
            metal_statements(before),
            metal_statement(statements.last()),
            memory,
            device,
        );
    }
}

/// The Metal statements that find the first `count` of `rank` coordinates.
pub open spec fn metal_point(rank: nat, count: nat) -> Seq<MetalStatement>
    decreases count,
{
    if count == 0 {
        seq![MetalStatement::Copy { name: "__pm_remaining"@, from: "__pm_linear"@ }]
    } else {
        let axis = decimal((count - 1) as nat);
        let taken = metal_point(rank, (count - 1) as nat).push(
            MetalStatement::Remainder {
                name: "__pm_point"@ + axis,
                of: "__pm_remaining"@,
                array: "__pm_extent"@,
                axis,
            },
        );
        if count == rank {
            taken
        } else {
            taken.push(
                MetalStatement::Divide { name: "__pm_remaining"@, array: "__pm_extent"@, axis },
            )
        }
    }
}

proof fn lemma_pushed_text(
    statements: Seq<MetalStatement>,
    statement: MetalStatement,
    indent: Seq<char>,
)
    ensures
        statements_text(statements.push(statement), indent) == statements_text(statements, indent)
            + statement_text(statement, indent),
{
    assert(statements.push(statement).drop_last() =~= statements);
}

proof fn lemma_ran_pushed<V>(
    statements: Seq<MetalStatement>,
    statement: MetalStatement,
    memory: Memory<V>,
    device: Device<V>,
)
    ensures
        ran_all(statements.push(statement), memory, device) == match ran_all(
            statements,
            memory,
            device,
        ) {
            Some(between) => ran(statement, between, device),
            None => None,
        },
{
    assert(statements.push(statement).drop_last() =~= statements);
}

proof fn lemma_take_text(axis: nat)
    ensures
        statement_text(
            MetalStatement::Remainder {
                name: "__pm_point"@ + decimal(axis),
                of: "__pm_remaining"@,
                array: "__pm_extent"@,
                axis: decimal(axis),
            },
            "        "@,
        ) == step_msl(PointStep::Take(axis)),
{
    reveal_strlit("        ");
    reveal_strlit("uint ");
    reveal_strlit("__pm_point");
    reveal_strlit("        uint __pm_point");
    reveal_strlit(" = ");
    reveal_strlit("__pm_remaining");
    reveal_strlit(" % ");
    reveal_strlit("__pm_extent");
    reveal_strlit("[");
    reveal_strlit(" = __pm_remaining % __pm_extent[");
    reveal_strlit("]");
    reveal_strlit(";\n");
    reveal_strlit("];\n");
    let digits = decimal(axis);
    assert("        uint __pm_point"@ =~= "        "@ + "uint "@ + "__pm_point"@);
    assert(" = __pm_remaining % __pm_extent["@ =~= " = "@ + "__pm_remaining"@ + " % "@
        + "__pm_extent"@ + "["@);
    assert("];\n"@ =~= "]"@ + ";\n"@);
    assert("        "@ + "uint "@ + ("__pm_point"@ + digits) + " = "@ + "__pm_remaining"@ + " % "@
        + ("__pm_extent"@ + "["@ + digits + "]"@) + ";\n"@ =~= "        "@ + "uint "@
        + "__pm_point"@ + digits + (" = "@ + "__pm_remaining"@ + " % "@ + "__pm_extent"@ + "["@)
        + digits + ("]"@ + ";\n"@));
}

proof fn lemma_divide_text(axis: nat)
    ensures
        statement_text(
            MetalStatement::Divide {
                name: "__pm_remaining"@,
                array: "__pm_extent"@,
                axis: decimal(axis),
            },
            "        "@,
        ) == step_msl(PointStep::Divide(axis)),
{
    reveal_strlit("        ");
    reveal_strlit("__pm_remaining");
    reveal_strlit(" /= ");
    reveal_strlit("__pm_extent");
    reveal_strlit("[");
    reveal_strlit("        __pm_remaining /= __pm_extent[");
    reveal_strlit("]");
    reveal_strlit(";\n");
    reveal_strlit("];\n");
    let digits = decimal(axis);
    assert("        __pm_remaining /= __pm_extent["@ =~= "        "@ + "__pm_remaining"@ + " /= "@
        + "__pm_extent"@ + "["@);
    assert("];\n"@ =~= "]"@ + ";\n"@);
    assert("        "@ + "__pm_remaining"@ + " /= "@ + ("__pm_extent"@ + "["@ + digits + "]"@)
        + ";\n"@ =~= "        "@ + "__pm_remaining"@ + " /= "@ + "__pm_extent"@ + "["@ + digits + (
    "]"@ + ";\n"@));
}

proof fn lemma_point_text(rank: nat, count: nat)
    ensures
        statements_text(metal_point(rank, count), "        "@)
            == "        uint __pm_remaining = __pm_linear;\n"@ + steps_msl(
            point_steps(rank, count),
        ),
    decreases count,
{
    let indent = "        "@;
    let opened = "        uint __pm_remaining = __pm_linear;\n"@;
    if count == 0 {
        reveal_strlit("        ");
        reveal_strlit("uint ");
        reveal_strlit("__pm_remaining");
        reveal_strlit(" = ");
        reveal_strlit("__pm_linear");
        reveal_strlit(";\n");
        reveal_strlit("        uint __pm_remaining = __pm_linear;\n");
        let first = MetalStatement::Copy { name: "__pm_remaining"@, from: "__pm_linear"@ };
        lemma_one_text(first, indent);
        assert(statement_text(first, indent) =~= opened);
        assert(opened + steps_msl(point_steps(rank, count)) =~= opened);
    } else {
        let axis = (count - 1) as nat;
        lemma_point_text(rank, axis);
        let remainder = MetalStatement::Remainder {
            name: "__pm_point"@ + decimal(axis),
            of: "__pm_remaining"@,
            array: "__pm_extent"@,
            axis: decimal(axis),
        };
        let done = metal_point(rank, axis);
        let steps = point_steps(rank, axis);
        let taken = steps.push(PointStep::Take(axis));
        lemma_take_text(axis);
        lemma_pushed_text(done, remainder, indent);
        assert(taken.drop_last() =~= steps);
        assert(statements_text(done.push(remainder), indent) =~= opened + steps_msl(taken));
        if count != rank {
            let divide = MetalStatement::Divide {
                name: "__pm_remaining"@,
                array: "__pm_extent"@,
                axis: decimal(axis),
            };
            let divided = taken.push(PointStep::Divide(axis));
            lemma_divide_text(axis);
            lemma_pushed_text(done.push(remainder), divide, indent);
            assert(divided.drop_last() =~= taken);
            assert(statements_text(done.push(remainder).push(divide), indent) =~= opened
                + steps_msl(divided));
        }
    }
}

/// The lengths of axes as numbers.
pub open spec fn lengths_of(axes: Seq<usize>) -> Seq<nat> {
    axes.map_values(|length: usize| length as nat)
}

proof fn lemma_point_name(axis: nat, other: nat)
    ensures
        "__pm_point"@ + decimal(axis) != "__pm_remaining"@,
        "__pm_point"@ + decimal(axis) != "__pm_linear"@,
        "__pm_remaining"@ != "__pm_linear"@,
        axis != other ==> "__pm_point"@ + decimal(axis) != "__pm_point"@ + decimal(other),
{
    reveal_strlit("__pm_point");
    reveal_strlit("__pm_remaining");
    reveal_strlit("__pm_linear");
    assert(("__pm_point"@ + decimal(axis))[5] == 'p');
    assert("__pm_remaining"@[5] == 'r');
    assert("__pm_linear"@[5] == 'l');
    let left = "__pm_point"@ + decimal(axis);
    let right = "__pm_point"@ + decimal(other);
    let prefix = "__pm_point"@.len();
    assert(left.skip(prefix as int) =~= decimal(axis));
    assert(right.skip(prefix as int) =~= decimal(other));
    if left == right {
        law_decimal_is_injective(axis, other);
    }
}

proof fn lemma_point_runs<V>(
    axes: Seq<usize>,
    linear: nat,
    count: nat,
    memory: Memory<V>,
    device: Device<V>,
)
    requires
        positive(axes),
        count <= axes.len(),
        memory.numbers.dom().contains("__pm_linear"@),
        memory.numbers["__pm_linear"@] == linear,
        memory.lengths.dom().contains("__pm_extent"@),
        memory.lengths["__pm_extent"@] == lengths_of(axes),
    ensures
        ({
            let after = ran_all(metal_point(axes.len(), count), memory, device);
            &&& after is Some
            &&& after->0 == (Memory { numbers: after->0.numbers, ..memory })
            &&& after->0.numbers.dom().contains("__pm_linear"@)
            &&& after->0.numbers["__pm_linear"@] == linear
            &&& after->0.numbers.dom().contains("__pm_remaining"@)
            &&& count < axes.len() ==> after->0.numbers["__pm_remaining"@] == linear / stride(
                axes,
                count as int,
            )
            &&& forall|axis: nat|
                axis < count ==> {
                    let name = "__pm_point"@ + #[trigger] decimal(axis);
                    &&& after->0.numbers.dom().contains(name)
                    &&& after->0.numbers[name] == (linear / stride(axes, axis as int))
                        % axes[axis as int] as nat
                }
        }),
    decreases count,
{
    if count == 0 {
        let first = MetalStatement::Copy { name: "__pm_remaining"@, from: "__pm_linear"@ };
        lemma_ran_one(first, memory, device);
        lemma_point_name(0, 0);
        assert(axes.take(0).len() == 0);
        assert(linear / 1 == linear);
    } else {
        let axis = (count - 1) as nat;
        lemma_point_runs(axes, linear, axis, memory, device);
        let before = ran_all(metal_point(axes.len(), axis), memory, device)->0;
        let remainder = MetalStatement::Remainder {
            name: "__pm_point"@ + decimal(axis),
            of: "__pm_remaining"@,
            array: "__pm_extent"@,
            axis: decimal(axis),
        };
        law_decimal_is_read_back(axis);
        let length = axes[axis as int] as nat;
        assert(lengths_of(axes)[axis as int] == length);
        assert(length_at("__pm_extent"@, decimal(axis), before) == Some(length));
        let done = metal_point(axes.len(), axis);
        lemma_ran_pushed(done, remainder, memory, device);
        let taken = ran(remainder, before, device)->0;
        let name = "__pm_point"@ + decimal(axis);
        assert(taken.numbers == before.numbers.insert(
            name,
            before.numbers["__pm_remaining"@] % length,
        ));
        lemma_point_name(axis, axis);
        assert forall|other: nat| other < count implies {
            let name = "__pm_point"@ + #[trigger] decimal(other);
            &&& taken.numbers.dom().contains(name)
            &&& taken.numbers[name] == (linear / stride(axes, other as int))
                % axes[other as int] as nat
        } by {
            lemma_point_name(axis, other);
        }
        if count != axes.len() {
            let divide = MetalStatement::Divide {
                name: "__pm_remaining"@,
                array: "__pm_extent"@,
                axis: decimal(axis),
            };
            lemma_ran_pushed(done.push(remainder), divide, memory, device);
            let divided = ran(divide, taken, device)->0;
            assert(divided.numbers == taken.numbers.insert(
                "__pm_remaining"@,
                taken.numbers["__pm_remaining"@] / length,
            ));
            law_strides(axes, axis as int);
            lemma_stride_positive(axes, axis as int);
            lemma_div_denominator(
                linear as int,
                stride(axes, axis as int) as int,
                axes[axis as int] as int,
            );
            assert forall|other: nat| other < count implies {
                let name = "__pm_point"@ + #[trigger] decimal(other);
                &&& divided.numbers.dom().contains(name)
                &&& divided.numbers[name] == (linear / stride(axes, other as int))
                    % axes[other as int] as nat
            } by {
                lemma_point_name(other, other);
            }
        }
    }
}

/// Whether statements, run on a memory, leave the coordinates of a point as the numbers
/// `__pm_point0`, `__pm_point1` and so on, and nothing but numbers changed.
pub open spec fn leaves_the_point<V>(
    statements: Seq<MetalStatement>,
    point: Seq<usize>,
    memory: Memory<V>,
    device: Device<V>,
) -> bool {
    ran_all(statements, memory, device) matches Some(after) && {
        &&& after == (Memory { numbers: after.numbers, ..memory })
        &&& after.numbers.dom().contains("__pm_linear"@)
        &&& after.numbers["__pm_linear"@] == memory.numbers["__pm_linear"@]
        &&& forall|axis: nat|
            axis < point.len() ==> {
                let name = "__pm_point"@ + #[trigger] decimal(axis);
                &&& after.numbers.dom().contains(name)
                &&& after.numbers[name] == point[axis as int] as nat
            }
    }
}

/// The lines with which a kernel of any rank reconstructs its point are Metal statements that,
/// run by the thread at a linear position, leave each coordinate of the point at that position
/// under the name of its axis.
pub proof fn law_reconstruction_lines_find_the_point<V>(
    axes: Seq<usize>,
    linear: nat,
    memory: Memory<V>,
    device: Device<V>,
)
    requires
        positive(axes),
        axes.len() <= usize::MAX,
        memory.numbers.dom().contains("__pm_linear"@),
        memory.numbers["__pm_linear"@] == linear,
        memory.lengths.dom().contains("__pm_extent"@),
        memory.lengths["__pm_extent"@] == lengths_of(axes),
    ensures
        exists|statements: Seq<MetalStatement>| #[trigger]
            statements_text(statements, "        "@) == reconstruction_msl(
                Some(axes.len() as usize),
            ) && leaves_the_point(statements, coordinates(axes, linear), memory, device),
{
    let rank = axes.len();
    lemma_point_text(rank, rank);
    lemma_point_runs(axes, linear, rank, memory, device);
    lemma_coordinates_in_bounds(axes, linear);
    assert(leaves_the_point(metal_point(rank, rank), coordinates(axes, linear), memory, device));
}

/// What is bound at a buffer slot, with the Metal name of its type where it has one.
pub ghost enum Content<V> {
    Output { ty: Seq<char> },
    Elements { ty: Seq<char>, values: Seq<V> },
    Lengths(Seq<nat>),
    Scalar { ty: Seq<char>, value: V },
    Number(nat),
}

/// A parameter of a Metal kernel, with the numeral of its buffer slot.
pub ghost enum MetalParameter {
    /// `device ty* name [[buffer(slot)]],`
    Output { ty: Seq<char>, name: Seq<char>, slot: Seq<char> },
    /// `const device ty* name [[buffer(slot)]],`
    Elements { ty: Seq<char>, name: Seq<char>, slot: Seq<char> },
    /// `constant uint* name [[buffer(slot)]],`
    Lengths { name: Seq<char>, slot: Seq<char> },
    /// `constant ty& name [[buffer(slot)]],`
    Scalar { ty: Seq<char>, name: Seq<char>, slot: Seq<char> },
    /// `constant uint& name [[buffer(slot)]],`
    Number { name: Seq<char>, slot: Seq<char> },
}

/// The line of a parameter.
pub open spec fn parameter_text(parameter: MetalParameter) -> Seq<char> {
    match parameter {
        MetalParameter::Output { ty, name, slot } => "    device "@ + ty + "* "@ + name
            + " [[buffer("@ + slot + ")]],\n"@,
        MetalParameter::Elements { ty, name, slot } => "    const device "@ + ty + "* "@ + name
            + " [[buffer("@ + slot + ")]],\n"@,
        MetalParameter::Lengths { name, slot } => "    constant uint* "@ + name + " [[buffer("@
            + slot + ")]],\n"@,
        MetalParameter::Scalar { ty, name, slot } => "    constant "@ + ty + "& "@ + name
            + " [[buffer("@ + slot + ")]],\n"@,
        MetalParameter::Number { name, slot } => "    constant uint& "@ + name + " [[buffer("@
            + slot + ")]],\n"@,
    }
}

/// The lines of parameters.
pub open spec fn parameters_text(parameters: Seq<MetalParameter>) -> Seq<char>
    decreases parameters.len(),
{
    if parameters.len() == 0 {
        Seq::empty()
    } else {
        parameters_text(parameters.drop_last()) + parameter_text(parameters.last())
    }
}

/// The numeral of the slot of a parameter.
pub open spec fn parameter_slot(parameter: MetalParameter) -> Seq<char> {
    match parameter {
        MetalParameter::Output { slot, .. } => slot,
        MetalParameter::Elements { slot, .. } => slot,
        MetalParameter::Lengths { slot, .. } => slot,
        MetalParameter::Scalar { slot, .. } => slot,
        MetalParameter::Number { slot, .. } => slot,
    }
}

/// The memory with a parameter, where something of the parameter's kind and type is bound at its
/// slot.
pub open spec fn with_parameter<V>(
    parameter: MetalParameter,
    slots: Seq<Content<V>>,
    memory: Memory<V>,
) -> Option<Memory<V>> {
    match numeral(parameter_slot(parameter)) {
        Some(slot) => if slot >= slots.len() {
            None
        } else {
            match (parameter, slots[slot as int]) {
                (
                    MetalParameter::Output { ty, name, .. },
                    Content::Output { ty: bound },
                ) => if ty == bound {
                    Some(Memory { outputs: memory.outputs.insert(name, slot), ..memory })
                } else {
                    None
                },
                (
                    MetalParameter::Elements { ty, name, .. },
                    Content::Elements { ty: bound, values },
                ) => if ty == bound {
                    Some(Memory { elements: memory.elements.insert(name, values), ..memory })
                } else {
                    None
                },
                (MetalParameter::Lengths { name, .. }, Content::Lengths(lengths)) => Some(
                    Memory { lengths: memory.lengths.insert(name, lengths), ..memory },
                ),
                (
                    MetalParameter::Scalar { ty, name, .. },
                    Content::Scalar { ty: bound, value },
                ) => if ty == bound {
                    Some(Memory { scalars: memory.scalars.insert(name, value), ..memory })
                } else {
                    None
                },
                (MetalParameter::Number { name, .. }, Content::Number(number)) => Some(
                    Memory { numbers: memory.numbers.insert(name, number), ..memory },
                ),
                _ => None,
            }
        },
        None => None,
    }
}

/// The memory that parameters make of what is bound.
pub open spec fn with_parameters<V>(
    parameters: Seq<MetalParameter>,
    slots: Seq<Content<V>>,
) -> Option<Memory<V>>
    decreases parameters.len(),
{
    if parameters.len() == 0 {
        Some(
            Memory {
                variables: Map::empty(),
                scalars: Map::empty(),
                numbers: Map::empty(),
                elements: Map::empty(),
                lengths: Map::empty(),
                outputs: Map::empty(),
            },
        )
    } else {
        match with_parameters(parameters.drop_last(), slots) {
            Some(memory) => with_parameter(parameters.last(), slots, memory),
            None => None,
        }
    }
}

/// A Metal kernel: its threads, each at a position, run the statements and write one element where
/// the position is below the bound.
pub ghost struct MetalKernel {
    pub name: Seq<char>,
    pub parameters: Seq<MetalParameter>,
    /// The name of the thread's position.
    pub position: Seq<char>,
    /// The name that is compared with the bound.
    pub guarded: Seq<char>,
    pub bound: Seq<char>,
    pub statements: Seq<MetalStatement>,
    /// The name of the tensor that is written.
    pub output: Seq<char>,
    /// The name of the index that is written.
    pub index: Seq<char>,
    pub value: MetalExpr,
}

/// The text of a kernel before its parameters.
pub open spec fn head_text(kernel: MetalKernel) -> Seq<char> {
    "#include <metal_stdlib>\n\nusing namespace metal;\n\nkernel void "@ + kernel.name + "(\n"@
}

/// The text of a kernel between its parameters and its statements.
pub open spec fn guard_text(kernel: MetalKernel) -> Seq<char> {
    "    uint "@ + kernel.position + " [[thread_position_in_grid]])\n{\n    if ("@
        + kernel.guarded + " < "@ + kernel.bound + ") {\n"@
}

/// The text of a kernel behind its statements.
pub open spec fn written_text(kernel: MetalKernel) -> Seq<char> {
    "        "@ + kernel.output + "["@ + kernel.index + "] = "@ + text_of(kernel.value)
        + ";\n    }\n}\n"@
}

/// The text of a kernel.
pub open spec fn kernel_source(kernel: MetalKernel) -> Seq<char> {
    head_text(kernel) + parameters_text(kernel.parameters) + guard_text(kernel) + statements_text(
        kernel.statements,
        "        "@,
    ) + written_text(kernel)
}

/// What a thread does to the buffers.
pub ghost enum Effect<V> {
    Nothing,
    /// It writes a value at an index of the buffer at a slot.
    Write { slot: nat, index: nat, value: V },
}

/// What the thread at a position does, where everything that it names is declared.
pub open spec fn effect<V>(
    kernel: MetalKernel,
    slots: Seq<Content<V>>,
    position: nat,
    device: Device<V>,
) -> Option<Effect<V>> {
    match with_parameters(kernel.parameters, slots) {
        Some(memory) => {
            let numbers = memory.numbers.insert(kernel.position, position);
            let started = Memory { numbers, ..memory };
            if !numbers.dom().contains(kernel.guarded) || !numbers.dom().contains(kernel.bound) {
                None
            } else if numbers[kernel.guarded] >= numbers[kernel.bound] {
                Some(Effect::Nothing)
            } else {
                match ran_all(kernel.statements, started, device) {
                    Some(after) => match evaluated(kernel.value, after, device) {
                        Some(value) => if after.outputs.dom().contains(kernel.output)
                            && after.numbers.dom().contains(kernel.index) {
                            Some(
                                Effect::Write {
                                    slot: after.outputs[kernel.output],
                                    index: after.numbers[kernel.index],
                                    value,
                                },
                            )
                        } else {
                            None
                        },
                        None => None,
                    },
                    None => None,
                }
            }
        },
        None => None,
    }
}

/// The Metal parameters of a kernel's inputs.
pub open spec fn metal_inputs(inputs: Seq<ScalarType>) -> Seq<MetalParameter> {
    Seq::new(
        inputs.len(),
        |i: int|
            MetalParameter::Elements {
                ty: inputs[i].msl_text(),
                name: "__pm_in"@ + decimal(i as nat),
                slot: decimal(input_slot(i as nat)),
            },
    )
}

/// The Metal parameters of captured tensors.
pub open spec fn metal_captures(inputs: nat, captures: Seq<Capture>) -> Seq<MetalParameter> {
    Seq::new(
        captures.len(),
        |i: int|
            MetalParameter::Elements {
                ty: captures[i].element.msl_text(),
                name: "__pm_cap"@ + decimal(captures[i].tensor as nat),
                slot: decimal(capture_slot(inputs, i as nat)),
            },
    )
}

/// The Metal parameters of the extents of the first of `total` captured tensors.
pub open spec fn metal_extents(
    inputs: nat,
    total: nat,
    captures: Seq<Capture>,
) -> Seq<MetalParameter> {
    Seq::new(
        captures.len(),
        |i: int|
            MetalParameter::Lengths {
                name: "__pm_cap"@ + decimal(captures[i].tensor as nat) + "_extent"@,
                slot: decimal(capture_extent_slot(inputs, total, i as nat)),
            },
    )
}

/// The Metal parameters of scalars.
pub open spec fn metal_scalars(
    inputs: nat,
    captures: nat,
    scalars: Seq<ScalarParamView>,
) -> Seq<MetalParameter> {
    Seq::new(
        scalars.len(),
        |i: int|
            MetalParameter::Scalar {
                ty: scalars[i].ty.msl_text(),
                name: scalars[i].name,
                slot: decimal(scalar_slot(inputs, captures, i as nat)),
            },
    )
}

/// The Metal parameters of the element count and the extent.
pub open spec fn metal_domain(inputs: nat, captures: nat, scalars: nat) -> Seq<MetalParameter> {
    seq![
        MetalParameter::Number {
            name: "__pm_count"@,
            slot: decimal(count_slot(inputs, captures, scalars)),
        },
        MetalParameter::Lengths {
            name: "__pm_extent"@,
            slot: decimal(extent_slot(inputs, captures, scalars)),
        },
    ]
}

/// The Metal parameter of the output.
pub open spec fn metal_output(output: ScalarType) -> MetalParameter {
    MetalParameter::Output { ty: output.msl_text(), name: "__pm_out"@, slot: "0"@ }
}

/// The Metal parameters of a kernel.
pub open spec fn metal_parameters(kernel: ElementKernelView) -> Seq<MetalParameter> {
    let inputs = kernel.inputs.len();
    let captures = captures_of(kernel.body);
    seq![metal_output(kernel.output)] + metal_inputs(kernel.inputs) + metal_captures(
        inputs,
        captures,
    ) + metal_extents(inputs, captures.len(), captures) + metal_scalars(
        inputs,
        captures.len(),
        kernel.scalars,
    ) + metal_domain(inputs, captures.len(), kernel.scalars.len())
}

/// The Metal statements that reconstruct the point, where the kernel observes one.
pub open spec fn metal_reconstruction(logical_rank: Option<usize>) -> Seq<MetalStatement> {
    match logical_rank {
        Some(rank) => metal_point(rank as nat, rank as nat),
        None => Seq::empty(),
    }
}

/// The Metal kernel that a kernel is.
pub open spec fn metal_kernel(kernel: ElementKernelView) -> MetalKernel {
    MetalKernel {
        name: kernel.name,
        parameters: metal_parameters(kernel),
        position: "__pm_linear"@,
        guarded: "__pm_linear"@,
        bound: "__pm_count"@,
        statements: metal_reconstruction(kernel.logical_rank) + metal_statements(
            kernel.body.statements,
        ),
        output: "__pm_out"@,
        index: "__pm_linear"@,
        value: metal(kernel.body.result),
    }
}

proof fn lemma_joined_parameters(first: Seq<MetalParameter>, second: Seq<MetalParameter>)
    ensures
        parameters_text(first + second) == parameters_text(first) + parameters_text(second),
    decreases second.len(),
{
    if second.len() == 0 {
        assert(first + second =~= first);
        assert(parameters_text(first) + parameters_text(second) =~= parameters_text(first));
    } else {
        lemma_joined_parameters(first, second.drop_last());
        assert((first + second).drop_last() =~= first + second.drop_last());
        assert((first + second).last() == second.last());
        let last = parameter_text(second.last());
        assert(parameters_text(first) + parameters_text(second.drop_last()) + last
            =~= parameters_text(first) + (parameters_text(second.drop_last()) + last));
    }
}

proof fn lemma_one_parameter(parameter: MetalParameter)
    ensures
        parameters_text(seq![parameter]) == parameter_text(parameter),
{
    let one = seq![parameter];
    assert(one.drop_last() =~= Seq::empty());
    assert(parameters_text(one.drop_last()) =~= Seq::empty());
    assert(parameters_text(one) =~= parameter_text(parameter));
}

proof fn lemma_inputs_text(inputs: Seq<ScalarType>)
    ensures
        parameters_text(metal_inputs(inputs)) == inputs_msl(inputs),
    decreases inputs.len(),
{
    if inputs.len() > 0 {
        let before = inputs.drop_last();
        lemma_inputs_text(before);
        assert(metal_inputs(inputs).drop_last() =~= metal_inputs(before));
        let i = (inputs.len() - 1) as nat;
        reveal_strlit("* ");
        reveal_strlit("__pm_in");
        reveal_strlit("* __pm_in");
        assert("* __pm_in"@ =~= "* "@ + "__pm_in"@);
        assert(parameter_text(metal_inputs(inputs).last()) =~= input_msl(i, inputs.last()));
    }
}

proof fn lemma_captures_text(inputs: nat, captures: Seq<Capture>)
    ensures
        parameters_text(metal_captures(inputs, captures)) == captures_msl(inputs, captures),
    decreases captures.len(),
{
    if captures.len() > 0 {
        let before = captures.drop_last();
        lemma_captures_text(inputs, before);
        assert(metal_captures(inputs, captures).drop_last() =~= metal_captures(inputs, before));
        let i = (captures.len() - 1) as nat;
        assert(parameter_text(metal_captures(inputs, captures).last()) =~= capture_msl(
            inputs,
            i,
            captures.last(),
        ));
    }
}

proof fn lemma_extents_text(inputs: nat, total: nat, captures: Seq<Capture>)
    ensures
        parameters_text(metal_extents(inputs, total, captures)) == capture_extents_msl(
            inputs,
            total,
            captures,
        ),
    decreases captures.len(),
{
    if captures.len() > 0 {
        let before = captures.drop_last();
        lemma_extents_text(inputs, total, before);
        assert(metal_extents(inputs, total, captures).drop_last() =~= metal_extents(
            inputs,
            total,
            before,
        ));
        let i = (captures.len() - 1) as nat;
        reveal_strlit("_extent");
        reveal_strlit(" [[buffer(");
        reveal_strlit("_extent [[buffer(");
        assert("_extent [[buffer("@ =~= "_extent"@ + " [[buffer("@);
        assert(parameter_text(metal_extents(inputs, total, captures).last()) =~= capture_extent_msl(
            inputs,
            total,
            i,
            captures.last(),
        ));
    }
}

proof fn lemma_scalars_text(inputs: nat, captures: nat, scalars: Seq<ScalarParamView>)
    ensures
        parameters_text(metal_scalars(inputs, captures, scalars)) == scalars_msl(
            inputs,
            captures,
            scalars,
        ),
    decreases scalars.len(),
{
    if scalars.len() > 0 {
        let before = scalars.drop_last();
        lemma_scalars_text(inputs, captures, before);
        assert(metal_scalars(inputs, captures, scalars).drop_last() =~= metal_scalars(
            inputs,
            captures,
            before,
        ));
        let i = (scalars.len() - 1) as nat;
        assert(parameter_text(metal_scalars(inputs, captures, scalars).last()) =~= scalar_msl(
            inputs,
            captures,
            i,
            scalars.last(),
        ));
    }
}

proof fn lemma_domain_text(inputs: nat, captures: nat, scalars: nat)
    ensures
        parameters_text(metal_domain(inputs, captures, scalars))
            + "    uint __pm_linear [[thread_position_in_grid]])\n{\n"@ == domain_msl(
            inputs,
            captures,
            scalars,
        ),
{
    let parameters = metal_domain(inputs, captures, scalars);
    let number = parameters[0];
    let lengths = parameters[1];
    assert(parameters =~= seq![number] + seq![lengths]);
    lemma_joined_parameters(seq![number], seq![lengths]);
    lemma_one_parameter(number);
    lemma_one_parameter(lengths);
    reveal_strlit("    constant uint& ");
    reveal_strlit("__pm_count");
    reveal_strlit(" [[buffer(");
    reveal_strlit("    constant uint& __pm_count [[buffer(");
    reveal_strlit("    constant uint* ");
    reveal_strlit("__pm_extent");
    reveal_strlit("    constant uint* __pm_extent [[buffer(");
    assert("    constant uint& __pm_count [[buffer("@ =~= "    constant uint& "@ + "__pm_count"@
        + " [[buffer("@);
    assert("    constant uint* __pm_extent [[buffer("@ =~= "    constant uint* "@ + "__pm_extent"@
        + " [[buffer("@);
    let position = "    uint __pm_linear [[thread_position_in_grid]])\n{\n"@;
    assert(parameter_text(number) + parameter_text(lengths) + position =~= domain_msl(
        inputs,
        captures,
        scalars,
    ));
}

proof fn lemma_output_text(kernel: ElementKernelView)
    ensures
        head_text(metal_kernel(kernel)) + parameter_text(metal_output(kernel.output))
            == "#include <metal_stdlib>\n\nusing namespace metal;\n\nkernel void "@ + kernel.name
            + "(\n    device "@ + kernel.output.msl_text() + "* __pm_out [[buffer(0)]],\n"@,
{
    reveal_strlit("(\n");
    reveal_strlit("    device ");
    reveal_strlit("(\n    device ");
    reveal_strlit("* ");
    reveal_strlit("__pm_out");
    reveal_strlit(" [[buffer(");
    reveal_strlit("0");
    reveal_strlit(")]],\n");
    reveal_strlit("* __pm_out [[buffer(0)]],\n");
    assert("(\n    device "@ =~= "(\n"@ + "    device "@);
    assert("* __pm_out [[buffer(0)]],\n"@ =~= "* "@ + "__pm_out"@ + " [[buffer("@ + "0"@
        + ")]],\n"@);
    let opened = "#include <metal_stdlib>\n\nusing namespace metal;\n\nkernel void "@;
    let ty = kernel.output.msl_text();
    let close = "* "@ + "__pm_out"@ + " [[buffer("@ + "0"@ + ")]],\n"@;
    assert("    device "@ + ty + "* "@ + "__pm_out"@ + " [[buffer("@ + "0"@ + ")]],\n"@
        =~= "    device "@ + ty + close);
    assert((opened + kernel.name + "(\n"@) + ("    device "@ + ty + close) =~= opened + kernel.name
        + ("(\n"@ + "    device "@) + ty + close);
}

proof fn lemma_parameters_text(kernel: ElementKernelView)
    ensures
        ({
            let inputs = kernel.inputs.len();
            let captures = captures_of(kernel.body);
            parameters_text(metal_parameters(kernel)) == parameter_text(
                metal_output(kernel.output),
            ) + inputs_msl(kernel.inputs) + captures_msl(inputs, captures) + capture_extents_msl(
                inputs,
                captures.len(),
                captures,
            ) + scalars_msl(inputs, captures.len(), kernel.scalars) + parameters_text(
                metal_domain(inputs, captures.len(), kernel.scalars.len()),
            )
        }),
{
    let inputs = kernel.inputs.len();
    let captures = captures_of(kernel.body);
    let first = seq![metal_output(kernel.output)];
    let second = metal_inputs(kernel.inputs);
    let third = metal_captures(inputs, captures);
    let fourth = metal_extents(inputs, captures.len(), captures);
    let fifth = metal_scalars(inputs, captures.len(), kernel.scalars);
    let last = metal_domain(inputs, captures.len(), kernel.scalars.len());
    lemma_one_parameter(metal_output(kernel.output));
    lemma_inputs_text(kernel.inputs);
    lemma_captures_text(inputs, captures);
    lemma_extents_text(inputs, captures.len(), captures);
    lemma_scalars_text(inputs, captures.len(), kernel.scalars);
    lemma_joined_parameters(first, second);
    lemma_joined_parameters(first + second, third);
    lemma_joined_parameters(first + second + third, fourth);
    lemma_joined_parameters(first + second + third + fourth, fifth);
    lemma_joined_parameters(first + second + third + fourth + fifth, last);
}

proof fn lemma_reconstruction_text(logical_rank: Option<usize>)
    ensures
        statements_text(metal_reconstruction(logical_rank), "        "@) == reconstruction_msl(
            logical_rank,
        ),
{
    match logical_rank {
        Some(rank) => lemma_point_text(rank as nat, rank as nat),
        None => {},
    }
}

proof fn lemma_guard_text(kernel: ElementKernelView)
    ensures
        guard_text(metal_kernel(kernel))
            == "    uint __pm_linear [[thread_position_in_grid]])\n{\n"@
            + "    if (__pm_linear < __pm_count) {\n"@,
{
    reveal_strlit("    uint ");
    reveal_strlit("__pm_linear");
    reveal_strlit(" [[thread_position_in_grid]])\n{\n    if (");
    reveal_strlit(" < ");
    reveal_strlit("__pm_count");
    reveal_strlit(") {\n");
    reveal_strlit("    uint __pm_linear [[thread_position_in_grid]])\n{\n");
    reveal_strlit("    if (__pm_linear < __pm_count) {\n");
    assert(guard_text(metal_kernel(kernel))
        =~= "    uint __pm_linear [[thread_position_in_grid]])\n{\n"@
        + "    if (__pm_linear < __pm_count) {\n"@);
}

/// The first texts of a kernel in two groupings.
proof fn lemma_declarations_regrouped(
    opened: Seq<char>,
    output: Seq<char>,
    first: Seq<char>,
    second: Seq<char>,
    third: Seq<char>,
    fourth: Seq<char>,
    domain: Seq<char>,
    position: Seq<char>,
    guard: Seq<char>,
)
    ensures
        opened + (output + first + second + third + fourth + domain) + (position + guard) == (opened
            + output) + first + second + third + fourth + (domain + position) + guard,
{
    let middle = first + second + third + fourth;
    assert(output + first + second + third + fourth =~= output + middle);
    assert((opened + output) + first + second + third + fourth =~= (opened + output) + middle);
    assert(opened + (output + middle + domain) =~= (opened + output) + middle + domain);
    let until = (opened + output) + middle;
    assert(until + domain + (position + guard) =~= until + (domain + position) + guard);
}

/// The last texts of a kernel in two groupings.
proof fn lemma_body_regrouped(
    until: Seq<char>,
    lines: Seq<char>,
    body: Seq<char>,
    assigned: Seq<char>,
    result: Seq<char>,
    end: Seq<char>,
)
    ensures
        until + (lines + body) + (assigned + result + end) == until + lines + body + assigned
            + result + end,
{
    assert(until + (lines + body) =~= until + lines + body);
    let all = until + lines + body;
    assert(all + (assigned + result + end) =~= all + assigned + result + end);
}

proof fn lemma_kernel_text(kernel: ElementKernelView, tensors: Seq<CapturedTensor>)
    requires
        closed_kernel(kernel, tensors),
    ensures
        kernel_source(metal_kernel(kernel)) == kernel.msl(),
{
    let tree = metal_kernel(kernel);
    let inputs = kernel.inputs.len();
    let captures = captures_of(kernel.body);
    let declared = kernel_declared(kernel, tensors);
    let indent = "        "@;
    lemma_parameters_text(kernel);
    lemma_output_text(kernel);
    lemma_domain_text(inputs, captures.len(), kernel.scalars.len());
    lemma_reconstruction_text(kernel.logical_rank);
    lemma_statements_text(kernel.body.statements, declared, indent);
    lemma_expr_text(kernel.body.result, declared_after_all(kernel.body.statements, declared));
    lemma_joined_text(
        metal_reconstruction(kernel.logical_rank),
        metal_statements(kernel.body.statements),
        indent,
    );
    lemma_guard_text(kernel);
    lemma_written_text(kernel);
    let output = parameter_text(metal_output(kernel.output));
    let position = "    uint __pm_linear [[thread_position_in_grid]])\n{\n"@;
    let guard = "    if (__pm_linear < __pm_count) {\n"@;
    let domain = parameters_text(metal_domain(inputs, captures.len(), kernel.scalars.len()));
    lemma_declarations_regrouped(
        head_text(tree),
        output,
        inputs_msl(kernel.inputs),
        captures_msl(inputs, captures),
        capture_extents_msl(inputs, captures.len(), captures),
        scalars_msl(inputs, captures.len(), kernel.scalars),
        domain,
        position,
        guard,
    );
    let until = head_text(tree) + parameters_text(tree.parameters) + guard_text(tree);
    lemma_body_regrouped(
        until,
        reconstruction_msl(kernel.logical_rank),
        statements_msl(kernel.body.statements, indent),
        "        __pm_out[__pm_linear] = "@,
        kernel.body.result.msl(),
        ";\n    }\n}\n"@,
    );
}

proof fn lemma_written_text(kernel: ElementKernelView)
    requires
        text_of(metal(kernel.body.result)) == kernel.body.result.msl(),
    ensures
        written_text(metal_kernel(kernel)) == "        __pm_out[__pm_linear] = "@
            + kernel.body.result.msl() + ";\n    }\n}\n"@,
{
    reveal_strlit("        ");
    reveal_strlit("__pm_out");
    reveal_strlit("[");
    reveal_strlit("__pm_linear");
    reveal_strlit("] = ");
    reveal_strlit("        __pm_out[__pm_linear] = ");
    assert("        __pm_out[__pm_linear] = "@ =~= "        "@ + "__pm_out"@ + "["@
        + "__pm_linear"@ + "] = "@);
}

/// The name of a parameter.
pub open spec fn parameter_title(parameter: MetalParameter) -> Seq<char> {
    match parameter {
        MetalParameter::Output { name, .. } => name,
        MetalParameter::Elements { name, .. } => name,
        MetalParameter::Lengths { name, .. } => name,
        MetalParameter::Scalar { name, .. } => name,
        MetalParameter::Number { name, .. } => name,
    }
}

/// Whether two parameters are of one kind.
pub open spec fn same_kind(left: MetalParameter, right: MetalParameter) -> bool {
    match (left, right) {
        (MetalParameter::Output { .. }, MetalParameter::Output { .. }) => true,
        (MetalParameter::Elements { .. }, MetalParameter::Elements { .. }) => true,
        (MetalParameter::Lengths { .. }, MetalParameter::Lengths { .. }) => true,
        (MetalParameter::Scalar { .. }, MetalParameter::Scalar { .. }) => true,
        (MetalParameter::Number { .. }, MetalParameter::Number { .. }) => true,
        _ => false,
    }
}

/// Whether something of the parameter's kind and type is bound at a slot, which the parameter
/// names.
pub open spec fn fits<V>(parameter: MetalParameter, slots: Seq<Content<V>>, slot: int) -> bool {
    &&& 0 <= slot < slots.len()
    &&& numeral(parameter_slot(parameter)) == Some(slot as nat)
    &&& match (parameter, slots[slot]) {
        (MetalParameter::Output { ty, .. }, Content::Output { ty: bound }) => ty == bound,
        (MetalParameter::Elements { ty, .. }, Content::Elements { ty: bound, .. }) => ty == bound,
        (MetalParameter::Lengths { .. }, Content::Lengths(_)) => true,
        (MetalParameter::Scalar { ty, .. }, Content::Scalar { ty: bound, .. }) => ty == bound,
        (MetalParameter::Number { .. }, Content::Number(_)) => true,
        _ => false,
    }
}

/// Whether a memory holds what is bound at a slot under the name of a parameter.
pub open spec fn remembers<V>(
    memory: Memory<V>,
    parameter: MetalParameter,
    content: Content<V>,
    slot: int,
) -> bool {
    match (parameter, content) {
        (MetalParameter::Output { name, .. }, Content::Output { .. }) => {
            memory.outputs.dom().contains(name) && memory.outputs[name] == slot
        },
        (MetalParameter::Elements { name, .. }, Content::Elements { values, .. }) => {
            memory.elements.dom().contains(name) && memory.elements[name] == values
        },
        (MetalParameter::Lengths { name, .. }, Content::Lengths(lengths)) => {
            memory.lengths.dom().contains(name) && memory.lengths[name] == lengths
        },
        (MetalParameter::Scalar { name, .. }, Content::Scalar { value, .. }) => {
            memory.scalars.dom().contains(name) && memory.scalars[name] == value
        },
        (MetalParameter::Number { name, .. }, Content::Number(number)) => {
            memory.numbers.dom().contains(name) && memory.numbers[name] == number
        },
        _ => false,
    }
}

/// Whether two parameters share neither kind nor name, or are scalars of one value.
pub open spec fn apart<V>(
    left: MetalParameter,
    right: MetalParameter,
    first: Content<V>,
    second: Content<V>,
) -> bool {
    same_kind(left, right) && parameter_title(left) == parameter_title(right) ==> match (
        first,
        second,
    ) {
        (Content::Scalar { value: first, .. }, Content::Scalar { value: second, .. }) => first
            == second,
        _ => false,
    }
}

proof fn lemma_parameters_are_remembered<V>(
    parameters: Seq<MetalParameter>,
    slots: Seq<Content<V>>,
)
    requires
        parameters.len() <= slots.len(),
        forall|i: int| 0 <= i < parameters.len() ==> #[trigger] fits(parameters[i], slots, i),
        forall|i: int, j: int|
            0 <= i < j < parameters.len() ==> #[trigger] apart(
                parameters[i],
                parameters[j],
                slots[i],
                slots[j],
            ),
    ensures
        with_parameters(parameters, slots) is Some,
        with_parameters(parameters, slots)->0.variables == Map::<Seq<char>, V>::empty(),
        forall|i: int|
            0 <= i < parameters.len() ==> #[trigger] remembers(
                with_parameters(parameters, slots)->0,
                parameters[i],
                slots[i],
                i,
            ),
    decreases parameters.len(),
{
    if parameters.len() > 0 {
        let before = parameters.drop_last();
        let last = parameters.len() - 1;
        assert forall|i: int| 0 <= i < before.len() implies #[trigger] fits(
            before[i],
            slots,
            i,
        ) by {
            assert(fits(parameters[i], slots, i));
        }
        assert forall|i: int, j: int| 0 <= i < j < before.len() implies #[trigger] apart(
            before[i],
            before[j],
            slots[i],
            slots[j],
        ) by {
            assert(apart(parameters[i], parameters[j], slots[i], slots[j]));
        }
        lemma_parameters_are_remembered(before, slots);
        let memory = with_parameters(before, slots)->0;
        assert(fits(parameters[last], slots, last));
        assert(with_parameter(parameters[last], slots, memory) is Some);
        let after = with_parameter(parameters[last], slots, memory)->0;
        assert(with_parameters(parameters, slots) == Some(after));
        assert forall|i: int| 0 <= i < parameters.len() implies #[trigger] remembers(
            after,
            parameters[i],
            slots[i],
            i,
        ) by {
            if i < last {
                assert(remembers(memory, before[i], slots[i], i));
                assert(apart(parameters[i], parameters[last], slots[i], slots[last]));
            }
        }
    }
}

/// Whether the slots of a kernel hold what the thread at a linear position reads, and the number
/// of elements.
pub open spec fn bound_for<V>(
    kernel: ElementKernelView,
    tensors: Seq<CapturedTensor>,
    slots: Seq<Content<V>>,
    thread: Thread<V>,
    axes: Seq<usize>,
    linear: nat,
    count: nat,
) -> bool {
    let inputs = kernel.inputs.len();
    let captures = captures_of(kernel.body);
    let scalars = kernel.scalars.len();
    &&& slots.len() == extent_slot(inputs, captures.len(), scalars) + 1
    &&& slots[0] == Content::<V>::Output { ty: kernel.output.msl_text() }
    &&& thread.inputs.len() == inputs
    &&& forall|i: int|
        0 <= i < inputs ==> (#[trigger] slots[input_slot(i as nat) as int]
            matches Content::Elements { ty, values } && ty == kernel.inputs[i].msl_text()
            && values[linear as int] == thread.inputs[i])
    &&& forall|i: int|
        0 <= i < captures.len() ==> #[trigger] slots[capture_slot(inputs, i as nat) as int]
            == (Content::Elements {
            ty: captures[i].element.msl_text(),
            values: thread.captures[captures[i].tensor as int].values,
        })
    &&& forall|i: int|
        0 <= i < captures.len() ==> #[trigger] slots[capture_extent_slot(
            inputs,
            captures.len(),
            i as nat,
        ) as int] == Content::<V>::Lengths(
            lengths_of(thread.captures[captures[i].tensor as int].axes),
        )
    &&& forall|i: int|
        0 <= i < captures.len() ==> (tensors[(
        #[trigger] captures[i]).tensor as int].rank matches Some(rank)
            ==> thread.captures[captures[i].tensor as int].axes.len() == rank)
    &&& forall|i: int|
        0 <= i < scalars ==> #[trigger] slots[scalar_slot(inputs, captures.len(), i as nat) as int]
            == (Content::Scalar {
            ty: kernel.scalars[i].ty.msl_text(),
            value: thread.scalars[kernel.scalars[i].name],
        })
    &&& slots[count_slot(inputs, captures.len(), scalars) as int] == Content::<V>::Number(count)
    &&& slots[extent_slot(inputs, captures.len(), scalars) as int] == Content::<V>::Lengths(
        lengths_of(axes),
    )
    &&& thread.extent == lengths_of(axes)
    &&& kernel.logical_rank matches Some(rank) ==> {
        &&& rank == axes.len()
        &&& positive(axes)
        &&& thread.point.len() == rank
        &&& forall|axis: int|
            0 <= axis < rank ==> #[trigger] thread.point[axis] == coordinates(axes, linear)[axis]
    }
}

/// The parameter that names a slot.
pub open spec fn parameter_at(kernel: ElementKernelView, slot: int) -> MetalParameter {
    let inputs = kernel.inputs.len() as int;
    let captures = captures_of(kernel.body);
    let count = captures.len() as int;
    let scalars = kernel.scalars.len() as int;
    if slot == 0 {
        metal_output(kernel.output)
    } else if slot < 1 + inputs {
        metal_inputs(kernel.inputs)[slot - 1]
    } else if slot < 1 + inputs + count {
        metal_captures(inputs as nat, captures)[slot - 1 - inputs]
    } else if slot < 1 + inputs + count + count {
        metal_extents(inputs as nat, captures.len(), captures)[slot - 1 - inputs - count]
    } else if slot < 1 + inputs + count + count + scalars {
        metal_scalars(inputs as nat, captures.len(), kernel.scalars)[slot - 1 - inputs - count
            - count]
    } else {
        metal_domain(inputs as nat, captures.len(), kernel.scalars.len())[slot - 1 - inputs - count
            - count - scalars]
    }
}

proof fn lemma_parameter_at(kernel: ElementKernelView, slot: int)
    requires
        0 <= slot < extent_slot(
            kernel.inputs.len(),
            captures_of(kernel.body).len(),
            kernel.scalars.len(),
        ) + 1,
    ensures
        metal_parameters(kernel).len() == extent_slot(
            kernel.inputs.len(),
            captures_of(kernel.body).len(),
            kernel.scalars.len(),
        ) + 1,
        metal_parameters(kernel)[slot] == parameter_at(kernel, slot),
        numeral(parameter_slot(parameter_at(kernel, slot))) == Some(slot as nat),
{
    law_decimal_is_read_back(slot as nat);
    if slot == 0 {
        reveal_strlit("0");
        assert("0"@.drop_last() =~= Seq::empty());
        assert(digits_value("0"@) == 0) by {
            reveal_with_fuel(digits_value, 2);
        }
    }
}

proof fn lemma_array_names(left: nat, right: nat)
    ensures
        "__pm_in"@ + decimal(left) != "__pm_cap"@ + decimal(right),
        "__pm_cap"@ + decimal(left) + "_extent"@ != "__pm_extent"@,
        left != right ==> "__pm_in"@ + decimal(left) != "__pm_in"@ + decimal(right),
        left != right ==> "__pm_cap"@ + decimal(left) != "__pm_cap"@ + decimal(right),
        left != right ==> "__pm_cap"@ + decimal(left) + "_extent"@ != "__pm_cap"@ + decimal(right)
            + "_extent"@,
        "__pm_count"@ != "__pm_linear"@,
{
    reveal_strlit("__pm_in");
    reveal_strlit("__pm_cap");
    reveal_strlit("__pm_extent");
    reveal_strlit("_extent");
    reveal_strlit("__pm_count");
    reveal_strlit("__pm_linear");
    assert(("__pm_in"@ + decimal(left))[5] == 'i');
    assert(("__pm_cap"@ + decimal(right))[5] == 'c');
    assert(("__pm_cap"@ + decimal(left) + "_extent"@)[5] == 'c');
    assert("__pm_extent"@[5] == 'e');
    assert("__pm_count"@[5] == 'c');
    assert("__pm_linear"@[5] == 'l');
    let input = "__pm_in"@;
    let captured = "__pm_cap"@;
    let extent = "_extent"@;
    if input + decimal(left) == input + decimal(right) {
        assert((input + decimal(left)).skip(input.len() as int) =~= decimal(left));
        assert((input + decimal(right)).skip(input.len() as int) =~= decimal(right));
        law_decimal_is_injective(left, right);
    }
    if captured + decimal(left) == captured + decimal(right) {
        assert((captured + decimal(left)).skip(captured.len() as int) =~= decimal(left));
        assert((captured + decimal(right)).skip(captured.len() as int) =~= decimal(right));
        law_decimal_is_injective(left, right);
    }
    let first = captured + decimal(left) + extent;
    let second = captured + decimal(right) + extent;
    if first == second {
        assert(first.subrange(captured.len() as int, first.len() - extent.len()) =~= decimal(
            left,
        ));
        assert(second.subrange(captured.len() as int, second.len() - extent.len()) =~= decimal(
            right,
        ));
        law_decimal_is_injective(left, right);
    }
}

proof fn lemma_parameter_fits<V>(
    kernel: ElementKernelView,
    tensors: Seq<CapturedTensor>,
    slots: Seq<Content<V>>,
    thread: Thread<V>,
    axes: Seq<usize>,
    linear: nat,
    count: nat,
    slot: int,
)
    requires
        bound_for(kernel, tensors, slots, thread, axes, linear, count),
        0 <= slot < slots.len(),
    ensures
        fits(parameter_at(kernel, slot), slots, slot),
{
    lemma_parameter_at(kernel, slot);
    let inputs = kernel.inputs.len() as int;
    let captures = captures_of(kernel.body).len() as int;
    let scalars = kernel.scalars.len() as int;
    if slot == 0 {
    } else if slot < 1 + inputs {
        assert(slot == input_slot((slot - 1) as nat));
    } else if slot < 1 + inputs + captures {
        assert(slot == capture_slot(inputs as nat, (slot - 1 - inputs) as nat));
    } else if slot < 1 + inputs + captures + captures {
        assert(slot == capture_extent_slot(
            inputs as nat,
            captures as nat,
            (slot - 1 - inputs - captures) as nat,
        ));
    } else if slot < 1 + inputs + captures + captures + scalars {
        assert(slot == scalar_slot(
            inputs as nat,
            captures as nat,
            (slot - 1 - inputs - captures - captures) as nat,
        ));
    }
}

proof fn lemma_parameters_apart<V>(
    kernel: ElementKernelView,
    tensors: Seq<CapturedTensor>,
    slots: Seq<Content<V>>,
    thread: Thread<V>,
    axes: Seq<usize>,
    linear: nat,
    count: nat,
    left: int,
    right: int,
)
    requires
        bound_for(kernel, tensors, slots, thread, axes, linear, count),
        known_captures(captures_of(kernel.body), kernel_declared(kernel, tensors)),
        0 <= left < right < slots.len(),
    ensures
        apart(
            parameter_at(kernel, left),
            parameter_at(kernel, right),
            slots[left],
            slots[right],
        ),
{
    let inputs = kernel.inputs.len() as int;
    let found = captures_of(kernel.body);
    let captures = found.len() as int;
    let scalars = kernel.scalars.len() as int;
    let declared = kernel_declared(kernel, tensors);
    lemma_parameter_fits(kernel, tensors, slots, thread, axes, linear, count, left);
    lemma_parameter_fits(kernel, tensors, slots, thread, axes, linear, count, right);
    if left == 0 {
    } else if left < 1 + inputs {
        if right < 1 + inputs {
            lemma_array_names((left - 1) as nat, (right - 1) as nat);
        } else if right < 1 + inputs + captures {
            lemma_array_names((left - 1) as nat, found[right - 1 - inputs].tensor as nat);
        }
    } else if left < 1 + inputs + captures {
        if right < 1 + inputs + captures {
            let first = found[left - 1 - inputs];
            let second = found[right - 1 - inputs];
            lemma_array_names(first.tensor as nat, second.tensor as nat);
            assert(known_capture(first, declared) && known_capture(second, declared));
            law_captures_are_complete(kernel.body, first);
        }
    } else if left < 1 + inputs + captures + captures {
        if right < 1 + inputs + captures + captures {
            let first = found[left - 1 - inputs - captures];
            let second = found[right - 1 - inputs - captures];
            lemma_array_names(first.tensor as nat, second.tensor as nat);
            assert(known_capture(first, declared) && known_capture(second, declared));
            law_captures_are_complete(kernel.body, first);
        } else {
            lemma_array_names(found[left - 1 - inputs - captures].tensor as nat, 0);
        }
    } else if left < 1 + inputs + captures + captures + scalars {
        let i = left - 1 - inputs - captures - captures;
        let j = right - 1 - inputs - captures - captures;
        assert(left == scalar_slot(inputs as nat, captures as nat, i as nat));
        if j < scalars {
            assert(right == scalar_slot(inputs as nat, captures as nat, j as nat));
        }
    }
}

proof fn lemma_started<V>(
    kernel: ElementKernelView,
    tensors: Seq<CapturedTensor>,
    slots: Seq<Content<V>>,
    thread: Thread<V>,
    axes: Seq<usize>,
    linear: nat,
    count: nat,
)
    requires
        bound_for(kernel, tensors, slots, thread, axes, linear, count),
        known_captures(captures_of(kernel.body), kernel_declared(kernel, tensors)),
    ensures
        ({
            let parameters = metal_parameters(kernel);
            let memory = with_parameters(parameters, slots);
            &&& memory is Some
            &&& memory->0.variables == Map::<Seq<char>, V>::empty()
            &&& forall|i: int|
                0 <= i < slots.len() ==> #[trigger] remembers(
                    memory->0,
                    parameter_at(kernel, i),
                    slots[i],
                    i,
                )
        }),
{
    let parameters = metal_parameters(kernel);
    lemma_parameter_at(kernel, 0);
    assert forall|i: int| 0 <= i < parameters.len() implies #[trigger] fits(
        parameters[i],
        slots,
        i,
    ) by {
        lemma_parameter_at(kernel, i);
        lemma_parameter_fits(kernel, tensors, slots, thread, axes, linear, count, i);
    }
    assert forall|i: int, j: int| 0 <= i < j < parameters.len() implies #[trigger] apart(
        parameters[i],
        parameters[j],
        slots[i],
        slots[j],
    ) by {
        lemma_parameter_at(kernel, i);
        lemma_parameter_at(kernel, j);
        lemma_parameters_apart(kernel, tensors, slots, thread, axes, linear, count, i, j);
    }
    lemma_parameters_are_remembered(parameters, slots);
    assert forall|i: int| 0 <= i < slots.len() implies #[trigger] remembers(
        with_parameters(parameters, slots)->0,
        parameter_at(kernel, i),
        slots[i],
        i,
    ) by {
        lemma_parameter_at(kernel, i);
        assert(remembers(with_parameters(parameters, slots)->0, parameters[i], slots[i], i));
    }
}

proof fn lemma_holds_at_start<V>(
    kernel: ElementKernelView,
    tensors: Seq<CapturedTensor>,
    slots: Seq<Content<V>>,
    thread: Thread<V>,
    axes: Seq<usize>,
    linear: nat,
    count: nat,
    memory: Memory<V>,
    numbers: Map<Seq<char>, nat>,
)
    requires
        bound_for(kernel, tensors, slots, thread, axes, linear, count),
        forall|i: int|
            0 <= i < slots.len() ==> #[trigger] remembers(
                memory,
                parameter_at(kernel, i),
                slots[i],
                i,
            ),
        numbers.dom().contains("__pm_linear"@),
        numbers["__pm_linear"@] == linear,
        kernel.logical_rank matches Some(rank) ==> forall|axis: nat|
            axis < rank ==> {
                let name = "__pm_point"@ + #[trigger] decimal(axis);
                &&& numbers.dom().contains(name)
                &&& numbers[name] == thread.point[axis as int]
            },
    ensures
        holds(
            Memory { numbers, ..memory },
            thread,
            linear,
            captures_of(kernel.body).to_set(),
            kernel_declared(kernel, tensors),
        ),
{
    let inputs = kernel.inputs.len();
    let found = captures_of(kernel.body);
    let captures = found.len();
    let scalars = kernel.scalars.len();
    let declared = kernel_declared(kernel, tensors);
    assert forall|i: nat| i < declared.inputs implies {
        let name = "__pm_in"@ + #[trigger] decimal(i);
        &&& memory.elements.dom().contains(name)
        &&& memory.elements[name][linear as int] == thread.inputs[i as int]
    } by {
        let slot = input_slot(i) as int;
        assert(remembers(memory, parameter_at(kernel, slot), slots[slot], slot));
    }
    let last = extent_slot(inputs, captures, scalars) as int;
    assert(remembers(memory, parameter_at(kernel, last), slots[last], last));
    assert forall|name: Seq<char>| #[trigger]
        declared.scalars.contains(name) implies memory.scalars.dom().contains(name)
        && memory.scalars[name] == thread.scalars[name] by {
        let i = choose|i: int| 0 <= i < scalars && (#[trigger] kernel.scalars[i]).name == name;
        let slot = scalar_slot(inputs, captures, i as nat) as int;
        assert(remembers(memory, parameter_at(kernel, slot), slots[slot], slot));
    }
    assert forall|capture: Capture| #[trigger] found.to_set().contains(capture) implies {
        let name = "__pm_cap"@ + decimal(capture.tensor as nat);
        let tensor = thread.captures[capture.tensor as int];
        &&& memory.elements.dom().contains(name)
        &&& memory.elements[name] == tensor.values
        &&& memory.lengths.dom().contains(name + "_extent"@)
        &&& memory.lengths[name + "_extent"@] == tensor.axes.map_values(
            |length: usize| length as nat,
        )
        &&& declared.tensors[capture.tensor as int].rank matches Some(rank)
            ==> tensor.axes.len() == rank
    } by {
        let i = choose|i: int| 0 <= i < captures && found[i] == capture;
        let slot = capture_slot(inputs, i as nat) as int;
        assert(remembers(memory, parameter_at(kernel, slot), slots[slot], slot));
        let extent = capture_extent_slot(inputs, captures, i as nat) as int;
        assert(remembers(memory, parameter_at(kernel, extent), slots[extent], extent));
        assert(found[i].tensor == capture.tensor);
        assert(lengths_of(thread.captures[capture.tensor as int].axes)
            =~= thread.captures[capture.tensor as int].axes.map_values(
            |length: usize| length as nat,
        ));
    }
}

proof fn lemma_kernel_runs<V>(
    kernel: ElementKernelView,
    tensors: Seq<CapturedTensor>,
    slots: Seq<Content<V>>,
    thread: Thread<V>,
    axes: Seq<usize>,
    linear: nat,
    count: nat,
    device: Device<V>,
)
    requires
        closed_kernel(kernel, tensors),
        known_captures(captures_of(kernel.body), kernel_declared(kernel, tensors)),
        bound_for(kernel, tensors, slots, thread, axes, linear, count),
    ensures
        effect(metal_kernel(kernel), slots, linear, device) == Some(
            if linear < count {
                Effect::Write {
                    slot: 0,
                    index: linear,
                    value: output_value(kernel.body, thread, device),
                }
            } else {
                Effect::Nothing
            },
        ),
{
    let inputs = kernel.inputs.len();
    let found = captures_of(kernel.body);
    let captures = found.to_set();
    let scalars = kernel.scalars.len();
    let declared = kernel_declared(kernel, tensors);
    let tree = metal_kernel(kernel);
    let statements = kernel.body.statements;
    lemma_started(kernel, tensors, slots, thread, axes, linear, count);
    let memory = with_parameters(tree.parameters, slots)->0;
    let numbers = memory.numbers.insert("__pm_linear"@, linear);
    let started = Memory { numbers, ..memory };
    let counted = count_slot(inputs, found.len(), scalars) as int;
    let extent = extent_slot(inputs, found.len(), scalars) as int;
    assert(remembers(memory, parameter_at(kernel, counted), slots[counted], counted));
    assert(remembers(memory, parameter_at(kernel, extent), slots[extent], extent));
    assert(remembers(memory, parameter_at(kernel, 0), slots[0], 0));
    lemma_array_names(0, 0);
    if linear < count {
        let lines = metal_reconstruction(kernel.logical_rank);
        if kernel.logical_rank is Some {
            lemma_point_runs(axes, linear, axes.len(), started, device);
            lemma_coordinates_in_bounds(axes, linear);
            let found = ran_all(lines, started, device)->0.numbers;
            assert forall|axis: nat| axis < axes.len() implies {
                let name = "__pm_point"@ + #[trigger] decimal(axis);
                &&& found.dom().contains(name)
                &&& found[name] == thread.point[axis as int]
            } by {
                assert(thread.point[axis as int] == coordinates(axes, linear)[axis as int]);
            }
        }
        assert(ran_all(lines, started, device) is Some);
        let between = ran_all(lines, started, device)->0;
        assert(between == (Memory { numbers: between.numbers, ..memory }));
        lemma_holds_at_start(
            kernel,
            tensors,
            slots,
            thread,
            axes,
            linear,
            count,
            memory,
            between.numbers,
        );
        assert forall|capture: Capture| #[trigger] occurs_in_statements(
            capture,
            statements,
        ) implies captures.contains(capture) by {
            law_captures_are_complete(kernel.body, capture);
        }
        assert forall|capture: Capture| #[trigger] occurs(
            capture,
            kernel.body.result,
        ) implies captures.contains(capture) by {
            law_captures_are_complete(kernel.body, capture);
        }
        lemma_statements_run(statements, between, thread, linear, captures, declared, device);
        let variables = variables_after_all(statements, thread, Map::empty(), device);
        let after = Memory { variables, ..between };
        lemma_ran_joined(lines, metal_statements(statements), started, device);
        assert(ran_all(tree.statements, started, device) == Some(after));
        lemma_expr_value(
            kernel.body.result,
            after,
            thread,
            linear,
            captures,
            declared_after_all(statements, declared),
            device,
        );
    }
}

/// The source of a closed kernel is the text of a Metal kernel. Where its slots hold what the
/// thread at a linear position reads, that thread writes the value of the body at that position of
/// the buffer at the output's slot, and nothing else; a thread past the last element writes
/// nothing.
pub proof fn law_kernel_source_computes_the_body<V>(
    kernel: ElementKernelView,
    tensors: Seq<CapturedTensor>,
    slots: Seq<Content<V>>,
    thread: Thread<V>,
    axes: Seq<usize>,
    linear: nat,
    count: nat,
    device: Device<V>,
)
    requires
        closed_kernel(kernel, tensors),
        known_captures(captures_of(kernel.body), kernel_declared(kernel, tensors)),
        bound_for(kernel, tensors, slots, thread, axes, linear, count),
    ensures
        exists|tree: MetalKernel| #[trigger]
            kernel_source(tree) == kernel.msl() && tree.name == kernel.name && effect(
                tree,
                slots,
                linear,
                device,
            ) == Some(
                if linear < count {
                    Effect::Write {
                        slot: output_slot(),
                        index: linear,
                        value: output_value(kernel.body, thread, device),
                    }
                } else {
                    Effect::Nothing
                },
            ),
{
    lemma_kernel_text(kernel, tensors);
    lemma_kernel_runs(kernel, tensors, slots, thread, axes, linear, count, device);
}

} // verus!
