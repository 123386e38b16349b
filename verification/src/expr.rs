//! Expressions of the device language.
use vstd::prelude::*;
use vstd::string::*;

use crate::text::{decimal, push_decimal};
use crate::types::{BinaryOp, ScalarType, UnaryOp};

verus! {

/// A tensor that a kernel reads at coordinates of its own choice, by its index among the tensors
/// that it could read so.
#[derive(Debug, Clone, Copy, PartialEq, Eq, Structural)]
pub struct Capture {
    pub tensor: usize,
    pub element: ScalarType,
}

/// An expression evaluated independently for each logical element.
#[allow(inconsistent_fields)]
#[derive(Debug, PartialEq)]
pub enum Expr {
    Input(usize),
    PointAxis(usize),
    ExtentAxis(usize),
    /// The element of a captured tensor at coordinates.
    Captured { capture: Capture, coordinates: Vec<Expr> },
    /// The length of an axis of a captured tensor.
    CapturedAxis { capture: Capture, axis: usize },
    Scalar(String),
    Local(String),
    Literal(String),
    Call { function: String, arguments: Vec<Expr> },
    Unary { op: UnaryOp, value: Box<Expr> },
    Binary { op: BinaryOp, left: Box<Expr>, right: Box<Expr> },
    Cast { value: Box<Expr>, ty: ScalarType },
    Select { condition: Box<Expr>, when_true: Box<Expr>, when_false: Box<Expr> },
}

/// What an expression is, with its names as sequences of characters.
#[allow(inconsistent_fields)]
#[verifier::ext_equal]
pub ghost enum ExprView {
    Input(usize),
    PointAxis(usize),
    ExtentAxis(usize),
    Captured { capture: Capture, coordinates: Seq<ExprView> },
    CapturedAxis { capture: Capture, axis: usize },
    Scalar(Seq<char>),
    Local(Seq<char>),
    Literal(Seq<char>),
    Call { function: Seq<char>, arguments: Seq<ExprView> },
    Unary { op: UnaryOp, value: Box<ExprView> },
    Binary { op: BinaryOp, left: Box<ExprView>, right: Box<ExprView> },
    Cast { value: Box<ExprView>, ty: ScalarType },
    Select { condition: Box<ExprView>, when_true: Box<ExprView>, when_false: Box<ExprView> },
}

impl View for Expr {
    type V = ExprView;

    open spec fn view(&self) -> ExprView {
        expr_view(*self)
    }
}

/// The view of an expression.
pub open spec fn expr_view(expression: Expr) -> ExprView
    decreases expression,
{
    match expression {
        Expr::Input(index) => ExprView::Input(index),
        Expr::PointAxis(axis) => ExprView::PointAxis(axis),
        Expr::ExtentAxis(axis) => ExprView::ExtentAxis(axis),
        Expr::Captured { capture, coordinates } => ExprView::Captured {
            capture,
            coordinates: expr_views(coordinates@),
        },
        Expr::CapturedAxis { capture, axis } => ExprView::CapturedAxis { capture, axis },
        Expr::Scalar(name) => ExprView::Scalar(name@),
        Expr::Local(name) => ExprView::Local(name@),
        Expr::Literal(text) => ExprView::Literal(text@),
        Expr::Call { function, arguments } => ExprView::Call {
            function: function@,
            arguments: expr_views(arguments@),
        },
        Expr::Unary { op, value } => ExprView::Unary { op, value: Box::new(expr_view(*value)) },
        Expr::Binary { op, left, right } => ExprView::Binary {
            op,
            left: Box::new(expr_view(*left)),
            right: Box::new(expr_view(*right)),
        },
        Expr::Cast { value, ty } => ExprView::Cast { value: Box::new(expr_view(*value)), ty },
        Expr::Select { condition, when_true, when_false } => ExprView::Select {
            condition: Box::new(expr_view(*condition)),
            when_true: Box::new(expr_view(*when_true)),
            when_false: Box::new(expr_view(*when_false)),
        },
    }
}

/// The views of a sequence of expressions.
pub open spec fn expr_views(expressions: Seq<Expr>) -> Seq<ExprView>
    decreases expressions,
{
    if expressions.len() == 0 {
        Seq::empty()
    } else {
        expr_views(expressions.drop_last()).push(expr_view(expressions.last()))
    }
}

/// `expr_views` takes the view of each expression in its place.
pub broadcast proof fn lemma_expr_views(expressions: Seq<Expr>)
    ensures
        (#[trigger] expr_views(expressions)).len() == expressions.len(),
        forall|i: int|
            0 <= i < expressions.len() ==> #[trigger] expr_views(expressions)[i]
                == expressions[i]@,
    decreases expressions.len(),
{
    if expressions.len() > 0 {
        lemma_expr_views(expressions.drop_last());
    }
}

impl ExprView {
    /// The expression in the Metal Shading Language: every compound expression in parentheses.
    pub open spec fn msl(self) -> Seq<char>
        decreases self,
    {
        match self {
            ExprView::Input(index) => "__pm_in"@ + decimal(index as nat) + "[__pm_linear]"@,
            ExprView::PointAxis(axis) => "__pm_point"@ + decimal(axis as nat),
            ExprView::ExtentAxis(axis) => "__pm_extent["@ + decimal(axis as nat) + "]"@,
            ExprView::Captured { capture, coordinates } => captured_msl(capture) + "["@
                + position_msl(capture, coordinates) + "]"@,
            ExprView::CapturedAxis { capture, axis } => captured_axis_msl(capture, axis as nat),
            ExprView::Scalar(text) => text,
            ExprView::Local(text) => text,
            ExprView::Literal(text) => text,
            ExprView::Call { function, arguments } => function + "("@ + arguments_msl(arguments)
                + ")"@,
            ExprView::Unary { op, value } => "("@ + op.msl_text() + value.msl() + ")"@,
            ExprView::Binary { op, left, right } => "("@ + left.msl() + " "@ + op.msl_text() + " "@
                + right.msl() + ")"@,
            ExprView::Cast { value, ty } => ty.msl_text() + "("@ + value.msl() + ")"@,
            ExprView::Select { condition, when_true, when_false } => "("@ + condition.msl()
                + " ? "@ + when_true.msl() + " : "@ + when_false.msl() + ")"@,
        }
    }
}

/// The name of the buffer of a captured tensor.
pub open spec fn captured_msl(capture: Capture) -> Seq<char> {
    "__pm_cap"@ + decimal(capture.tensor as nat)
}

/// The length of an axis of a captured tensor.
pub open spec fn captured_axis_msl(capture: Capture, axis: nat) -> Seq<char> {
    captured_msl(capture) + "_extent["@ + decimal(axis) + "]"@
}

/// The coordinates of an element, each but the last with what it opens: the coordinate, plus the
/// length of its axis times what follows.
pub open spec fn openings_msl(capture: Capture, coordinates: Seq<ExprView>) -> Seq<char>
    decreases coordinates,
{
    if coordinates.len() == 0 {
        Seq::empty()
    } else {
        openings_msl(capture, coordinates.drop_last()) + "("@ + coordinates.last().msl() + " + "@
            + captured_axis_msl(capture, (coordinates.len() - 1) as nat) + " * "@
    }
}

/// So many closing parentheses.
pub open spec fn closings_msl(count: nat) -> Seq<char>
    decreases count,
{
    if count == 0 {
        Seq::empty()
    } else {
        closings_msl((count - 1) as nat) + ")"@
    }
}

/// The linear position of an element of a captured tensor: `(x + width * (y + height * z))` for
/// the coordinates `x`, `y`, `z`. That it is the position of the point is
/// [`crate::extent::law_offset_is_nested`].
pub open spec fn position_msl(capture: Capture, coordinates: Seq<ExprView>) -> Seq<char>
    decreases coordinates,
{
    if coordinates.len() == 0 {
        "0"@
    } else {
        openings_msl(capture, coordinates.drop_last()) + coordinates.last().msl() + closings_msl(
            (coordinates.len() - 1) as nat,
        )
    }
}

/// The arguments of a call, separated by commas.
pub open spec fn arguments_msl(arguments: Seq<ExprView>) -> Seq<char>
    decreases arguments,
{
    if arguments.len() == 0 {
        Seq::empty()
    } else if arguments.len() == 1 {
        arguments[0].msl()
    } else {
        arguments_msl(arguments.drop_last()) + ", "@ + arguments.last().msl()
    }
}

impl Clone for Expr {
    fn clone(&self) -> (copy: Self)
        ensures
            copy@ == self@,
        decreases self,
    {
        match self {
            Expr::Input(index) => Expr::Input(*index),
            Expr::PointAxis(axis) => Expr::PointAxis(*axis),
            Expr::ExtentAxis(axis) => Expr::ExtentAxis(*axis),
            Expr::Captured { capture, coordinates } => {
                let mut copies: Vec<Expr> = Vec::new();
                let mut index: usize = 0;
                while index < coordinates.len()
                    invariant
                        index <= coordinates@.len(),
                        *self == (Expr::Captured { capture: *capture, coordinates: *coordinates }),
                        copies@.len() == index,
                        forall|i: int|
                            0 <= i < index ==> #[trigger] copies@[i]@ == coordinates@[i]@,
                    decreases coordinates@.len() - index,
                {
                    assert(decreases_to!(*self => self->coordinates));
                    copies.push(coordinates[index].clone());
                    index += 1;
                }
                proof {
                    lemma_expr_views(coordinates@);
                    lemma_expr_views(copies@);
                }
                let copy = Expr::Captured { capture: *capture, coordinates: copies };
                assert(copy@->coordinates =~= self@->coordinates);
                copy
            },
            Expr::CapturedAxis { capture, axis } => Expr::CapturedAxis {
                capture: *capture,
                axis: *axis,
            },
            Expr::Scalar(name) => Expr::Scalar(name.clone()),
            Expr::Local(name) => Expr::Local(name.clone()),
            Expr::Literal(text) => Expr::Literal(text.clone()),
            Expr::Call { function, arguments } => {
                let mut copies: Vec<Expr> = Vec::new();
                let mut index: usize = 0;
                while index < arguments.len()
                    invariant
                        index <= arguments@.len(),
                        *self == (Expr::Call { function: *function, arguments: *arguments }),
                        copies@.len() == index,
                        forall|i: int| 0 <= i < index ==> #[trigger] copies@[i]@ == arguments@[i]@,
                    decreases arguments@.len() - index,
                {
                    assert(decreases_to!(*self => self->arguments));
                    copies.push(arguments[index].clone());
                    index += 1;
                }
                proof {
                    lemma_expr_views(arguments@);
                    lemma_expr_views(copies@);
                }
                let copy = Expr::Call { function: function.clone(), arguments: copies };
                assert(copy@->arguments =~= self@->arguments);
                copy
            },
            Expr::Unary { op, value } => Expr::Unary {
                op: *op,
                value: Box::new((&**value).clone()),
            },
            Expr::Binary { op, left, right } => Expr::Binary {
                op: *op,
                left: Box::new((&**left).clone()),
                right: Box::new((&**right).clone()),
            },
            Expr::Cast { value, ty } => Expr::Cast {
                value: Box::new((&**value).clone()),
                ty: *ty,
            },
            Expr::Select { condition, when_true, when_false } => Expr::Select {
                condition: Box::new((&**condition).clone()),
                when_true: Box::new((&**when_true).clone()),
                when_false: Box::new((&**when_false).clone()),
            },
        }
    }
}

/// Appends the name of the buffer of a captured tensor.
pub fn write_captured(output: &mut String, capture: Capture)
    ensures
        final(output)@ == old(output)@ + captured_msl(capture),
{
    let ghost before = output@;
    output.append("__pm_cap");
    push_decimal(output, capture.tensor as u128);
    assert(output@ =~= before + captured_msl(capture));
}

/// Appends the length of an axis of a captured tensor.
pub fn write_captured_axis(output: &mut String, capture: Capture, axis: usize)
    ensures
        final(output)@ == old(output)@ + captured_axis_msl(capture, axis as nat),
{
    let ghost before = output@;
    write_captured(output, capture);
    output.append("_extent[");
    push_decimal(output, axis as u128);
    output.append("]");
    assert(output@ =~= before + captured_axis_msl(capture, axis as nat));
}

fn write_position(output: &mut String, capture: Capture, coordinates: &Vec<Expr>)
    ensures
        final(output)@ == old(output)@ + position_msl(capture, expr_views(coordinates@)),
    decreases coordinates,
{
    let ghost before = output@;
    let ghost views = expr_views(coordinates@);
    proof {
        lemma_expr_views(coordinates@);
    }
    if coordinates.len() == 0 {
        output.append("0");
        return;
    }
    let last: usize = coordinates.len() - 1;
    let mut index: usize = 0;
    while index < last
        invariant
            index <= last,
            last + 1 == coordinates@.len(),
            views.len() == coordinates@.len(),
            forall|i: int| 0 <= i < views.len() ==> #[trigger] views[i] == coordinates@[i]@,
            output@ == before + openings_msl(capture, views.take(index as int)),
        decreases last - index,
    {
        let ghost next = views.take(index + 1);
        assert(next.drop_last() =~= views.take(index as int));
        output.append("(");
        coordinates[index].write_msl(output);
        output.append(" + ");
        write_captured_axis(output, capture, index);
        output.append(" * ");
        index += 1;
        assert(output@ =~= before + openings_msl(capture, next));
    }
    assert(views.take(last as int) =~= views.drop_last());
    coordinates[last].write_msl(output);
    let ghost opened = output@;
    let mut closed: usize = 0;
    while closed < last
        invariant
            closed <= last,
            output@ == opened + closings_msl(closed as nat),
        decreases last - closed,
    {
        output.append(")");
        closed += 1;
        assert(output@ =~= opened + closings_msl(closed as nat));
    }
    assert(output@ =~= before + position_msl(capture, views));
}

impl Expr {
    /// Appends the expression in the Metal Shading Language.
    pub fn write_msl(&self, output: &mut String)
        ensures
            final(output)@ == old(output)@ + self@.msl(),
        decreases self,
    {
        let ghost before = output@;
        match self {
            Expr::Input(index) => {
                output.append("__pm_in");
                push_decimal(output, *index as u128);
                output.append("[__pm_linear]");
            },
            Expr::PointAxis(axis) => {
                output.append("__pm_point");
                push_decimal(output, *axis as u128);
            },
            Expr::ExtentAxis(axis) => {
                output.append("__pm_extent[");
                push_decimal(output, *axis as u128);
                output.append("]");
            },
            Expr::Captured { capture, coordinates } => {
                write_captured(output, *capture);
                output.append("[");
                assert(decreases_to!(*self => self->coordinates));
                write_position(output, *capture, coordinates);
                output.append("]");
            },
            Expr::CapturedAxis { capture, axis } => write_captured_axis(output, *capture, *axis),
            Expr::Scalar(text) => output.append(text.as_str()),
            Expr::Local(text) => output.append(text.as_str()),
            Expr::Literal(text) => output.append(text.as_str()),
            Expr::Call { function, arguments } => {
                output.append(function.as_str());
                output.append("(");
                let ghost opened = output@;
                let ghost views = self@->arguments;
                proof {
                    lemma_expr_views(arguments@);
                }
                let mut index: usize = 0;
                while index < arguments.len()
                    invariant
                        index <= arguments@.len(),
                        *self == (Expr::Call { function: *function, arguments: *arguments }),
                        views == self@->arguments,
                        views.len() == arguments@.len(),
                        forall|i: int|
                            0 <= i < views.len() ==> #[trigger] views[i] == arguments@[i]@,
                        output@ == opened + arguments_msl(views.take(index as int)),
                    decreases arguments@.len() - index,
                {
                    let ghost next = views.take(index + 1);
                    assert(next.drop_last() =~= views.take(index as int));
                    if index != 0 {
                        output.append(", ");
                    }
                    arguments[index].write_msl(output);
                    index += 1;
                    assert(output@ =~= opened + arguments_msl(next));
                }
                assert(views.take(views.len() as int) =~= views);
                output.append(")");
            },
            Expr::Unary { op, value } => {
                output.append("(");
                output.append(op.msl());
                value.write_msl(output);
                output.append(")");
            },
            Expr::Binary { op, left, right } => {
                output.append("(");
                left.write_msl(output);
                output.append(" ");
                output.append(op.msl());
                output.append(" ");
                right.write_msl(output);
                output.append(")");
            },
            Expr::Cast { value, ty } => {
                output.append(ty.msl_name());
                output.append("(");
                value.write_msl(output);
                output.append(")");
            },
            Expr::Select { condition, when_true, when_false } => {
                output.append("(");
                condition.write_msl(output);
                output.append(" ? ");
                when_true.write_msl(output);
                output.append(" : ");
                when_false.write_msl(output);
                output.append(")");
            },
        }
        assert(output@ =~= before + self@.msl());
    }
}

/// The arguments of a call stand one behind the other, with a comma and a space between any two.
pub proof fn law_arguments_are_separated_by_commas(first: Seq<ExprView>, second: Seq<ExprView>)
    requires
        first.len() > 0,
        second.len() > 0,
    ensures
        arguments_msl(first + second) == arguments_msl(first) + ", "@ + arguments_msl(second),
        first.len() == 1 ==> arguments_msl(first) == first[0].msl(),
    decreases second.len(),
{
    let all = first + second;
    assert(all.drop_last() =~= first + second.drop_last());
    assert(all.last() == second.last());
    if first.len() == 1 {
        assert(arguments_msl(first) =~= first[0].msl());
    }
    if second.len() == 1 {
        assert(all.drop_last() =~= first);
        assert(arguments_msl(second) =~= second[0].msl());
        assert(arguments_msl(all) =~= arguments_msl(first) + ", "@ + second[0].msl());
    } else {
        law_arguments_are_separated_by_commas(first, second.drop_last());
        let last = second.last().msl();
        assert(arguments_msl(first) + ", "@ + arguments_msl(second.drop_last()) + ", "@ + last
            =~= arguments_msl(first) + ", "@ + (arguments_msl(second.drop_last()) + ", "@ + last));
    }
}

} // verus!
