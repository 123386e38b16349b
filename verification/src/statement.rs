//! Statements of the device language.
use vstd::prelude::*;
use vstd::string::*;

use crate::expr::{captured_axis_msl, write_captured_axis, Capture, Expr, ExprView};
use crate::text::{decimal, push_decimal};
use crate::types::ScalarType;

verus! {

#[derive(Debug, Clone, Copy, PartialEq, Eq, Structural)]
pub enum AssignOp {
    Assign,
    Add,
    Sub,
    Mul,
    Div,
}

impl AssignOp {
    pub open spec fn msl_text(self) -> Seq<char> {
        match self {
            AssignOp::Assign => "="@,
            AssignOp::Add => "+="@,
            AssignOp::Sub => "-="@,
            AssignOp::Mul => "*="@,
            AssignOp::Div => "/="@,
        }
    }

    /// The operator's token in the Metal Shading Language.
    pub fn msl(self) -> (token: &'static str)
        ensures
            token@ == self.msl_text(),
    {
        match self {
            AssignOp::Assign => "=",
            AssignOp::Add => "+=",
            AssignOp::Sub => "-=",
            AssignOp::Mul => "*=",
            AssignOp::Div => "/=",
        }
    }
}

/// A bound of a loop, known before the kernel runs.
#[derive(Debug, Clone, Copy, PartialEq, Eq, Structural)]
#[allow(inconsistent_fields)]
pub enum Bound {
    Literal(u32),
    /// The length of an axis of the extent.
    ExtentAxis(usize),
    /// The length of an axis of a captured tensor.
    CapturedAxis { capture: Capture, axis: usize },
}

impl Bound {
    pub open spec fn msl_text(self) -> Seq<char> {
        match self {
            Bound::Literal(value) => decimal(value as nat),
            Bound::ExtentAxis(axis) => "__pm_extent["@ + decimal(axis as nat) + "]"@,
            Bound::CapturedAxis { capture, axis } => captured_axis_msl(capture, axis as nat),
        }
    }

    /// Appends the bound in the Metal Shading Language.
    pub fn write_msl(self, output: &mut String)
        ensures
            final(output)@ == old(output)@ + self.msl_text(),
    {
        let ghost before = output@;
        match self {
            Bound::Literal(value) => push_decimal(output, value as u128),
            Bound::ExtentAxis(axis) => {
                output.append("__pm_extent[");
                push_decimal(output, axis as u128);
                output.append("]");
            },
            Bound::CapturedAxis { capture, axis } => write_captured_axis(output, capture, axis),
        }
        assert(output@ =~= before + self.msl_text());
    }
}

/// A statement that one GPU thread executes for its element.
#[allow(inconsistent_fields)]
#[derive(Debug, PartialEq)]
pub enum Statement {
    Let { name: String, ty: ScalarType, value: Expr },
    Assign { name: String, op: AssignOp, value: Expr },
    ForRange { variable: String, start: Bound, end: Bound, inclusive: bool, body: Vec<Statement> },
    /// Declares a variable and gives it the sum of the terms of a range, in their order.
    Sum {
        name: String,
        ty: ScalarType,
        variable: String,
        start: Bound,
        end: Bound,
        inclusive: bool,
        term: Expr,
    },
}

/// What a statement is, with its names as sequences of characters.
#[allow(inconsistent_fields)]
#[verifier::ext_equal]
pub ghost enum StatementView {
    Let { name: Seq<char>, ty: ScalarType, value: ExprView },
    Assign { name: Seq<char>, op: AssignOp, value: ExprView },
    ForRange {
        variable: Seq<char>,
        start: Bound,
        end: Bound,
        inclusive: bool,
        body: Seq<StatementView>,
    },
    Sum {
        name: Seq<char>,
        ty: ScalarType,
        variable: Seq<char>,
        start: Bound,
        end: Bound,
        inclusive: bool,
        term: ExprView,
    },
}

impl View for Statement {
    type V = StatementView;

    open spec fn view(&self) -> StatementView {
        statement_view(*self)
    }
}

/// The view of a statement.
pub open spec fn statement_view(statement: Statement) -> StatementView
    decreases statement,
{
    match statement {
        Statement::Let { name, ty, value } => StatementView::Let { name: name@, ty, value: value@ },
        Statement::Assign { name, op, value } => StatementView::Assign {
            name: name@,
            op,
            value: value@,
        },
        Statement::ForRange { variable, start, end, inclusive, body } => StatementView::ForRange {
            variable: variable@,
            start,
            end,
            inclusive,
            body: statement_views(body@),
        },
        Statement::Sum { name, ty, variable, start, end, inclusive, term } => StatementView::Sum {
            name: name@,
            ty,
            variable: variable@,
            start,
            end,
            inclusive,
            term: term@,
        },
    }
}

/// The views of a sequence of statements.
pub open spec fn statement_views(statements: Seq<Statement>) -> Seq<StatementView>
    decreases statements,
{
    if statements.len() == 0 {
        Seq::empty()
    } else {
        statement_views(statements.drop_last()).push(statement_view(statements.last()))
    }
}

/// `statement_views` takes the view of each statement in its place.
pub broadcast proof fn lemma_statement_views(statements: Seq<Statement>)
    ensures
        (#[trigger] statement_views(statements)).len() == statements.len(),
        forall|i: int|
            0 <= i < statements.len() ==> #[trigger] statement_views(statements)[i]
                == statements[i]@,
    decreases statements.len(),
{
    if statements.len() > 0 {
        lemma_statement_views(statements.drop_last());
    }
}

/// Four spaces for each level of nesting.
pub open spec fn indent_text(levels: nat) -> Seq<char>
    decreases levels,
{
    if levels == 0 {
        Seq::empty()
    } else {
        indent_text((levels - 1) as nat) + "    "@
    }
}

impl StatementView {
    /// The lines of the statement in the Metal Shading Language, each after `indent`.
    pub open spec fn msl(self, indent: Seq<char>) -> Seq<char>
        decreases self,
    {
        match self {
            StatementView::Let { name, ty, value } => let_msl(name, ty, value, indent),
            StatementView::Assign { name, op, value } => assign_msl(name, op, value, indent),
            StatementView::ForRange { variable, start, end, inclusive, body } => loop_header_msl(
                variable,
                start,
                end,
                inclusive,
                indent,
            ) + (statements_msl(body, indent + "    "@) + loop_end_msl(indent)),
            StatementView::Sum { name, ty, variable, start, end, inclusive, term } =>
            sum_opening_msl(
                name,
                ty,
                indent,
            ) + (loop_header_msl(variable, start, end, inclusive, indent) + sum_term_msl(
                name,
                term,
                indent,
            )),
        }
    }
}

/// The line of a declaration.
pub open spec fn let_msl(
    name: Seq<char>,
    ty: ScalarType,
    value: ExprView,
    indent: Seq<char>,
) -> Seq<char> {
    indent + ty.msl_text() + " "@ + name + " = "@ + value.msl() + ";\n"@
}

/// The line of an assignment.
pub open spec fn assign_msl(
    name: Seq<char>,
    op: AssignOp,
    value: ExprView,
    indent: Seq<char>,
) -> Seq<char> {
    indent + name + " "@ + op.msl_text() + " "@ + value.msl() + ";\n"@
}

/// The comparison that keeps a loop going.
pub open spec fn comparison_msl(inclusive: bool) -> Seq<char> {
    if inclusive {
        "<="@
    } else {
        "<"@
    }
}

/// The line that opens a loop.
pub open spec fn loop_header_msl(
    variable: Seq<char>,
    start: Bound,
    end: Bound,
    inclusive: bool,
    indent: Seq<char>,
) -> Seq<char> {
    indent + "for (uint "@ + variable + " = "@ + start.msl_text() + "; "@ + variable + " "@
        + comparison_msl(inclusive) + " "@ + end.msl_text() + "; ++"@ + variable + ") {\n"@
}

/// The line that closes a loop.
pub open spec fn loop_end_msl(indent: Seq<char>) -> Seq<char> {
    indent + "}\n"@
}

/// The line that declares the variable of a sum.
pub open spec fn sum_opening_msl(name: Seq<char>, ty: ScalarType, indent: Seq<char>) -> Seq<char> {
    indent + ty.msl_text() + " "@ + name + " = 0;\n"@
}

/// The line that adds a term to the variable of a sum, and the end of the loop around it.
pub open spec fn sum_term_msl(name: Seq<char>, term: ExprView, indent: Seq<char>) -> Seq<char> {
    indent + "    "@ + name + " += "@ + term.msl() + ";\n"@ + indent + "}\n"@
}

/// The lines of a sequence of statements.
pub open spec fn statements_msl(statements: Seq<StatementView>, indent: Seq<char>) -> Seq<char>
    decreases statements,
{
    if statements.len() == 0 {
        Seq::empty()
    } else {
        statements_msl(statements.drop_last(), indent) + statements.last().msl(indent)
    }
}

fn write_loop_header(
    output: &mut String,
    variable: &str,
    start: Bound,
    end: Bound,
    inclusive: bool,
    indent: &str,
)
    ensures
        final(output)@ == old(output)@ + loop_header_msl(
            variable@,
            start,
            end,
            inclusive,
            indent@,
        ),
{
    let ghost before = output@;
    output.append(indent);
    output.append("for (uint ");
    output.append(variable);
    output.append(" = ");
    start.write_msl(output);
    output.append("; ");
    output.append(variable);
    output.append(" ");
    output.append(if inclusive {
        "<="
    } else {
        "<"
    });
    output.append(" ");
    end.write_msl(output);
    output.append("; ++");
    output.append(variable);
    output.append(") {\n");
    assert(output@ =~= before + loop_header_msl(variable@, start, end, inclusive, indent@));
}

fn write_let(output: &mut String, name: &str, ty: ScalarType, value: &Expr, indent: &str)
    ensures
        final(output)@ == old(output)@ + let_msl(name@, ty, value@, indent@),
{
    let ghost before = output@;
    output.append(indent);
    output.append(ty.msl_name());
    output.append(" ");
    output.append(name);
    output.append(" = ");
    value.write_msl(output);
    output.append(";\n");
    assert(output@ =~= before + let_msl(name@, ty, value@, indent@));
}

fn write_assign(output: &mut String, name: &str, op: AssignOp, value: &Expr, indent: &str)
    ensures
        final(output)@ == old(output)@ + assign_msl(name@, op, value@, indent@),
{
    let ghost before = output@;
    output.append(indent);
    output.append(name);
    output.append(" ");
    output.append(op.msl());
    output.append(" ");
    value.write_msl(output);
    output.append(";\n");
    assert(output@ =~= before + assign_msl(name@, op, value@, indent@));
}

fn write_sum_opening(output: &mut String, name: &str, ty: ScalarType, indent: &str)
    ensures
        final(output)@ == old(output)@ + sum_opening_msl(name@, ty, indent@),
{
    let ghost before = output@;
    output.append(indent);
    output.append(ty.msl_name());
    output.append(" ");
    output.append(name);
    output.append(" = 0;\n");
    assert(output@ =~= before + sum_opening_msl(name@, ty, indent@));
}

fn write_sum_term(output: &mut String, name: &str, term: &Expr, indent: &str)
    ensures
        final(output)@ == old(output)@ + sum_term_msl(name@, term@, indent@),
{
    let ghost before = output@;
    output.append(indent);
    output.append("    ");
    output.append(name);
    output.append(" += ");
    term.write_msl(output);
    output.append(";\n");
    output.append(indent);
    output.append("}\n");
    assert(output@ =~= before + sum_term_msl(name@, term@, indent@));
}

/// Appends the lines of the statements, each after `indent`.
pub fn write_statements(statements: &Vec<Statement>, output: &mut String, indent: &str)
    ensures
        final(output)@ == old(output)@ + statements_msl(statement_views(statements@), indent@),
    decreases statements,
{
    let ghost before = output@;
    let ghost views = statement_views(statements@);
    proof {
        lemma_statement_views(statements@);
    }
    let mut index: usize = 0;
    while index < statements.len()
        invariant
            index <= statements@.len(),
            views.len() == statements@.len(),
            forall|i: int| 0 <= i < views.len() ==> #[trigger] views[i] == statements@[i]@,
            output@ == before + statements_msl(views.take(index as int), indent@),
        decreases statements@.len() - index,
    {
        let ghost next = views.take(index + 1);
        assert(next.drop_last() =~= views.take(index as int));
        statements[index].write_indented(output, indent);
        index += 1;
        assert(output@ =~= before + statements_msl(next, indent@));
    }
    assert(views.take(views.len() as int) =~= views);
}

proof fn lemma_three_texts(before: Seq<char>, first: Seq<char>, second: Seq<char>, third: Seq<char>)
    ensures
        before + first + second + third == before + (first + (second + third)),
{
    assert(before + first + second + third =~= before + (first + (second + third)));
}

impl Statement {
    /// Appends the lines of the statement, nested `indentation` levels deep.
    pub fn write_msl(&self, output: &mut String, indentation: usize)
        ensures
            final(output)@ == old(output)@ + self@.msl(indent_text(indentation as nat)),
    {
        let mut indent = String::new();
        let mut level: usize = 0;
        while level < indentation
            invariant
                level <= indentation,
                indent@ == indent_text(level as nat),
            decreases indentation - level,
        {
            indent.append("    ");
            level += 1;
        }
        self.write_indented(output, indent.as_str());
    }

    fn write_indented(&self, output: &mut String, indent: &str)
        ensures
            final(output)@ == old(output)@ + self@.msl(indent@),
        decreases self,
    {
        let ghost before = output@;
        match self {
            Statement::Let { name, ty, value } => {
                write_let(output, name.as_str(), *ty, value, indent);
            },
            Statement::Assign { name, op, value } => {
                write_assign(output, name.as_str(), *op, value, indent);
            },
            Statement::ForRange { variable, start, end, inclusive, body } => {
                let mut nested = String::new();
                nested.append(indent);
                nested.append("    ");
                assert(nested@ =~= indent@ + "    "@);
                write_loop_header(output, variable.as_str(), *start, *end, *inclusive, indent);
                assert(decreases_to!(*self => self->body));
                write_statements(body, output, nested.as_str());
                let ghost inside = output@;
                output.append(indent);
                output.append("}\n");
                assert(output@ =~= inside + loop_end_msl(indent@));
                proof {
                    lemma_three_texts(
                        before,
                        loop_header_msl(variable@, *start, *end, *inclusive, indent@),
                        statements_msl(statement_views(body@), indent@ + "    "@),
                        loop_end_msl(indent@),
                    );
                }
            },
            Statement::Sum { name, ty, variable, start, end, inclusive, term } => {
                write_sum_opening(output, name.as_str(), *ty, indent);
                write_loop_header(output, variable.as_str(), *start, *end, *inclusive, indent);
                write_sum_term(output, name.as_str(), term, indent);
                proof {
                    lemma_three_texts(
                        before,
                        sum_opening_msl(name@, *ty, indent@),
                        loop_header_msl(variable@, *start, *end, *inclusive, indent@),
                        sum_term_msl(name@, term@, indent@),
                    );
                }
            },
        }
    }
}

impl Clone for Statement {
    fn clone(&self) -> (copy: Self)
        ensures
            copy@ == self@,
        decreases self,
    {
        match self {
            Statement::Let { name, ty, value } => Statement::Let {
                name: name.clone(),
                ty: *ty,
                value: value.clone(),
            },
            Statement::Assign { name, op, value } => Statement::Assign {
                name: name.clone(),
                op: *op,
                value: value.clone(),
            },
            Statement::ForRange { variable, start, end, inclusive, body } => {
                let mut copies: Vec<Statement> = Vec::new();
                let mut index: usize = 0;
                while index < body.len()
                    invariant
                        index <= body@.len(),
                        *self == (Statement::ForRange {
                            variable: *variable,
                            start: *start,
                            end: *end,
                            inclusive: *inclusive,
                            body: *body,
                        }),
                        copies@.len() == index,
                        forall|i: int| 0 <= i < index ==> #[trigger] copies@[i]@ == body@[i]@,
                    decreases body@.len() - index,
                {
                    assert(decreases_to!(*self => self->body));
                    copies.push(body[index].clone());
                    index += 1;
                }
                proof {
                    lemma_statement_views(body@);
                    lemma_statement_views(copies@);
                }
                let copy = Statement::ForRange {
                    variable: variable.clone(),
                    start: *start,
                    end: *end,
                    inclusive: *inclusive,
                    body: copies,
                };
                assert(copy@->body =~= self@->body);
                copy
            },
            Statement::Sum { name, ty, variable, start, end, inclusive, term } => Statement::Sum {
                name: name.clone(),
                ty: *ty,
                variable: variable.clone(),
                start: *start,
                end: *end,
                inclusive: *inclusive,
                term: term.clone(),
            },
        }
    }
}

/// The statements of a kernel and the expression of its output element.
#[derive(Debug, PartialEq)]
pub struct DeviceBlock {
    pub statements: Vec<Statement>,
    pub result: Expr,
}

/// What a device block is, with its names as sequences of characters.
#[verifier::ext_equal]
pub ghost struct DeviceBlockView {
    pub statements: Seq<StatementView>,
    pub result: ExprView,
}

impl View for DeviceBlock {
    type V = DeviceBlockView;

    open spec fn view(&self) -> DeviceBlockView {
        DeviceBlockView { statements: statement_views(self.statements@), result: self.result@ }
    }
}

impl Clone for DeviceBlock {
    fn clone(&self) -> (copy: Self)
        ensures
            copy@ == self@,
    {
        let mut statements: Vec<Statement> = Vec::new();
        let mut index: usize = 0;
        while index < self.statements.len()
            invariant
                index <= self.statements@.len(),
                statements@.len() == index,
                forall|i: int|
                    0 <= i < index ==> #[trigger] statements@[i]@ == self.statements@[i]@,
            decreases self.statements@.len() - index,
        {
            statements.push(self.statements[index].clone());
            index += 1;
        }
        proof {
            lemma_statement_views(self.statements@);
            lemma_statement_views(statements@);
            assert(statement_views(statements@) =~= statement_views(self.statements@));
        }
        DeviceBlock { statements, result: self.result.clone() }
    }
}

/// A level of nesting is four spaces.
pub proof fn law_levels_are_four_spaces(level: nat)
    ensures
        indent_text(level).len() == 4 * level,
        forall|i: int|
            0 <= i < indent_text(level).len() ==> #[trigger] indent_text(level)[i] == ' ',
    decreases level,
{
    reveal_strlit("    ");
    if level > 0 {
        law_levels_are_four_spaces((level - 1) as nat);
    }
}

} // verus!
