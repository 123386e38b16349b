//! How the Metal source of statements is laid out in lines.
use vstd::prelude::*;

use crate::expr::ExprView;
use crate::statement::{
    assign_msl, indent_text, let_msl, loop_end_msl, loop_header_msl, statements_msl,
    sum_opening_msl, sum_term_msl, AssignOp, Bound, StatementView,
};
use crate::types::ScalarType;

verus! {

/// A line of Metal source, with its end, and how many levels it is indented.
pub ghost struct Line {
    pub depth: nat,
    pub text: Seq<char>,
}

/// Lines one level deeper.
pub open spec fn deeper(lines: Seq<Line>) -> Seq<Line> {
    lines.map_values(|line: Line| Line { depth: line.depth + 1, text: line.text })
}

/// The lines of a statement.
pub open spec fn lines_of(statement: StatementView) -> Seq<Line>
    decreases statement,
{
    let none = Seq::<char>::empty();
    match statement {
        StatementView::Let { name, ty, value } => seq![
            Line { depth: 0, text: let_msl(name, ty, value, none) },
        ],
        StatementView::Assign { name, op, value } => seq![
            Line { depth: 0, text: assign_msl(name, op, value, none) },
        ],
        StatementView::ForRange { variable, start, end, inclusive, body } => seq![
            Line { depth: 0, text: loop_header_msl(variable, start, end, inclusive, none) },
        ] + deeper(lines_of_all(body)) + seq![Line { depth: 0, text: loop_end_msl(none) }],
        StatementView::Sum { name, ty, variable, start, end, inclusive, term } => seq![
            Line { depth: 0, text: sum_opening_msl(name, ty, none) },
            Line { depth: 0, text: loop_header_msl(variable, start, end, inclusive, none) },
            Line { depth: 1, text: assign_msl(name, AssignOp::Add, term, none) },
            Line { depth: 0, text: loop_end_msl(none) },
        ],
    }
}

/// The lines of statements.
pub open spec fn lines_of_all(statements: Seq<StatementView>) -> Seq<Line>
    decreases statements,
{
    if statements.len() == 0 {
        Seq::empty()
    } else {
        lines_of_all(statements.drop_last()) + lines_of(statements.last())
    }
}

/// The text of lines that all start with an indentation.
pub open spec fn rendered(lines: Seq<Line>, indent: Seq<char>) -> Seq<char>
    decreases lines.len(),
{
    if lines.len() == 0 {
        Seq::empty()
    } else {
        rendered(lines.drop_last(), indent) + (indent + indent_text(lines.last().depth)
            + lines.last().text)
    }
}

proof fn lemma_rendered_all(first: Seq<Line>, second: Seq<Line>, indent: Seq<char>)
    ensures
        rendered(first + second, indent) == rendered(first, indent) + rendered(second, indent),
    decreases second.len(),
{
    if second.len() == 0 {
        assert(first + second =~= first);
        assert(rendered(first, indent) + rendered(second, indent) =~= rendered(first, indent));
    } else {
        lemma_rendered_all(first, second.drop_last(), indent);
        assert((first + second).drop_last() =~= first + second.drop_last());
        assert((first + second).last() == second.last());
        let line = indent + indent_text(second.last().depth) + second.last().text;
        assert(rendered(first, indent) + rendered(second.drop_last(), indent) + line =~= rendered(
            first,
            indent,
        ) + (rendered(second.drop_last(), indent) + line));
    }
}

proof fn lemma_rendered_one(line: Line, indent: Seq<char>)
    ensures
        rendered(seq![line], indent) == indent + indent_text(line.depth) + line.text,
{
    let lines = seq![line];
    assert(lines.drop_last() =~= Seq::empty());
    assert(rendered(lines.drop_last(), indent) =~= Seq::empty());
    assert(rendered(lines, indent) =~= indent + indent_text(line.depth) + line.text);
}

proof fn lemma_indent_text(depth: nat)
    ensures
        indent_text(depth + 1) == "    "@ + indent_text(depth),
    decreases depth,
{
    if depth == 0 {
        assert(indent_text(1) =~= "    "@ + indent_text(0)) by {
            assert(indent_text(0) =~= Seq::empty());
            assert(indent_text(1) == indent_text(0) + "    "@);
        }
    } else {
        lemma_indent_text((depth - 1) as nat);
        assert(indent_text(depth + 1) =~= "    "@ + indent_text(depth));
    }
}

proof fn lemma_deeper(lines: Seq<Line>, indent: Seq<char>)
    ensures
        rendered(deeper(lines), indent) == rendered(lines, indent + "    "@),
    decreases lines.len(),
{
    if lines.len() > 0 {
        let line = lines.last();
        lemma_deeper(lines.drop_last(), indent);
        assert(deeper(lines).drop_last() =~= deeper(lines.drop_last()));
        lemma_indent_text(line.depth);
        assert(indent + indent_text(line.depth + 1) + line.text =~= (indent + "    "@)
            + indent_text(line.depth) + line.text);
    }
}

proof fn lemma_let(name: Seq<char>, ty: ScalarType, value: ExprView, indent: Seq<char>)
    ensures
        let_msl(name, ty, value, indent) == indent + let_msl(name, ty, value, Seq::empty()),
{
    assert(let_msl(name, ty, value, indent) =~= indent + let_msl(name, ty, value, Seq::empty()));
}

proof fn lemma_assign(name: Seq<char>, op: AssignOp, value: ExprView, indent: Seq<char>)
    ensures
        assign_msl(name, op, value, indent) == indent + assign_msl(name, op, value, Seq::empty()),
{
    assert(assign_msl(name, op, value, indent) =~= indent + assign_msl(
        name,
        op,
        value,
        Seq::empty(),
    ));
}

proof fn lemma_opening(name: Seq<char>, ty: ScalarType, indent: Seq<char>)
    ensures
        sum_opening_msl(name, ty, indent) == indent + sum_opening_msl(name, ty, Seq::empty()),
{
    assert(sum_opening_msl(name, ty, indent) =~= indent + sum_opening_msl(name, ty, Seq::empty()));
}

proof fn lemma_header(
    variable: Seq<char>,
    start: Bound,
    end: Bound,
    inclusive: bool,
    indent: Seq<char>,
)
    ensures
        loop_header_msl(variable, start, end, inclusive, indent) == indent + loop_header_msl(
            variable,
            start,
            end,
            inclusive,
            Seq::empty(),
        ),
{
    assert(loop_header_msl(variable, start, end, inclusive, indent) =~= indent + loop_header_msl(
        variable,
        start,
        end,
        inclusive,
        Seq::empty(),
    ));
}

proof fn lemma_end(indent: Seq<char>)
    ensures
        loop_end_msl(indent) == indent + loop_end_msl(Seq::empty()),
{
    assert(loop_end_msl(indent) =~= indent + loop_end_msl(Seq::empty()));
}

/// A line at depth zero starts with the indentation alone.
proof fn lemma_flush(text: Seq<char>, indent: Seq<char>)
    ensures
        rendered(seq![Line { depth: 0, text }], indent) == indent + text,
{
    lemma_rendered_one(Line { depth: 0, text }, indent);
    assert(indent_text(0) =~= Seq::empty());
    assert(indent + indent_text(0) =~= indent);
}

/// The line that adds a term is an assignment, one level deeper than the loop around it.
pub proof fn lemma_sum_term(name: Seq<char>, term: ExprView, indent: Seq<char>)
    ensures
        sum_term_msl(name, term, indent) == assign_msl(name, AssignOp::Add, term, indent + "    "@)
            + loop_end_msl(indent),
{
    reveal_strlit(" += ");
    reveal_strlit(" ");
    reveal_strlit("+=");
    assert(" += "@ =~= " "@ + "+="@ + " "@);
    assert(sum_term_msl(name, term, indent) =~= assign_msl(
        name,
        AssignOp::Add,
        term,
        indent + "    "@,
    ) + loop_end_msl(indent));
}

/// The source of a statement is its lines, each behind the indentation: writing a statement deeper
/// puts more in front of every line and changes nothing else, and what stands inside a loop stands
/// one level deeper than the loop.
pub proof fn law_statements_are_indented_line_by_line(statement: StatementView, indent: Seq<char>)
    ensures
        statement.msl(indent) == rendered(lines_of(statement), indent),
    decreases statement,
{
    let none = Seq::<char>::empty();
    match statement {
        StatementView::Let { name, ty, value } => {
            lemma_let(name, ty, value, indent);
            lemma_flush(let_msl(name, ty, value, none), indent);
        },
        StatementView::Assign { name, op, value } => {
            lemma_assign(name, op, value, indent);
            lemma_flush(assign_msl(name, op, value, none), indent);
        },
        StatementView::ForRange { variable, start, end, inclusive, body } => {
            let header = seq![
                Line { depth: 0, text: loop_header_msl(variable, start, end, inclusive, none) },
            ];
            let inside = deeper(lines_of_all(body));
            let ending = seq![Line { depth: 0, text: loop_end_msl(none) }];
            lemma_header(variable, start, end, inclusive, indent);
            lemma_flush(loop_header_msl(variable, start, end, inclusive, none), indent);
            law_blocks_are_indented_line_by_line(body, indent + "    "@);
            lemma_deeper(lines_of_all(body), indent);
            lemma_end(indent);
            lemma_flush(loop_end_msl(none), indent);
            lemma_rendered_all(header + inside, ending, indent);
            lemma_rendered_all(header, inside, indent);
            assert(rendered(header, indent) + rendered(inside, indent) + rendered(ending, indent)
                =~= rendered(header, indent) + (rendered(inside, indent) + rendered(
                ending,
                indent,
            )));
        },
        StatementView::Sum { name, ty, variable, start, end, inclusive, term } => {
            let opening = seq![Line { depth: 0, text: sum_opening_msl(name, ty, none) }];
            let header = seq![
                Line { depth: 0, text: loop_header_msl(variable, start, end, inclusive, none) },
            ];
            let inner = Line { depth: 0, text: assign_msl(name, AssignOp::Add, term, none) };
            let inside = deeper(seq![inner]);
            let ending = seq![Line { depth: 0, text: loop_end_msl(none) }];
            lemma_opening(name, ty, indent);
            lemma_flush(sum_opening_msl(name, ty, none), indent);
            lemma_header(variable, start, end, inclusive, indent);
            lemma_flush(loop_header_msl(variable, start, end, inclusive, none), indent);
            lemma_sum_term(name, term, indent);
            lemma_assign(name, AssignOp::Add, term, indent + "    "@);
            lemma_flush(inner.text, indent + "    "@);
            lemma_deeper(seq![inner], indent);
            lemma_end(indent);
            lemma_flush(loop_end_msl(none), indent);
            assert(lines_of(statement) =~= opening + (header + (inside + ending)));
            lemma_rendered_all(opening, header + (inside + ending), indent);
            lemma_rendered_all(header, inside + ending, indent);
            lemma_rendered_all(inside, ending, indent);
        },
    }
}

/// The source of statements is their lines, each behind the indentation.
pub proof fn law_blocks_are_indented_line_by_line(
    statements: Seq<StatementView>,
    indent: Seq<char>,
)
    ensures
        statements_msl(statements, indent) == rendered(lines_of_all(statements), indent),
    decreases statements,
{
    if statements.len() > 0 {
        let before = statements.drop_last();
        law_blocks_are_indented_line_by_line(before, indent);
        law_statements_are_indented_line_by_line(statements.last(), indent);
        lemma_rendered_all(lines_of_all(before), lines_of(statements.last()), indent);
    }
}

} // verus!
