//! Which tensors the body of a kernel captures.
use vstd::prelude::*;

use crate::expr::{expr_views, lemma_expr_views, Capture, Expr, ExprView};
use crate::statement::{
    lemma_statement_views, statement_views, Bound, DeviceBlock, DeviceBlockView, Statement,
    StatementView,
};

verus! {

/// A list of captures and one more, where it is not among them.
pub open spec fn with_capture(found: Seq<Capture>, capture: Capture) -> Seq<Capture> {
    if found.contains(capture) {
        found
    } else {
        found.push(capture)
    }
}

/// A list of captures and those of an expression, in the order of their first use.
pub open spec fn with_expr(found: Seq<Capture>, value: ExprView) -> Seq<Capture>
    decreases value,
{
    match value {
        ExprView::Captured { capture, coordinates } => with_exprs(
            with_capture(found, capture),
            coordinates,
        ),
        ExprView::CapturedAxis { capture, .. } => with_capture(found, capture),
        ExprView::Call { arguments, .. } => with_exprs(found, arguments),
        ExprView::Unary { value, .. } => with_expr(found, *value),
        ExprView::Binary { left, right, .. } => with_expr(with_expr(found, *left), *right),
        ExprView::Cast { value, .. } => with_expr(found, *value),
        ExprView::Select { condition, when_true, when_false } => with_expr(
            with_expr(with_expr(found, *condition), *when_true),
            *when_false,
        ),
        _ => found,
    }
}

/// A list of captures and those of a sequence of expressions.
pub open spec fn with_exprs(found: Seq<Capture>, values: Seq<ExprView>) -> Seq<Capture>
    decreases values,
{
    if values.len() == 0 {
        found
    } else {
        with_expr(with_exprs(found, values.drop_last()), values.last())
    }
}

/// A list of captures and that of a bound.
pub open spec fn with_bound(found: Seq<Capture>, bound: Bound) -> Seq<Capture> {
    match bound {
        Bound::CapturedAxis { capture, .. } => with_capture(found, capture),
        _ => found,
    }
}

/// A list of captures and those of a statement.
pub open spec fn with_statement(found: Seq<Capture>, statement: StatementView) -> Seq<Capture>
    decreases statement,
{
    match statement {
        StatementView::Let { value, .. } => with_expr(found, value),
        StatementView::Assign { value, .. } => with_expr(found, value),
        StatementView::ForRange { start, end, body, .. } => with_statements(
            with_bound(with_bound(found, start), end),
            body,
        ),
        StatementView::Sum { start, end, term, .. } => with_expr(
            with_bound(with_bound(found, start), end),
            term,
        ),
    }
}

/// A list of captures and those of a sequence of statements.
pub open spec fn with_statements(
    found: Seq<Capture>,
    statements: Seq<StatementView>,
) -> Seq<Capture>
    decreases statements,
{
    if statements.len() == 0 {
        found
    } else {
        with_statement(with_statements(found, statements.drop_last()), statements.last())
    }
}

/// The captures of a kernel's body, each once, in the order of their first use.
pub open spec fn captures_of(body: DeviceBlockView) -> Seq<Capture> {
    with_expr(with_statements(Seq::empty(), body.statements), body.result)
}

fn add_capture(found: &mut Vec<Capture>, capture: Capture)
    ensures
        final(found)@ == with_capture(old(found)@, capture),
{
    let mut index: usize = 0;
    while index < found.len()
        invariant
            index <= found@.len(),
            found@ == old(found)@,
            forall|i: int| 0 <= i < index ==> #[trigger] found@[i] != capture,
        decreases found@.len() - index,
    {
        if found[index] == capture {
            return;
        }
        index += 1;
    }
    found.push(capture);
}

fn add_exprs(found: &mut Vec<Capture>, values: &Vec<Expr>)
    ensures
        final(found)@ == with_exprs(old(found)@, expr_views(values@)),
    decreases values,
{
    let ghost views = expr_views(values@);
    proof {
        lemma_expr_views(values@);
    }
    let mut index: usize = 0;
    while index < values.len()
        invariant
            index <= values@.len(),
            views.len() == values@.len(),
            forall|i: int| 0 <= i < views.len() ==> #[trigger] views[i] == values@[i]@,
            found@ == with_exprs(old(found)@, views.take(index as int)),
        decreases values@.len() - index,
    {
        assert(views.take(index + 1).drop_last() =~= views.take(index as int));
        add_expr(found, &values[index]);
        index += 1;
    }
    assert(views.take(views.len() as int) =~= views);
}

fn add_expr(found: &mut Vec<Capture>, value: &Expr)
    ensures
        final(found)@ == with_expr(old(found)@, value@),
    decreases value,
{
    match value {
        Expr::Captured { capture, coordinates } => {
            add_capture(found, *capture);
            add_exprs(found, coordinates);
        },
        Expr::CapturedAxis { capture, .. } => add_capture(found, *capture),
        Expr::Call { arguments, .. } => add_exprs(found, arguments),
        Expr::Unary { value, .. } => add_expr(found, value),
        Expr::Binary { left, right, .. } => {
            add_expr(found, left);
            add_expr(found, right);
        },
        Expr::Cast { value, .. } => add_expr(found, value),
        Expr::Select { condition, when_true, when_false } => {
            add_expr(found, condition);
            add_expr(found, when_true);
            add_expr(found, when_false);
        },
        _ => {},
    }
}

fn add_bound(found: &mut Vec<Capture>, bound: Bound)
    ensures
        final(found)@ == with_bound(old(found)@, bound),
{
    if let Bound::CapturedAxis { capture, .. } = bound {
        add_capture(found, capture);
    }
}

fn add_statements(found: &mut Vec<Capture>, statements: &Vec<Statement>)
    ensures
        final(found)@ == with_statements(old(found)@, statement_views(statements@)),
    decreases statements,
{
    let ghost views = statement_views(statements@);
    proof {
        lemma_statement_views(statements@);
    }
    let mut index: usize = 0;
    while index < statements.len()
        invariant
            index <= statements@.len(),
            views.len() == statements@.len(),
            forall|i: int| 0 <= i < views.len() ==> #[trigger] views[i] == statements@[i]@,
            found@ == with_statements(old(found)@, views.take(index as int)),
        decreases statements@.len() - index,
    {
        assert(views.take(index + 1).drop_last() =~= views.take(index as int));
        add_statement(found, &statements[index]);
        index += 1;
    }
    assert(views.take(views.len() as int) =~= views);
}

fn add_statement(found: &mut Vec<Capture>, statement: &Statement)
    ensures
        final(found)@ == with_statement(old(found)@, statement@),
    decreases statement,
{
    match statement {
        Statement::Let { value, .. } => add_expr(found, value),
        Statement::Assign { value, .. } => add_expr(found, value),
        Statement::ForRange { start, end, body, .. } => {
            add_bound(found, *start);
            add_bound(found, *end);
            add_statements(found, body);
        },
        Statement::Sum { start, end, term, .. } => {
            add_bound(found, *start);
            add_bound(found, *end);
            add_expr(found, term);
        },
    }
}

impl DeviceBlock {
    /// The tensors that the block captures, each once, in the order of their first use.
    pub fn captures(&self) -> (captures: Vec<Capture>)
        ensures
            captures@ == captures_of(self@),
    {
        let mut found: Vec<Capture> = Vec::new();
        add_statements(&mut found, &self.statements);
        add_expr(&mut found, &self.result);
        found
    }
}

/// Whether a capture occurs in an expression, at any depth.
pub open spec fn occurs(capture: Capture, value: ExprView) -> bool
    decreases value,
{
    match value {
        ExprView::Input(_) => false,
        ExprView::PointAxis(_) => false,
        ExprView::ExtentAxis(_) => false,
        ExprView::Captured { capture: read, coordinates } => read == capture || occurs_in_any(
            capture,
            coordinates,
        ),
        ExprView::CapturedAxis { capture: read, .. } => read == capture,
        ExprView::Scalar(_) => false,
        ExprView::Local(_) => false,
        ExprView::Literal(_) => false,
        ExprView::Call { arguments, .. } => occurs_in_any(capture, arguments),
        ExprView::Unary { value, .. } => occurs(capture, *value),
        ExprView::Binary { left, right, .. } => occurs(capture, *left) || occurs(capture, *right),
        ExprView::Cast { value, .. } => occurs(capture, *value),
        ExprView::Select { condition, when_true, when_false } => occurs(capture, *condition)
            || occurs(capture, *when_true) || occurs(capture, *when_false),
    }
}

/// Whether a capture occurs in one of a sequence of expressions.
pub open spec fn occurs_in_any(capture: Capture, values: Seq<ExprView>) -> bool
    decreases values,
{
    if values.len() == 0 {
        false
    } else {
        occurs_in_any(capture, values.drop_last()) || occurs(capture, values.last())
    }
}

/// Whether a bound is the length of an axis of a capture.
pub open spec fn bounds(capture: Capture, bound: Bound) -> bool {
    bound matches Bound::CapturedAxis { capture: read, .. } && read == capture
}

/// Whether a capture occurs in a statement, at any depth.
pub open spec fn occurs_in_statement(capture: Capture, statement: StatementView) -> bool
    decreases statement,
{
    match statement {
        StatementView::Let { value, .. } => occurs(capture, value),
        StatementView::Assign { value, .. } => occurs(capture, value),
        StatementView::ForRange { start, end, body, .. } => bounds(capture, start) || bounds(
            capture,
            end,
        ) || occurs_in_statements(capture, body),
        StatementView::Sum { start, end, term, .. } => bounds(capture, start) || bounds(
            capture,
            end,
        ) || occurs(capture, term),
    }
}

/// Whether a capture occurs in one of a sequence of statements.
pub open spec fn occurs_in_statements(capture: Capture, statements: Seq<StatementView>) -> bool
    decreases statements,
{
    if statements.len() == 0 {
        false
    } else {
        occurs_in_statements(capture, statements.drop_last()) || occurs_in_statement(
            capture,
            statements.last(),
        )
    }
}

/// Whether a capture occurs in the body of a kernel.
pub open spec fn occurs_in_body(capture: Capture, body: DeviceBlockView) -> bool {
    occurs_in_statements(capture, body.statements) || occurs(capture, body.result)
}

proof fn lemma_with_capture(found: Seq<Capture>, added: Capture, capture: Capture)
    ensures
        with_capture(found, added).contains(capture) <==> found.contains(capture) || added
            == capture,
        found.no_duplicates() ==> with_capture(found, added).no_duplicates(),
{
    let after = with_capture(found, added);
    if !found.contains(added) {
        assert(after[found.len() as int] == added);
        if found.contains(capture) {
            let i = choose|i: int| 0 <= i < found.len() && found[i] == capture;
            assert(after[i] == capture);
        }
    }
}

proof fn lemma_with_expr(found: Seq<Capture>, value: ExprView, capture: Capture)
    ensures
        with_expr(found, value).contains(capture) <==> found.contains(capture) || occurs(
            capture,
            value,
        ),
        found.no_duplicates() ==> with_expr(found, value).no_duplicates(),
    decreases value,
{
    match value {
        ExprView::Captured { capture: read, coordinates } => {
            lemma_with_capture(found, read, capture);
            lemma_with_exprs(with_capture(found, read), coordinates, capture);
        },
        ExprView::CapturedAxis { capture: read, .. } => lemma_with_capture(found, read, capture),
        ExprView::Call { arguments, .. } => lemma_with_exprs(found, arguments, capture),
        ExprView::Unary { value, .. } => lemma_with_expr(found, *value, capture),
        ExprView::Binary { left, right, .. } => {
            lemma_with_expr(found, *left, capture);
            lemma_with_expr(with_expr(found, *left), *right, capture);
        },
        ExprView::Cast { value, .. } => lemma_with_expr(found, *value, capture),
        ExprView::Select { condition, when_true, when_false } => {
            let first = with_expr(found, *condition);
            lemma_with_expr(found, *condition, capture);
            lemma_with_expr(first, *when_true, capture);
            lemma_with_expr(with_expr(first, *when_true), *when_false, capture);
        },
        _ => {},
    }
}

proof fn lemma_with_exprs(found: Seq<Capture>, values: Seq<ExprView>, capture: Capture)
    ensures
        with_exprs(found, values).contains(capture) <==> found.contains(capture) || occurs_in_any(
            capture,
            values,
        ),
        found.no_duplicates() ==> with_exprs(found, values).no_duplicates(),
    decreases values,
{
    if values.len() > 0 {
        let before = values.drop_last();
        lemma_with_exprs(found, before, capture);
        lemma_with_expr(with_exprs(found, before), values.last(), capture);
    }
}

proof fn lemma_with_bound(found: Seq<Capture>, bound: Bound, capture: Capture)
    ensures
        with_bound(found, bound).contains(capture) <==> found.contains(capture) || bounds(
            capture,
            bound,
        ),
        found.no_duplicates() ==> with_bound(found, bound).no_duplicates(),
{
    if let Bound::CapturedAxis { capture: read, .. } = bound {
        lemma_with_capture(found, read, capture);
    }
}

proof fn lemma_with_statement(found: Seq<Capture>, statement: StatementView, capture: Capture)
    ensures
        with_statement(found, statement).contains(capture) <==> found.contains(capture)
            || occurs_in_statement(capture, statement),
        found.no_duplicates() ==> with_statement(found, statement).no_duplicates(),
    decreases statement,
{
    match statement {
        StatementView::Let { value, .. } => lemma_with_expr(found, value, capture),
        StatementView::Assign { value, .. } => lemma_with_expr(found, value, capture),
        StatementView::ForRange { start, end, body, .. } => {
            lemma_with_bound(found, start, capture);
            lemma_with_bound(with_bound(found, start), end, capture);
            lemma_with_statements(with_bound(with_bound(found, start), end), body, capture);
        },
        StatementView::Sum { start, end, term, .. } => {
            lemma_with_bound(found, start, capture);
            lemma_with_bound(with_bound(found, start), end, capture);
            lemma_with_expr(with_bound(with_bound(found, start), end), term, capture);
        },
    }
}

proof fn lemma_with_statements(
    found: Seq<Capture>,
    statements: Seq<StatementView>,
    capture: Capture,
)
    ensures
        with_statements(found, statements).contains(capture) <==> found.contains(capture)
            || occurs_in_statements(capture, statements),
        found.no_duplicates() ==> with_statements(found, statements).no_duplicates(),
    decreases statements,
{
    if statements.len() > 0 {
        let before = statements.drop_last();
        lemma_with_statements(found, before, capture);
        lemma_with_statement(with_statements(found, before), statements.last(), capture);
    }
}

/// The captures of a body are complete and hold nothing else: each capture that occurs anywhere in
/// the body, and no other, is listed, and none is listed twice.
pub proof fn law_captures_are_complete(body: DeviceBlockView, capture: Capture)
    ensures
        captures_of(body).contains(capture) <==> occurs_in_body(capture, body),
        captures_of(body).no_duplicates(),
{
    lemma_with_statements(Seq::empty(), body.statements, capture);
    lemma_with_expr(
        with_statements(Seq::empty(), body.statements),
        body.result,
        capture,
    );
}


/// The captures of an expression as it is read from left to right, each as often as it is used.
pub open spec fn uses(value: ExprView) -> Seq<Capture>
    decreases value,
{
    match value {
        ExprView::Captured { capture, coordinates } => seq![capture] + uses_of_all(coordinates),
        ExprView::CapturedAxis { capture, .. } => seq![capture],
        ExprView::Call { arguments, .. } => uses_of_all(arguments),
        ExprView::Unary { value, .. } => uses(*value),
        ExprView::Binary { left, right, .. } => uses(*left) + uses(*right),
        ExprView::Cast { value, .. } => uses(*value),
        ExprView::Select { condition, when_true, when_false } => uses(*condition) + uses(*when_true)
            + uses(*when_false),
        _ => Seq::empty(),
    }
}

/// The captures of expressions, one expression behind the other.
pub open spec fn uses_of_all(values: Seq<ExprView>) -> Seq<Capture>
    decreases values,
{
    if values.len() == 0 {
        Seq::empty()
    } else {
        uses_of_all(values.drop_last()) + uses(values.last())
    }
}

/// The capture of a bound.
pub open spec fn bound_uses(bound: Bound) -> Seq<Capture> {
    match bound {
        Bound::CapturedAxis { capture, .. } => seq![capture],
        _ => Seq::empty(),
    }
}

/// The captures of a statement: those of a loop's bounds come before those of its body.
pub open spec fn statement_uses(statement: StatementView) -> Seq<Capture>
    decreases statement,
{
    match statement {
        StatementView::Let { value, .. } => uses(value),
        StatementView::Assign { value, .. } => uses(value),
        StatementView::ForRange { start, end, body, .. } => bound_uses(start) + bound_uses(end)
            + statements_uses(body),
        StatementView::Sum { start, end, term, .. } => bound_uses(start) + bound_uses(end) + uses(
            term,
        ),
    }
}

/// The captures of statements, one statement behind the other.
pub open spec fn statements_uses(statements: Seq<StatementView>) -> Seq<Capture>
    decreases statements,
{
    if statements.len() == 0 {
        Seq::empty()
    } else {
        statements_uses(statements.drop_last()) + statement_uses(statements.last())
    }
}

/// The captures of a body: those of its statements, and then those of its result.
pub open spec fn body_uses(body: DeviceBlockView) -> Seq<Capture> {
    statements_uses(body.statements) + uses(body.result)
}

/// A list of captures and those of some uses.
spec fn with_uses(found: Seq<Capture>, used: Seq<Capture>) -> Seq<Capture>
    decreases used.len(),
{
    if used.len() == 0 {
        found
    } else {
        with_capture(with_uses(found, used.drop_last()), used.last())
    }
}

proof fn lemma_joined_uses(found: Seq<Capture>, first: Seq<Capture>, second: Seq<Capture>)
    ensures
        with_uses(found, first + second) == with_uses(with_uses(found, first), second),
    decreases second.len(),
{
    if second.len() == 0 {
        assert(first + second =~= first);
    } else {
        lemma_joined_uses(found, first, second.drop_last());
        assert((first + second).drop_last() =~= first + second.drop_last());
        assert((first + second).last() == second.last());
    }
}

proof fn lemma_one_use(found: Seq<Capture>, capture: Capture)
    ensures
        with_uses(found, seq![capture]) == with_capture(found, capture),
{
    assert(seq![capture].drop_last() =~= Seq::empty());
    assert(with_uses(found, seq![capture].drop_last()) == found);
}

proof fn lemma_uses(found: Seq<Capture>, value: ExprView)
    ensures
        with_expr(found, value) == with_uses(found, uses(value)),
    decreases value,
{
    match value {
        ExprView::Captured { capture, coordinates } => {
            lemma_one_use(found, capture);
            lemma_uses_of_all(with_capture(found, capture), coordinates);
            lemma_joined_uses(found, seq![capture], uses_of_all(coordinates));
        },
        ExprView::CapturedAxis { capture, .. } => lemma_one_use(found, capture),
        ExprView::Call { arguments, .. } => lemma_uses_of_all(found, arguments),
        ExprView::Unary { value, .. } => lemma_uses(found, *value),
        ExprView::Binary { left, right, .. } => {
            lemma_uses(found, *left);
            lemma_uses(with_expr(found, *left), *right);
            lemma_joined_uses(found, uses(*left), uses(*right));
        },
        ExprView::Cast { value, .. } => lemma_uses(found, *value),
        ExprView::Select { condition, when_true, when_false } => {
            let first = with_expr(found, *condition);
            lemma_uses(found, *condition);
            lemma_uses(first, *when_true);
            lemma_uses(with_expr(first, *when_true), *when_false);
            lemma_joined_uses(found, uses(*condition), uses(*when_true));
            lemma_joined_uses(found, uses(*condition) + uses(*when_true), uses(*when_false));
        },
        _ => {},
    }
}

proof fn lemma_uses_of_all(found: Seq<Capture>, values: Seq<ExprView>)
    ensures
        with_exprs(found, values) == with_uses(found, uses_of_all(values)),
    decreases values,
{
    if values.len() > 0 {
        let before = values.drop_last();
        lemma_uses_of_all(found, before);
        lemma_uses(with_exprs(found, before), values.last());
        lemma_joined_uses(found, uses_of_all(before), uses(values.last()));
    }
}

proof fn lemma_bound_uses(found: Seq<Capture>, bound: Bound)
    ensures
        with_bound(found, bound) == with_uses(found, bound_uses(bound)),
{
    if let Bound::CapturedAxis { capture, .. } = bound {
        lemma_one_use(found, capture);
    }
}

proof fn lemma_statement_uses(found: Seq<Capture>, statement: StatementView)
    ensures
        with_statement(found, statement) == with_uses(found, statement_uses(statement)),
    decreases statement,
{
    match statement {
        StatementView::Let { value, .. } => lemma_uses(found, value),
        StatementView::Assign { value, .. } => lemma_uses(found, value),
        StatementView::ForRange { start, end, body, .. } => {
            let first = with_bound(found, start);
            let second = with_bound(first, end);
            lemma_bound_uses(found, start);
            lemma_bound_uses(first, end);
            lemma_statements_uses(second, body);
            lemma_joined_uses(found, bound_uses(start), bound_uses(end));
            lemma_joined_uses(found, bound_uses(start) + bound_uses(end), statements_uses(body));
        },
        StatementView::Sum { start, end, term, .. } => {
            let first = with_bound(found, start);
            let second = with_bound(first, end);
            lemma_bound_uses(found, start);
            lemma_bound_uses(first, end);
            lemma_uses(second, term);
            lemma_joined_uses(found, bound_uses(start), bound_uses(end));
            lemma_joined_uses(found, bound_uses(start) + bound_uses(end), uses(term));
        },
    }
}

proof fn lemma_statements_uses(found: Seq<Capture>, statements: Seq<StatementView>)
    ensures
        with_statements(found, statements) == with_uses(found, statements_uses(statements)),
    decreases statements,
{
    if statements.len() > 0 {
        let before = statements.drop_last();
        lemma_statements_uses(found, before);
        lemma_statement_uses(with_statements(found, before), statements.last());
        lemma_joined_uses(found, statements_uses(before), statement_uses(statements.last()));
    }
}

/// Whether a capture is used before a place.
pub open spec fn used_before(used: Seq<Capture>, capture: Capture, place: int) -> bool {
    exists|earlier: int| 0 <= earlier < place && #[trigger] used[earlier] == capture
}

/// Whether captures are listed in the order of their first use: a capture is not used before the
/// ones that are listed before it.
pub open spec fn by_first_use(captures: Seq<Capture>, used: Seq<Capture>) -> bool {
    forall|i: int, j: int, place: int|
        #![trigger captures[i], captures[j], used[place]]
        0 <= i < j < captures.len() && 0 <= place < used.len() && used[place] == captures[j]
            ==> used_before(used, captures[i], place)
}

proof fn lemma_by_first_use(used: Seq<Capture>)
    ensures
        ({
            let captures = with_uses(Seq::empty(), used);
            &&& by_first_use(captures, used)
            &&& forall|i: int|
                0 <= i < captures.len() ==> used_before(
                    used,
                    #[trigger] captures[i],
                    used.len() as int,
                )
            &&& forall|place: int|
                0 <= place < used.len() ==> captures.contains(#[trigger] used[place])
        }),
    decreases used.len(),
{
    if used.len() > 0 {
        let before = used.drop_last();
        let last = used.len() - 1;
        lemma_by_first_use(before);
        let listed = with_uses(Seq::empty(), before);
        let captures = with_uses(Seq::empty(), used);
        assert forall|i: int| 0 <= i < listed.len() implies used_before(
            used,
            #[trigger] listed[i],
            last,
        ) by {
            assert(used_before(before, listed[i], last));
            let earlier = choose|earlier: int|
                0 <= earlier < last && #[trigger] before[earlier] == listed[i];
            assert(used[earlier] == listed[i]);
        }
        assert forall|i: int| 0 <= i < captures.len() implies used_before(
            used,
            #[trigger] captures[i],
            used.len() as int,
        ) by {
            if i < listed.len() {
                assert(captures[i] == listed[i]);
                assert(used_before(used, listed[i], last));
            } else {
                assert(used[last] == captures[i]);
            }
        }
        assert forall|place: int| 0 <= place < used.len() implies captures.contains(
            #[trigger] used[place],
        ) by {
            if place < last {
                assert(listed.contains(before[place]));
                let i = choose|i: int| 0 <= i < listed.len() && listed[i] == before[place];
                assert(captures[i] == used[place]);
            } else if !listed.contains(used[last]) {
                assert(captures[listed.len() as int] == used[last]);
            }
        }
        assert forall|i: int, j: int, place: int|
            #![trigger captures[i], captures[j], used[place]]
            0 <= i < j < captures.len() && 0 <= place < used.len() && used[place]
                == captures[j] implies used_before(used, captures[i], place) by {
            assert(captures[i] == listed[i]);
            if place == last {
                assert(used_before(used, listed[i], last));
            } else {
                assert(before[place] == captures[j]);
                assert(listed.contains(before[place]));
                assert(j < listed.len());
                assert(captures[j] == listed[j]);
                assert(used_before(before, listed[i], place));
                let earlier = choose|earlier: int|
                    0 <= earlier < place && #[trigger] before[earlier] == listed[i];
                assert(used[earlier] == listed[i]);
            }
        }
    }
}

/// The captures of a body are listed in the order in which the body first uses them.
pub proof fn law_captures_are_listed_by_first_use(body: DeviceBlockView)
    ensures
        by_first_use(captures_of(body), body_uses(body)),
        forall|i: int|
            0 <= i < captures_of(body).len() ==> body_uses(body).contains(
                #[trigger] captures_of(body)[i],
            ),
        forall|place: int|
            0 <= place < body_uses(body).len() ==> captures_of(body).contains(
                #[trigger] body_uses(body)[place],
            ),
{
    let used = body_uses(body);
    let none = Seq::<Capture>::empty();
    lemma_statements_uses(none, body.statements);
    lemma_uses(with_statements(none, body.statements), body.result);
    lemma_joined_uses(none, statements_uses(body.statements), uses(body.result));
    lemma_by_first_use(used);
    assert forall|i: int| 0 <= i < captures_of(body).len() implies used.contains(
        #[trigger] captures_of(body)[i],
    ) by {
        assert(used_before(used, captures_of(body)[i], used.len() as int));
    }
}

} // verus!
