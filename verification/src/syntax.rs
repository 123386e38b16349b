//! Recognising the parts of a `#[parallel]` function.
use vstd::prelude::*;

use crate::diagnostic::{ChainMethod, Diagnostic, Problem};
use crate::names::NameMap;
use crate::source::{
    ExprKind, Ident, LiteralKind, PatternKind, RankExpr, SourceBlock, SourceClosure, SourceExpr,
    SourcePattern, SourceStatement, SourceType, Span, TypeArgument, TypeArguments, TypeKind,
};
use crate::text::{number, parse_number, same_text};
use crate::types::ScalarType;

verus! {

/// A diagnostic about the tokens of a span.
pub open spec fn problem_at<T>(span: Span, problem: Problem) -> Result<T, Diagnostic> {
    Err(Diagnostic { span, problem })
}

/// Reports a problem with the tokens of a span.
pub fn report<T>(span: Span, problem: Problem) -> (reported: Result<T, Diagnostic>)
    ensures
        reported == problem_at::<T>(span, problem),
{
    Err(Diagnostic { span, problem })
}

/// The expression that a block consists of.
pub open spec fn tail_of<'a>(block: &'a SourceBlock) -> Result<&'a SourceExpr, Diagnostic> {
    if block.statements@.len() == 1 {
        match &block.statements@[0] {
            SourceStatement::Expr { expression, semicolon: false } => Ok(expression),
            _ => problem_at(block.span, Problem::NotOneChain),
        }
    } else {
        problem_at(block.span, Problem::NotOneChain)
    }
}

/// The expression that a block consists of.
pub fn only_tail_expression<'a>(block: &'a SourceBlock) -> (tail: Result<
    &'a SourceExpr,
    Diagnostic,
>)
    ensures
        tail == tail_of(block),
{
    if block.statements.len() == 1 {
        match &block.statements[0] {
            SourceStatement::Expr { expression, semicolon: false } => Ok(expression),
            _ => report(block.span, Problem::NotOneChain),
        }
    } else {
        report(block.span, Problem::NotOneChain)
    }
}

/// A method call of a parallel iterator chain.
#[derive(Debug, Clone, Copy)]
pub struct MethodCall<'a> {
    pub receiver: &'a SourceExpr,
    pub arguments: &'a Vec<SourceExpr>,
}

/// The call of `method` that an expression is.
pub open spec fn method_call_of<'a>(expression: &'a SourceExpr, method: ChainMethod) -> Result<
    MethodCall<'a>,
    Diagnostic,
> {
    match &expression.kind {
        ExprKind::MethodCall { receiver, method: name, arguments, .. } => {
            if name@ == method.name_text() && arguments@.len() == method.arity() {
                Ok(MethodCall { receiver: &**receiver, arguments })
            } else {
                problem_at(expression.span, Problem::ExpectedArguments(method))
            }
        },
        _ => problem_at(expression.span, Problem::ExpectedMethod(method)),
    }
}

/// The call of `method` that an expression is.
pub fn expect_method<'a>(expression: &'a SourceExpr, method: ChainMethod) -> (call: Result<
    MethodCall<'a>,
    Diagnostic,
>)
    ensures
        call == method_call_of(expression, method),
{
    match &expression.kind {
        ExprKind::MethodCall { receiver, method: name, arguments, .. } => {
            if same_text(name.as_str(), method.name()) && arguments.len()
                == method.argument_count() {
                Ok(MethodCall { receiver: &**receiver, arguments })
            } else {
                report(expression.span, Problem::ExpectedArguments(method))
            }
        },
        _ => report(expression.span, Problem::ExpectedMethod(method)),
    }
}

/// Where a parallel iterator takes its elements from.
#[derive(Debug, Clone, Copy)]
pub struct IteratorSource<'a> {
    pub ident: &'a Ident,
    /// Whether the iterator gives each element's point with it.
    pub indexed: bool,
}

/// The sources of an iterator, those of a zip from left to right.
pub open spec fn sources_of<'a>(expression: &'a SourceExpr) -> Result<
    Seq<IteratorSource<'a>>,
    Diagnostic,
>
    decreases expression,
{
    match &expression.kind {
        ExprKind::MethodCall { receiver, method, arguments, .. } => {
            if (method@ == "parallel_iter"@ || method@ == "indexed_parallel_iter"@)
                && arguments@.len() == 0 {
                match &receiver.kind {
                    ExprKind::Path(path) => if path.segments@.len() == 1 {
                        Ok(
                            seq![
                                IteratorSource {
                                    ident: &path.segments@[0],
                                    indexed: method@ == "indexed_parallel_iter"@,
                                },
                            ],
                        )
                    } else {
                        problem_at(receiver.span, Problem::ReceiverNotSimple)
                    },
                    _ => problem_at(receiver.span, Problem::ReceiverNotParameter),
                }
            } else if method@ == "copied"@ && arguments@.len() == 0 {
                sources_of(&**receiver)
            } else if method@ == "zip"@ && arguments@.len() == 1 {
                match sources_of(&**receiver) {
                    Ok(left) => match sources_of(&arguments@[0]) {
                        Ok(right) => Ok(left + right),
                        Err(diagnostic) => Err(diagnostic),
                    },
                    Err(diagnostic) => Err(diagnostic),
                }
            } else {
                problem_at(expression.span, Problem::UnsupportedAdapter)
            }
        },
        _ => problem_at(expression.span, Problem::SourceNotCall),
    }
}

/// `copied()` leaves the sources of an iterator as they are.
pub proof fn law_copied_keeps_the_sources<'a>(expression: &'a SourceExpr, receiver: &'a SourceExpr)
    requires
        expression.kind matches ExprKind::MethodCall { receiver: inner, method, arguments, .. }
            && *inner == *receiver && method@ == "copied"@ && arguments@.len() == 0,
    ensures
        sources_of(expression) == sources_of(receiver),
{
    reveal_strlit("copied");
    reveal_strlit("parallel_iter");
    reveal_strlit("indexed_parallel_iter");
    assert("copied"@.len() == 6);
    assert("parallel_iter"@.len() == 13);
    assert("indexed_parallel_iter"@.len() == 21);
}

/// The sources of an iterator, those of a zip from left to right.
pub fn parse_sources<'a>(expression: &'a SourceExpr) -> (sources: Result<
    Vec<IteratorSource<'a>>,
    Diagnostic,
>)
    ensures
        match (sources, sources_of(expression)) {
            (Ok(found), Ok(expected)) => found@ == expected,
            (Err(diagnostic), Err(expected)) => diagnostic == expected,
            _ => false,
        },
    decreases expression,
{
    match &expression.kind {
        ExprKind::MethodCall { receiver, method, arguments, .. } => {
            let indexed = same_text(method.as_str(), "indexed_parallel_iter");
            if (same_text(method.as_str(), "parallel_iter") || indexed) && arguments.len() == 0 {
                match &receiver.kind {
                    ExprKind::Path(path) => if path.segments.len() == 1 {
                        let mut sources: Vec<IteratorSource<'a>> = Vec::new();
                        sources.push(IteratorSource { ident: &path.segments[0], indexed });
                        assert(sources@ =~= sources_of(expression)->Ok_0);
                        Ok(sources)
                    } else {
                        report(receiver.span, Problem::ReceiverNotSimple)
                    },
                    _ => report(receiver.span, Problem::ReceiverNotParameter),
                }
            } else if same_text(method.as_str(), "copied") && arguments.len() == 0 {
                parse_sources(&**receiver)
            } else if same_text(method.as_str(), "zip") && arguments.len() == 1 {
                let mut sources: Vec<IteratorSource<'a>> = match parse_sources(&**receiver) {
                    Ok(sources) => sources,
                    Err(diagnostic) => return Err(diagnostic),
                };
                let mut right: Vec<IteratorSource<'a>> = match parse_sources(&arguments[0]) {
                    Ok(right) => right,
                    Err(diagnostic) => return Err(diagnostic),
                };
                sources.append(&mut right);
                Ok(sources)
            } else {
                report(expression.span, Problem::UnsupportedAdapter)
            }
        },
        _ => report(expression.span, Problem::SourceNotCall),
    }
}

/// The identifier that a pattern binds, through references, types and parentheses.
pub open spec fn pattern_ident<'a>(pattern: &'a SourcePattern) -> Result<&'a Ident, Diagnostic>
    decreases pattern,
{
    match &pattern.kind {
        PatternKind::Ident { ident, subpattern: None, .. } => Ok(ident),
        PatternKind::Reference(inner) => pattern_ident(&**inner),
        PatternKind::Typed { pattern: inner, .. } => pattern_ident(&**inner),
        PatternKind::Paren(inner) => pattern_ident(&**inner),
        _ => problem_at(pattern.span, Problem::NotSimplePattern),
    }
}

/// The identifier that a pattern binds, through references, types and parentheses.
pub fn simple_pat_ident<'a>(pattern: &'a SourcePattern) -> (ident: Result<&'a Ident, Diagnostic>)
    ensures
        ident == pattern_ident(pattern),
    decreases pattern,
{
    match &pattern.kind {
        PatternKind::Ident { ident, subpattern: None, .. } => Ok(ident),
        PatternKind::Reference(inner) => simple_pat_ident(&**inner),
        PatternKind::Typed { pattern: inner, .. } => simple_pat_ident(&**inner),
        PatternKind::Paren(inner) => simple_pat_ident(&**inner),
        _ => report(pattern.span, Problem::NotSimplePattern),
    }
}

/// What the closure of a map is given.
#[derive(Debug, Clone, Copy, PartialEq, Eq, Structural)]
pub enum ClosureMode {
    /// The elements of so many inputs.
    Values(usize),
    /// A point and the element of one input.
    Indexed,
    /// A point.
    Points,
}

/// What the names in a map's closure stand for.
#[derive(Debug)]
pub struct ClosureBindings {
    /// Elements, by the index of their input.
    pub values: NameMap<usize>,
    /// The point as a whole.
    pub point: Option<String>,
    /// Coordinates of the point, by their axis.
    pub point_axes: NameMap<usize>,
}

/// What closure bindings are, with their names as sequences of characters.
#[verifier::ext_equal]
pub ghost struct ClosureBindingsView {
    pub values: Map<Seq<char>, usize>,
    pub point: Option<Seq<char>>,
    pub point_axes: Map<Seq<char>, usize>,
}

/// The view of an optional text.
pub open spec fn optional_text(text: Option<String>) -> Option<Seq<char>> {
    match text {
        Some(text) => Some(text@),
        None => None,
    }
}

impl View for ClosureBindings {
    type V = ClosureBindingsView;

    open spec fn view(&self) -> ClosureBindingsView {
        ClosureBindingsView {
            values: self.values@,
            point: optional_text(self.point),
            point_axes: self.point_axes@,
        }
    }
}

/// The inputs that the first `count` patterns of a tuple bind, each by its place.
pub open spec fn bound_values(patterns: Seq<SourcePattern>, count: nat) -> Result<
    Map<Seq<char>, usize>,
    Diagnostic,
>
    decreases count,
{
    if count == 0 {
        Ok(Map::empty())
    } else {
        match bound_values(patterns, (count - 1) as nat) {
            Ok(values) => match pattern_ident(&patterns[count - 1]) {
                Ok(ident) => Ok(values.insert(ident.name@, (count - 1) as usize)),
                Err(diagnostic) => Err(diagnostic),
            },
            Err(diagnostic) => Err(diagnostic),
        }
    }
}

/// The axes that the first `count` patterns of a tuple bind, each by its place; `_` binds none.
pub open spec fn bound_axes(patterns: Seq<SourcePattern>, count: nat) -> Result<
    Map<Seq<char>, usize>,
    Diagnostic,
>
    decreases count,
{
    if count == 0 {
        Ok(Map::empty())
    } else {
        match bound_axes(patterns, (count - 1) as nat) {
            Ok(axes) => if patterns[count - 1].kind is Wild {
                Ok(axes)
            } else {
                match pattern_ident(&patterns[count - 1]) {
                    Ok(ident) => if axes.dom().contains(ident.name@) {
                        problem_at(ident.span, Problem::PointNameTwice)
                    } else {
                        Ok(axes.insert(ident.name@, (count - 1) as usize))
                    },
                    Err(diagnostic) => Err(diagnostic),
                }
            },
            Err(diagnostic) => Err(diagnostic),
        }
    }
}

/// The name of the point as a whole, and the axes by name, that a pattern binds.
pub open spec fn bound_point(pattern: SourcePattern, rank: usize) -> Result<
    (Option<Seq<char>>, Map<Seq<char>, usize>),
    Diagnostic,
> {
    match pattern_ident(&pattern) {
        Ok(ident) => Ok((Some(ident.name@), Map::empty())),
        Err(_) => match pattern.kind {
            PatternKind::Tuple(patterns) => if patterns@.len() != rank {
                problem_at(
                    pattern.span,
                    Problem::PointPatternRank { axes: patterns@.len() as usize, rank },
                )
            } else {
                match bound_axes(patterns@, patterns@.len()) {
                    Ok(axes) => Ok((None, axes)),
                    Err(diagnostic) => Err(diagnostic),
                }
            },
            _ => problem_at(pattern.span, Problem::PointPattern),
        },
    }
}

/// A destructured point names its coordinates in the order of the axes: the name at a place stands
/// for the axis of that place.
pub proof fn law_coordinates_are_named_in_axis_order(
    patterns: Seq<SourcePattern>,
    count: nat,
    axis: int,
)
    requires
        0 <= axis < count <= usize::MAX,
        bound_axes(patterns, count) is Ok,
        !(patterns[axis].kind is Wild),
    ensures
        ({
            let axes = bound_axes(patterns, count)->Ok_0;
            &&& pattern_ident(&patterns[axis]) is Ok
            &&& axes.dom().contains(pattern_ident(&patterns[axis])->Ok_0.name@)
            &&& axes[pattern_ident(&patterns[axis])->Ok_0.name@] == axis
        }),
    decreases count,
{
    if axis < count - 1 {
        law_coordinates_are_named_in_axis_order(patterns, (count - 1) as nat, axis);
    }
}

/// Whether a pattern is a tuple of two.
pub open spec fn is_pair(pattern: SourcePattern) -> bool {
    match pattern.kind {
        PatternKind::Tuple(patterns) => patterns@.len() == 2,
        _ => false,
    }
}

/// What the argument of a map's closure binds.
pub open spec fn bindings_of(
    closure: SourceClosure,
    mode: ClosureMode,
    point_rank: Option<usize>,
) -> Result<ClosureBindingsView, Diagnostic> {
    if closure.inputs@.len() != 1 {
        problem_at(closure.inputs_span, Problem::MapInputs)
    } else {
        let pattern = closure.inputs@[0];
        match mode {
            ClosureMode::Values(count) => if count == 1 {
                match pattern_ident(&pattern) {
                    Ok(ident) => Ok(
                        ClosureBindingsView {
                            values: Map::empty().insert(ident.name@, 0),
                            point: None,
                            point_axes: Map::empty(),
                        },
                    ),
                    Err(diagnostic) => Err(diagnostic),
                }
            } else {
                match pattern.kind {
                    PatternKind::Tuple(patterns) => if patterns@.len() != count {
                        problem_at(pattern.span, Problem::ZipPatternInputs)
                    } else {
                        match bound_values(patterns@, patterns@.len()) {
                            Ok(values) => Ok(
                                ClosureBindingsView {
                                    values,
                                    point: None,
                                    point_axes: Map::empty(),
                                },
                            ),
                            Err(diagnostic) => Err(diagnostic),
                        }
                    },
                    _ => problem_at(pattern.span, Problem::ZipPatternNotTuple),
                }
            },
            ClosureMode::Indexed => match pattern.kind {
                PatternKind::Tuple(patterns) => if patterns@.len() != 2 {
                    problem_at(pattern.span, Problem::IndexedPattern)
                } else {
                    match bound_point(patterns@[0], point_rank->0) {
                        Ok((point, point_axes)) => match pattern_ident(&patterns@[1]) {
                            Ok(ident) => Ok(
                                ClosureBindingsView {
                                    values: Map::empty().insert(ident.name@, 0),
                                    point,
                                    point_axes,
                                },
                            ),
                            Err(diagnostic) => Err(diagnostic),
                        },
                        Err(diagnostic) => Err(diagnostic),
                    }
                },
                _ => problem_at(pattern.span, Problem::IndexedPattern),
            },
            ClosureMode::Points => match bound_point(pattern, point_rank->0) {
                Ok((point, point_axes)) => Ok(
                    ClosureBindingsView { values: Map::empty(), point, point_axes },
                ),
                Err(diagnostic) => Err(diagnostic),
            },
        }
    }
}

fn bind_values(patterns: &Vec<SourcePattern>) -> (values: Result<NameMap<usize>, Diagnostic>)
    ensures
        match (values, bound_values(patterns@, patterns@.len())) {
            (Ok(bound), Ok(expected)) => bound@ == expected,
            (Err(diagnostic), Err(expected)) => diagnostic == expected,
            _ => false,
        },
{
    let mut values: NameMap<usize> = NameMap::new();
    let mut index: usize = 0;
    while index < patterns.len()
        invariant
            index <= patterns@.len(),
            bound_values(patterns@, index as nat) == Ok::<Map<Seq<char>, usize>, Diagnostic>(
                values@,
            ),
        decreases patterns@.len() - index,
    {
        let ident = match simple_pat_ident(&patterns[index]) {
            Ok(ident) => ident,
            Err(diagnostic) => {
                proof {
                    lemma_bound_values_fail(patterns@, (index + 1) as nat, patterns@.len());
                }
                return Err(diagnostic);
            },
        };
        values.insert(ident.name.clone(), index);
        index += 1;
    }
    Ok(values)
}

proof fn lemma_bound_values_fail(patterns: Seq<SourcePattern>, count: nat, total: nat)
    requires
        count <= total,
        bound_values(patterns, count) is Err,
    ensures
        bound_values(patterns, total) == bound_values(patterns, count),
    decreases total,
{
    if count < total {
        lemma_bound_values_fail(patterns, count, (total - 1) as nat);
    }
}

proof fn lemma_bound_axes_fail(patterns: Seq<SourcePattern>, count: nat, total: nat)
    requires
        count <= total,
        bound_axes(patterns, count) is Err,
    ensures
        bound_axes(patterns, total) == bound_axes(patterns, count),
    decreases total,
{
    if count < total {
        lemma_bound_axes_fail(patterns, count, (total - 1) as nat);
    }
}

fn bind_axes(patterns: &Vec<SourcePattern>) -> (axes: Result<NameMap<usize>, Diagnostic>)
    ensures
        match (axes, bound_axes(patterns@, patterns@.len())) {
            (Ok(bound), Ok(expected)) => bound@ == expected,
            (Err(diagnostic), Err(expected)) => diagnostic == expected,
            _ => false,
        },
{
    let mut axes: NameMap<usize> = NameMap::new();
    let mut axis: usize = 0;
    while axis < patterns.len()
        invariant
            axis <= patterns@.len(),
            bound_axes(patterns@, axis as nat) == Ok::<Map<Seq<char>, usize>, Diagnostic>(axes@),
        decreases patterns@.len() - axis,
    {
        let pattern = &patterns[axis];
        if !matches!(pattern.kind, PatternKind::Wild) {
            let ident = match simple_pat_ident(pattern) {
                Ok(ident) => ident,
                Err(diagnostic) => {
                    proof {
                        lemma_bound_axes_fail(patterns@, (axis + 1) as nat, patterns@.len());
                    }
                    return Err(diagnostic);
                },
            };
            if axes.contains(ident.name.as_str()) {
                proof {
                    lemma_bound_axes_fail(patterns@, (axis + 1) as nat, patterns@.len());
                }
                return report(ident.span, Problem::PointNameTwice);
            }
            axes.insert(ident.name.clone(), axis);
        }
        axis += 1;
    }
    Ok(axes)
}

/// The name of the point as a whole, and the axes by name, that a pattern binds.
pub fn bind_point_pattern(pattern: &SourcePattern, rank: usize) -> (bound: Result<
    (Option<String>, NameMap<usize>),
    Diagnostic,
>)
    ensures
        match (bound, bound_point(*pattern, rank)) {
            (Ok((point, axes)), Ok((expected_point, expected_axes))) => optional_text(point)
                == expected_point && axes@ == expected_axes,
            (Err(diagnostic), Err(expected)) => diagnostic == expected,
            _ => false,
        },
{
    match simple_pat_ident(pattern) {
        Ok(ident) => Ok((Some(ident.name.clone()), NameMap::new())),
        Err(_) => match &pattern.kind {
            PatternKind::Tuple(patterns) => if patterns.len() != rank {
                report(pattern.span, Problem::PointPatternRank { axes: patterns.len(), rank })
            } else {
                match bind_axes(patterns) {
                    Ok(axes) => Ok((None, axes)),
                    Err(diagnostic) => Err(diagnostic),
                }
            },
            _ => report(pattern.span, Problem::PointPattern),
        },
    }
}

/// What the argument of a map's closure binds.
pub fn closure_bindings(
    closure: &SourceClosure,
    mode: ClosureMode,
    point_rank: Option<usize>,
) -> (bindings: Result<ClosureBindings, Diagnostic>)
    requires
        closure.inputs@.len() == 1 ==> {
            &&& mode != ClosureMode::Values(0)
            &&& mode == ClosureMode::Points ==> point_rank is Some
            &&& mode == ClosureMode::Indexed && is_pair(closure.inputs@[0]) ==> point_rank is Some
        },
    ensures
        match (bindings, bindings_of(*closure, mode, point_rank)) {
            (Ok(bound), Ok(expected)) => bound@ == expected,
            (Err(diagnostic), Err(expected)) => diagnostic == expected,
            _ => false,
        },
{
    if closure.inputs.len() != 1 {
        return report(closure.inputs_span, Problem::MapInputs);
    }
    let pattern = &closure.inputs[0];
    match mode {
        ClosureMode::Values(count) => if count == 1 {
            match simple_pat_ident(pattern) {
                Ok(ident) => {
                    let mut values: NameMap<usize> = NameMap::new();
                    values.insert(ident.name.clone(), 0);
                    Ok(ClosureBindings { values, point: None, point_axes: NameMap::new() })
                },
                Err(diagnostic) => Err(diagnostic),
            }
        } else {
            match &pattern.kind {
                PatternKind::Tuple(patterns) => if patterns.len() != count {
                    report(pattern.span, Problem::ZipPatternInputs)
                } else {
                    match bind_values(patterns) {
                        Ok(values) => Ok(
                            ClosureBindings { values, point: None, point_axes: NameMap::new() },
                        ),
                        Err(diagnostic) => Err(diagnostic),
                    }
                },
                _ => report(pattern.span, Problem::ZipPatternNotTuple),
            }
        },
        ClosureMode::Indexed => match &pattern.kind {
            PatternKind::Tuple(patterns) => if patterns.len() != 2 {
                report(pattern.span, Problem::IndexedPattern)
            } else {
                match bind_point_pattern(&patterns[0], point_rank.unwrap()) {
                    Ok((point, point_axes)) => match simple_pat_ident(&patterns[1]) {
                        Ok(ident) => {
                            let mut values: NameMap<usize> = NameMap::new();
                            values.insert(ident.name.clone(), 0);
                            Ok(ClosureBindings { values, point, point_axes })
                        },
                        Err(diagnostic) => Err(diagnostic),
                    },
                    Err(diagnostic) => Err(diagnostic),
                }
            },
            _ => report(pattern.span, Problem::IndexedPattern),
        },
        ClosureMode::Points => match bind_point_pattern(pattern, point_rank.unwrap()) {
            Ok((point, point_axes)) => Ok(
                ClosureBindings { values: NameMap::new(), point, point_axes },
            ),
            Err(diagnostic) => Err(diagnostic),
        },
    }
}

/// The scalar type that a type is.
pub open spec fn scalar_of(ty: SourceType) -> Option<ScalarType> {
    match ty.kind {
        TypeKind::Path { qualified: false, last: Some(segment) } => if segment.arguments is Absent {
            ScalarType::named(segment.name@)
        } else {
            None
        },
        _ => None,
    }
}

/// The scalar type that a type is.
pub fn parse_scalar_type(ty: &SourceType) -> (scalar: Option<ScalarType>)
    ensures
        scalar == scalar_of(*ty),
{
    match &ty.kind {
        TypeKind::Path { qualified: false, last: Some(segment) } => match &segment.arguments {
            TypeArguments::Absent => ScalarType::from_rust_name(segment.name.as_str()),
            _ => None,
        },
        _ => None,
    }
}

/// The element and the rank of a tensor type.
#[derive(Debug, Clone, Copy)]
pub struct TensorType<'a> {
    /// The tokens of the element type.
    pub element_tokens: Span,
    pub element: ScalarType,
    pub rank: &'a RankExpr,
}

/// The tensor type that a list of generic arguments gives.
pub open spec fn tensor_arguments<'a>(span: Span, arguments: &'a Vec<TypeArgument>) -> Result<
    TensorType<'a>,
    Diagnostic,
> {
    if arguments@.len() == 0 {
        problem_at(span, Problem::TensorWithoutElement)
    } else {
        match &arguments@[0] {
            TypeArgument::Type(ty) => match scalar_of(*ty) {
                Some(element) => if arguments@.len() == 1 {
                    problem_at(span, Problem::TensorWithoutRank)
                } else {
                    match &arguments@[1] {
                        TypeArgument::Const(rank) => if arguments@.len() == 2 {
                            Ok(TensorType { element_tokens: ty.span, element, rank })
                        } else {
                            problem_at(span, Problem::TensorArguments)
                        },
                        _ => problem_at(span, Problem::TensorWithoutRank),
                    }
                },
                None => problem_at(ty.span, Problem::TensorElementNotScalar),
            },
            _ => problem_at(span, Problem::TensorWithoutElement),
        }
    }
}

/// The tensor type that a list of generic arguments gives.
pub fn parse_tensor_arguments<'a>(span: Span, arguments: &'a Vec<TypeArgument>) -> (tensor: Result<
    TensorType<'a>,
    Diagnostic,
>)
    ensures
        tensor == tensor_arguments(span, arguments),
{
    if arguments.len() == 0 {
        return report(span, Problem::TensorWithoutElement);
    }
    match &arguments[0] {
        TypeArgument::Type(ty) => match parse_scalar_type(ty) {
            Some(element) => {
                if arguments.len() == 1 {
                    return report(span, Problem::TensorWithoutRank);
                }
                match &arguments[1] {
                    TypeArgument::Const(rank) => if arguments.len() == 2 {
                        Ok(TensorType { element_tokens: ty.span, element, rank })
                    } else {
                        report(span, Problem::TensorArguments)
                    },
                    _ => report(span, Problem::TensorWithoutRank),
                }
            },
            None => report(ty.span, Problem::TensorElementNotScalar),
        },
        _ => report(span, Problem::TensorWithoutElement),
    }
}

/// A type without the reference in front of it.
pub open spec fn referent<'a>(ty: &'a SourceType) -> &'a SourceType {
    match &ty.kind {
        TypeKind::Reference(inner) => &**inner,
        _ => ty,
    }
}

/// The tensor type that a type, or what it refers to, is.
pub open spec fn tensor_of<'a>(ty: &'a SourceType) -> Result<Option<TensorType<'a>>, Diagnostic> {
    match &referent(ty).kind {
        TypeKind::Path { last: Some(segment), .. } => if segment.name@ == "Tensor"@ || segment.name@
            == "UnifiedTensor"@ {
            match &segment.arguments {
                TypeArguments::AngleBracketed { span, arguments } => match tensor_arguments(
                    *span,
                    arguments,
                ) {
                    Ok(tensor) => Ok(Some(tensor)),
                    Err(diagnostic) => Err(diagnostic),
                },
                _ => problem_at(segment.span, Problem::TensorWithoutArguments),
            }
        } else {
            Ok(None)
        },
        _ => Ok(None),
    }
}

/// The tensor type that a type, or what it refers to, is.
pub fn parse_tensor_type<'a>(ty: &'a SourceType) -> (tensor: Result<
    Option<TensorType<'a>>,
    Diagnostic,
>)
    ensures
        tensor == tensor_of(ty),
{
    let ty: &'a SourceType = match &ty.kind {
        TypeKind::Reference(inner) => &**inner,
        _ => ty,
    };
    match &ty.kind {
        TypeKind::Path { last: Some(segment), .. } => {
            if !same_text(segment.name.as_str(), "Tensor") && !same_text(
                segment.name.as_str(),
                "UnifiedTensor",
            ) {
                return Ok(None);
            }
            match &segment.arguments {
                TypeArguments::AngleBracketed { span, arguments } => match parse_tensor_arguments(
                    *span,
                    arguments,
                ) {
                    Ok(tensor) => Ok(Some(tensor)),
                    Err(diagnostic) => Err(diagnostic),
                },
                _ => report(segment.span, Problem::TensorWithoutArguments),
            }
        },
        _ => Ok(None),
    }
}

/// The rank of the extent type that a type is.
pub open spec fn extent_of<'a>(ty: &'a SourceType) -> Result<Option<&'a RankExpr>, Diagnostic> {
    match &ty.kind {
        TypeKind::Path { last: Some(segment), .. } => if segment.name@ == "Extent"@ {
            match &segment.arguments {
                TypeArguments::AngleBracketed { span, arguments } => if arguments@.len() == 0 {
                    problem_at(*span, Problem::ExtentWithoutRank)
                } else {
                    match &arguments@[0] {
                        TypeArgument::Const(rank) => if arguments@.len() == 1 {
                            Ok(Some(rank))
                        } else {
                            problem_at(*span, Problem::ExtentArguments)
                        },
                        _ => problem_at(*span, Problem::ExtentWithoutRank),
                    }
                },
                _ => problem_at(segment.span, Problem::ExtentWithoutRank),
            }
        } else {
            Ok(None)
        },
        _ => Ok(None),
    }
}

/// The rank of the extent type that a type is.
pub fn parse_extent_type<'a>(ty: &'a SourceType) -> (rank: Result<Option<&'a RankExpr>, Diagnostic>)
    ensures
        rank == extent_of(ty),
{
    match &ty.kind {
        TypeKind::Path { last: Some(segment), .. } => {
            if !same_text(segment.name.as_str(), "Extent") {
                return Ok(None);
            }
            match &segment.arguments {
                TypeArguments::AngleBracketed { span, arguments } => {
                    if arguments.len() == 0 {
                        return report(*span, Problem::ExtentWithoutRank);
                    }
                    match &arguments[0] {
                        TypeArgument::Const(rank) => if arguments.len() == 1 {
                            Ok(Some(rank))
                        } else {
                            report(*span, Problem::ExtentArguments)
                        },
                        _ => report(*span, Problem::ExtentWithoutRank),
                    }
                },
                _ => report(segment.span, Problem::ExtentWithoutRank),
            }
        },
        _ => Ok(None),
    }
}

/// The integer of at most `limit` that an expression is, written as a literal.
pub open spec fn integer_of(
    expression: SourceExpr,
    limit: nat,
    otherwise: Problem,
) -> Result<usize, Diagnostic> {
    match expression.kind {
        ExprKind::Lit(literal) => match literal.kind {
            LiteralKind::Int(digits) => match number(digits@, limit) {
                Ok(value) => Ok(value as usize),
                Err(error) => problem_at(literal.span, Problem::Number(error)),
            },
            _ => problem_at(expression.span, otherwise),
        },
        _ => problem_at(expression.span, otherwise),
    }
}

/// The integer of at most `limit` that an expression is, written as a literal.
pub fn parse_integer(expression: &SourceExpr, limit: usize, otherwise: Problem) -> (value: Result<
    usize,
    Diagnostic,
>)
    ensures
        value == integer_of(*expression, limit as nat, otherwise),
        value matches Ok(value) ==> value <= limit,
{
    match &expression.kind {
        ExprKind::Lit(literal) => match &literal.kind {
            LiteralKind::Int(digits) => match parse_number(digits.as_str(), limit) {
                Ok(value) => Ok(value),
                Err(error) => report(literal.span, Problem::Number(error)),
            },
            _ => report(expression.span, otherwise),
        },
        _ => report(expression.span, otherwise),
    }
}

/// The rank that a constant is, written as a literal.
pub open spec fn literal_rank(rank: RankExpr) -> Result<usize, Diagnostic> {
    integer_of(rank.expression, usize::MAX as nat, Problem::RankNotLiteral)
}

/// The rank that a constant is, written as a literal.
pub fn rank_literal(rank: &RankExpr) -> (value: Result<usize, Diagnostic>)
    ensures
        value == literal_rank(*rank),
{
    parse_integer(&rank.expression, usize::MAX, Problem::RankNotLiteral)
}

} // verus!
