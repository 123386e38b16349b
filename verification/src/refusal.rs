//! Why a function cannot be compiled: the first thing that is wrong with it, and the tokens that it
//! is about.
use vstd::prelude::*;

use crate::complaint::{
    at, body_complaint, integer_complaint, law_refused_bodies_are_told_why,
    lemma_integer_complaint, lemma_pattern_complaint, name_span, pattern_complaint,
};
use crate::diagnostic::{ChainMethod, Diagnostic, Problem};
use crate::expand::{
    any_indexed, chain_of, domain_of, expanded, inputs_of, mode_of, output_of, parameter_of,
    parameters_of, rank_kept, scalars_of, scope_of, tensor_named, tensors_of, visible_parameters,
    ChainView, DomainView, Parameter, TensorParameter,
};
use crate::language::{
    is_integer, is_scalar_type, lemma_scalar_type, lemma_simple_name, simple_name,
};
use crate::program::{closure_of, iterator_of};
use crate::signature::{
    declared_by, ends_in_a_map, gives_points, hidden, is_iterator, is_tensor_type, keeps_the_rank,
    kind_of, law_host_locals_are_the_names_of_lets, lemma_axes, lemma_bindings, lemma_chain,
    lemma_domain, lemma_iterated, lemma_outside, lemma_parameters, lemma_point, lemma_tensor_type,
    lemma_type_names, lemma_visible, maps_elements, names_outside, pattern_of, point_rank, rank_of,
    referred, returned_rank, runs_over_points, seen_at, sources, take_coordinates,
    takes_coordinate, takes_point, takes_what_is_given, tuple_of, Kind,
};
use crate::source::{
    ExprKind, PatternKind, SourceArgument, SourceExpr, SourceFunction, SourceOutput, SourcePattern,
    SourceStatement, SourceType, Span, TypeArgument, TypeArguments, TypeKind,
};
use crate::syntax::{
    bindings_of, bound_axes, bound_point, bound_values, extent_of, sources_of, tensor_of,
};

verus! {

/// Whether a type is a path that ends in a name.
pub open spec fn is_named(ty: SourceType, name: Seq<char>) -> bool {
    ty.kind matches TypeKind::Path { last: Some(segment), .. } && segment.name@ == name
}

/// What is wrong with a tensor type.
pub open spec fn tensor_complaint(ty: SourceType) -> Diagnostic {
    let segment = referred(ty).kind->last->0;
    match segment.arguments {
        TypeArguments::AngleBracketed { span, arguments } => if arguments@.len() == 0 {
            at(span, Problem::TensorWithoutElement)
        } else {
            match arguments@[0] {
                TypeArgument::Type(element) => if !is_scalar_type(element) {
                    at(element.span, Problem::TensorElementNotScalar)
                } else if arguments@.len() == 1 || !(arguments@[1] is Const) {
                    at(span, Problem::TensorWithoutRank)
                } else {
                    at(span, Problem::TensorArguments)
                },
                _ => at(span, Problem::TensorWithoutElement),
            }
        },
        _ => at(segment.span, Problem::TensorWithoutArguments),
    }
}

/// Whether a type is meant as a tensor: it has the name of one, or refers to a type that has.
pub open spec fn means_tensor(ty: SourceType) -> bool {
    is_named(referred(ty), "Tensor"@) || is_named(referred(ty), "UnifiedTensor"@)
}

/// What is wrong with an extent type.
pub open spec fn extent_complaint(ty: SourceType) -> Diagnostic {
    let segment = ty.kind->last->0;
    match segment.arguments {
        TypeArguments::AngleBracketed { span, arguments } => if arguments@.len() == 0 || !(
        arguments@[0] is Const) {
            at(span, Problem::ExtentWithoutRank)
        } else {
            at(span, Problem::ExtentArguments)
        },
        _ => at(segment.span, Problem::ExtentWithoutRank),
    }
}

/// What is wrong with an argument of a signature.
pub open spec fn argument_complaint(argument: SourceArgument) -> Diagnostic {
    match argument {
        SourceArgument::Receiver(span) => at(span, Problem::NotFreeFunction),
        SourceArgument::Typed { pattern, ty } => if simple_name(pattern) is None {
            pattern_complaint(pattern)
        } else if means_tensor(ty) {
            tensor_complaint(ty)
        } else if is_named(ty, "Extent"@) {
            extent_complaint(ty)
        } else {
            at(ty.span, Problem::UnsupportedParameter)
        },
    }
}

/// What is wrong with the first of some arguments that declares no parameter.
pub open spec fn arguments_complaint(arguments: Seq<SourceArgument>, count: nat) -> Diagnostic
    decreases count,
{
    if count == 0 {
        arbitrary()
    } else if exists|i: int| 0 <= i < count - 1 && kind_of(#[trigger] arguments[i]) is None {
        arguments_complaint(arguments, (count - 1) as nat)
    } else {
        argument_complaint(arguments[count - 1])
    }
}

/// What is wrong with what a function returns.
pub open spec fn output_complaint(function: SourceFunction) -> Diagnostic {
    match function.output {
        SourceOutput::Unit => at(function.signature_span, Problem::OutputNotTensor),
        SourceOutput::Type(ty) => if means_tensor(ty) {
            tensor_complaint(ty)
        } else {
            at(ty.span, Problem::OutputNotTensor)
        },
    }
}

/// What is wrong with an iterator.
pub open spec fn iterator_complaint(expression: SourceExpr) -> Diagnostic
    decreases expression,
{
    match expression.kind {
        ExprKind::MethodCall { receiver, method, arguments, .. } => if (method@ == "parallel_iter"@
            || method@ == "indexed_parallel_iter"@) && arguments@.len() == 0 {
            if receiver.kind is Path {
                at(receiver.span, Problem::ReceiverNotSimple)
            } else {
                at(receiver.span, Problem::ReceiverNotParameter)
            }
        } else if method@ == "copied"@ && arguments@.len() == 0 {
            iterator_complaint(*receiver)
        } else if method@ == "zip"@ && arguments@.len() == 1 {
            if !is_iterator(*receiver) {
                iterator_complaint(*receiver)
            } else {
                iterator_complaint(arguments@[0])
            }
        } else {
            at(expression.span, Problem::UnsupportedAdapter)
        },
        _ => at(expression.span, Problem::SourceNotCall),
    }
}

/// What is wrong with an expression that should be a call of a method with so many arguments.
pub open spec fn call_complaint(expression: SourceExpr, method: ChainMethod) -> Diagnostic {
    if expression.kind is MethodCall {
        at(expression.span, Problem::ExpectedArguments(method))
    } else {
        at(expression.span, Problem::ExpectedMethod(method))
    }
}

/// Whether an expression is a call of a method with so many arguments.
pub open spec fn calls(expression: SourceExpr, name: Seq<char>, count: nat) -> bool {
    expression.kind matches ExprKind::MethodCall { method, arguments, .. } && method@ == name
        && arguments@.len() == count
}

/// What is wrong with the chain that a function should end in.
pub open spec fn chain_complaint(function: SourceFunction) -> Diagnostic {
    let statements = function.block.statements@;
    let unfinished = at(function.block.span, Problem::NotOneChain);
    if statements.len() == 0 {
        unfinished
    } else {
        match statements[statements.len() - 1] {
            SourceStatement::Expr { expression, semicolon: false } => {
                let mapped = *expression.kind->MethodCall_receiver;
                let argument = mapped.kind->MethodCall_arguments@[0];
                if !calls(expression, "collect"@, 0) {
                    call_complaint(expression, ChainMethod::Collecting)
                } else if !calls(mapped, "map"@, 1) {
                    call_complaint(mapped, ChainMethod::Mapping)
                } else if !(argument.kind is Closure) {
                    at(argument.span, Problem::MapNotClosure)
                } else if !is_iterator(iterator_of(function)) {
                    iterator_complaint(iterator_of(function))
                } else {
                    at(iterator_of(function).span, Problem::SourceCount)
                }
            },
            _ => unfinished,
        }
    }
}

/// The tokens of the names that an iterator runs over, from left to right.
pub open spec fn source_spans(expression: SourceExpr) -> Seq<Span>
    decreases expression,
{
    match expression.kind {
        ExprKind::MethodCall { receiver, method, arguments, .. } => if method@ == "zip"@
            && arguments@.len() == 1 {
            source_spans(*receiver) + source_spans(arguments@[0])
        } else if method@ == "copied"@ {
            source_spans(*receiver)
        } else {
            seq![receiver.kind->Path_0.segments@[0].span]
        },
        _ => Seq::empty(),
    }
}

/// What is wrong with a name that should be a tensor parameter.
pub open spec fn source_complaint(function: SourceFunction, index: int) -> Diagnostic {
    let name = sources(function)[index].0;
    let span = source_spans(iterator_of(function))[index];
    if hidden(function, name) || seen_at(function, Kind::Extent, name) is Some {
        at(span, Problem::ExtentNotDirect)
    } else {
        at(span, Problem::UnknownSource)
    }
}

/// What is wrong with what a function runs over.
pub open spec fn domain_complaint(function: SourceFunction) -> Diagnostic {
    let sources = sources(function);
    if seen_at(function, Kind::Tensor, sources[0].0) is None {
        source_complaint(function, 0)
    } else if sources.len() == 2 && seen_at(function, Kind::Tensor, sources[1].0) is None {
        source_complaint(function, 1)
    } else {
        at(iterator_of(function).span, Problem::IndexedZip)
    }
}

/// What is wrong with the ranks of a function.
pub open spec fn rank_complaint(function: SourceFunction) -> Diagnostic {
    if returned_rank(function).text@ != rank_of(function).text@ {
        at(function.output_span, Problem::OutputRank)
    } else {
        let place = seen_at(function, Kind::Tensor, sources(function)[1].0)->0;
        at(name_span(function.inputs@[place]->Typed_pattern), Problem::ZipRank)
    }
}

/// What is wrong with the first of some patterns that should take coordinates.
pub open spec fn coordinates_complaint(patterns: Seq<SourcePattern>, count: nat) -> Diagnostic
    decreases count,
{
    if count == 0 {
        arbitrary()
    } else if !take_coordinates(patterns, (count - 1) as nat) {
        coordinates_complaint(patterns, (count - 1) as nat)
    } else if !takes_coordinate(patterns[count - 1]) {
        pattern_complaint(patterns[count - 1])
    } else {
        at(name_span(patterns[count - 1]), Problem::PointNameTwice)
    }
}

/// What is wrong with a pattern that should take a point.
pub open spec fn point_complaint(pattern: SourcePattern, rank: usize) -> Diagnostic {
    match pattern.kind {
        PatternKind::Tuple(patterns) => if patterns@.len() != rank {
            at(
                pattern.span,
                Problem::PointPatternRank { axes: patterns@.len() as usize, rank },
            )
        } else {
            coordinates_complaint(patterns@, patterns@.len())
        },
        _ => at(pattern.span, Problem::PointPattern),
    }
}

/// What is wrong with the arguments of a closure.
pub open spec fn taking_complaint(function: SourceFunction) -> Diagnostic {
    let pattern = pattern_of(function);
    let patterns = tuple_of(function);
    let rank = point_rank(function)->0;
    if closure_of(function).inputs@.len() != 1 {
        at(closure_of(function).inputs_span, Problem::MapInputs)
    } else if runs_over_points(function) {
        point_complaint(pattern, rank)
    } else if gives_points(function) {
        if !(pattern.kind is Tuple) || patterns.len() != 2 {
            at(pattern.span, Problem::IndexedPattern)
        } else if !takes_point(patterns[0], rank as nat) {
            point_complaint(patterns[0], rank)
        } else {
            pattern_complaint(patterns[1])
        }
    } else if sources(function).len() == 1 {
        pattern_complaint(pattern)
    } else if !(pattern.kind is Tuple) {
        at(pattern.span, Problem::ZipPatternNotTuple)
    } else if patterns.len() != 2 {
        at(pattern.span, Problem::ZipPatternInputs)
    } else if simple_name(patterns[0]) is None {
        pattern_complaint(patterns[0])
    } else {
        pattern_complaint(patterns[1])
    }
}

/// What is wrong with a function: the signature is read before the chain, the chain before its
/// ranks, and these before the closure.
pub open spec fn refusal(function: SourceFunction) -> Diagnostic {
    let count = function.inputs@.len();
    match (function.constness, function.asyncness) {
        (Some(span), _) => at(span, Problem::ConstFunction),
        (None, Some(span)) => at(span, Problem::AsyncFunction),
        _ => if exists|i: int|
            0 <= i < count && kind_of(#[trigger] function.inputs@[i]) is None {
            arguments_complaint(function.inputs@, count)
        } else if !(function.output is Type) || !is_tensor_type(function.output->Type_0) {
            output_complaint(function)
        } else if !ends_in_a_map(function) || !is_iterator(iterator_of(function)) || !(1 <= sources(
            function,
        ).len() <= 2) {
            chain_complaint(function)
        } else if !runs_over_points(function) && !maps_elements(function) {
            domain_complaint(function)
        } else if !keeps_the_rank(function) {
            rank_complaint(function)
        } else if gives_points(function) && !is_integer(
            rank_of(function).expression,
            usize::MAX as nat,
        ) {
            integer_complaint(
                rank_of(function).expression,
                usize::MAX as nat,
                Problem::RankNotLiteral,
            )
        } else if !takes_what_is_given(function) {
            taking_complaint(function)
        } else {
            body_complaint(*closure_of(function).body, names_outside(function))
        },
    }
}

proof fn lemma_tensor_complaint(ty: SourceType)
    ensures
        tensor_of(&ty) matches Err(diagnostic) ==> means_tensor(ty) && diagnostic
            == tensor_complaint(ty),
        (tensor_of(&ty) matches Ok(None)) <==> !means_tensor(ty),
{
    if let TypeKind::Path { last: Some(segment), .. } = referred(ty).kind {
        if let TypeArguments::AngleBracketed { arguments, .. } = segment.arguments {
            if arguments@.len() > 0 {
                if let TypeArgument::Type(element) = arguments@[0] {
                    lemma_scalar_type(element);
                }
            }
        }
    }
}

proof fn lemma_extent_complaint(ty: SourceType)
    ensures
        extent_of(&ty) matches Err(diagnostic) ==> is_named(ty, "Extent"@) && diagnostic
            == extent_complaint(ty),
        (extent_of(&ty) matches Ok(None)) <==> !is_named(ty, "Extent"@),
{
}

proof fn lemma_argument_complaint<'a>(argument: &'a SourceArgument)
    ensures
        parameter_of(argument) matches Err(diagnostic) ==> diagnostic == argument_complaint(
            *argument,
        ),
{
    if let SourceArgument::Typed { pattern, ty } = argument {
        lemma_simple_name(*pattern);
        lemma_pattern_complaint(*pattern);
        lemma_tensor_complaint(*ty);
        lemma_extent_complaint(*ty);
        lemma_type_names(Seq::empty());
    }
}

proof fn lemma_arguments_complaint<'a>(function: &'a SourceFunction, count: nat)
    requires
        count <= function.inputs@.len(),
    ensures
        parameters_of::<'a>(function.inputs@, count) matches Err(diagnostic) ==> diagnostic
            == arguments_complaint(function.inputs@, count),
    decreases count,
{
    if count > 0 {
        let previous = (count - 1) as nat;
        lemma_arguments_complaint(function, previous);
        lemma_parameters(function, previous);
        lemma_argument_complaint(&function.inputs@[count - 1]);
        assert(parameters_of::<'a>(function.inputs@, previous) is Err <==> exists|i: int|
            0 <= i < previous && kind_of(#[trigger] function.inputs@[i]) is None);
    }
}

proof fn lemma_iterator_complaint<'a>(expression: &'a SourceExpr)
    ensures
        sources_of(expression) matches Err(diagnostic) ==> diagnostic == iterator_complaint(
            *expression,
        ),
        sources_of(expression) matches Ok(sources) ==> {
            let spans = source_spans(*expression);
            &&& sources.len() == spans.len()
            &&& forall|i: int|
                0 <= i < sources.len() ==> spans[i] == (#[trigger] sources[i]).ident.span
        },
    decreases expression,
{
    reveal_strlit("zip");
    reveal_strlit("copied");
    reveal_strlit("parallel_iter");
    reveal_strlit("indexed_parallel_iter");
    assert("zip"@.len() == 3);
    assert("copied"@.len() == 6);
    assert("parallel_iter"@.len() == 13);
    assert("indexed_parallel_iter"@.len() == 21);
    if let ExprKind::MethodCall { receiver, method, arguments, .. } = &expression.kind {
        if method@ == "copied"@ && arguments@.len() == 0 {
            lemma_iterator_complaint(&**receiver);
        } else if method@ == "zip"@ && arguments@.len() == 1 {
            lemma_iterated(&**receiver);
            lemma_iterator_complaint(&**receiver);
            lemma_iterator_complaint(&arguments@[0]);
        }
    }
}

proof fn lemma_chain_complaint<'a>(function: &'a SourceFunction)
    ensures
        chain_of(&function.block) matches Err(diagnostic) ==> diagnostic == chain_complaint(
            *function,
        ),
        chain_of(&function.block) matches Ok(chain) ==> {
            let spans = source_spans(iterator_of(*function));
            &&& chain.sources_span == iterator_of(*function).span
            &&& chain.sources.len() == spans.len()
            &&& forall|i: int|
                0 <= i < chain.sources.len() ==> spans[i] == (
                #[trigger] chain.sources[i]).ident.span
        },
{
    let statements = function.block.statements@;
    if statements.len() > 0 {
        if let SourceStatement::Expr { expression, semicolon: false } = &statements[statements.len()
            - 1] {
            if calls(*expression, "collect"@, 0) {
                let mapped = &*expression.kind->MethodCall_receiver;
                if calls(*mapped, "map"@, 1) {
                    lemma_iterated(&*mapped.kind->MethodCall_receiver);
                    lemma_iterator_complaint(&*mapped.kind->MethodCall_receiver);
                }
            }
        }
    }
}

proof fn lemma_coordinates_complaint(patterns: Seq<SourcePattern>, count: nat)
    requires
        count <= patterns.len() <= usize::MAX,
    ensures
        bound_axes(patterns, count) matches Err(diagnostic) ==> diagnostic == coordinates_complaint(
            patterns,
            count,
        ),
    decreases count,
{
    if count > 0 {
        let previous = (count - 1) as nat;
        lemma_coordinates_complaint(patterns, previous);
        lemma_axes(patterns, previous);
        lemma_simple_name(patterns[count - 1]);
        lemma_pattern_complaint(patterns[count - 1]);
    }
}

proof fn lemma_point_complaint(pattern: SourcePattern, rank: usize)
    ensures
        bound_point(pattern, rank) matches Err(diagnostic) ==> diagnostic == point_complaint(
            pattern,
            rank,
        ),
{
    lemma_simple_name(pattern);
    if let PatternKind::Tuple(patterns) = pattern.kind {
        assert(patterns@.len() == patterns.len());
        lemma_coordinates_complaint(patterns@, patterns@.len());
    }
}

proof fn lemma_domain_complaint<'a>(function: &'a SourceFunction)
    requires
        parameters_of::<'a>(function.inputs@, function.inputs@.len()) is Ok,
        output_of(function) is Ok,
        chain_of(&function.block) is Ok,
    ensures
        ({
            let parameters = parameters_of::<'a>(function.inputs@, function.inputs@.len())->Ok_0;
            let visible = visible_parameters(parameters, function.block);
            domain_of(
                chain_of(&function.block)->Ok_0,
                visible,
                function.block,
                output_of(function)->Ok_0,
            ) matches Err(diagnostic) ==> diagnostic == domain_complaint(*function)
        }),
{
    let count = function.inputs@.len();
    let parameters = parameters_of::<'a>(function.inputs@, count)->Ok_0;
    let chain = chain_of(&function.block)->Ok_0;
    let visible = visible_parameters(parameters, function.block);
    let block = function.block;
    lemma_chain(function);
    lemma_chain_complaint(function);
    let first = chain.sources[0].ident.name@;
    assert(sources(*function)[0] == (first, chain.sources[0].indexed));
    assert(source_spans(iterator_of(*function))[0] == chain.sources[0].ident.span);
    lemma_visible(function, count, first);
    law_host_locals_are_the_names_of_lets(*function, first);
    assert(inputs_of(chain.sources, visible, block, 0) == Ok::<
        Seq<TensorParameter<'a>>,
        Diagnostic,
    >(Seq::empty()));
    let one = inputs_of(chain.sources, visible, block, 1);
    assert(one is Ok <==> tensor_named(visible, first) is Some);
    assert(one matches Err(diagnostic) ==> diagnostic == source_complaint(*function, 0));
    if chain.sources.len() == 2 {
        let second = chain.sources[1].ident.name@;
        assert(sources(*function)[1] == (second, chain.sources[1].indexed));
        assert(source_spans(iterator_of(*function))[1] == chain.sources[1].ident.span);
        lemma_visible(function, count, second);
        law_host_locals_are_the_names_of_lets(*function, second);
        let two = inputs_of(chain.sources, visible, block, 2);
        assert(two is Ok <==> one is Ok && tensor_named(visible, second) is Some);
        assert(one is Ok ==> (two matches Err(diagnostic) ==> diagnostic == source_complaint(
            *function,
            1,
        )));
    }
}

proof fn lemma_taking_complaint<'a>(
    function: &'a SourceFunction,
    chain: ChainView<'a>,
    domain: DomainView<'a>,
)
    requires
        chain_of(&function.block) == Ok::<ChainView<'a>, Diagnostic>(chain),
        domain.extent is Some <==> runs_over_points(*function),
        any_indexed(chain.sources) <==> sources(*function)[0].1 || (sources(*function).len() == 2
            && sources(*function)[1].1),
        runs_over_points(*function) || maps_elements(*function),
    ensures
        bindings_of(
            *chain.closure,
            mode_of(chain, domain),
            point_rank(*function),
        ) matches Err(diagnostic) ==> diagnostic == taking_complaint(*function),
{
    let pattern = pattern_of(*function);
    let rank = point_rank(*function);
    lemma_chain(function);
    assert(chain.sources.len() <= usize::MAX);
    lemma_simple_name(pattern);
    lemma_pattern_complaint(pattern);
    if rank is Some {
        lemma_point_complaint(pattern, rank->0);
    }
    if let PatternKind::Tuple(patterns) = pattern.kind {
        if patterns@.len() == 2 {
            lemma_simple_name(patterns@[0]);
            lemma_simple_name(patterns@[1]);
            lemma_pattern_complaint(patterns@[0]);
            lemma_pattern_complaint(patterns@[1]);
            if rank is Some {
                lemma_point(patterns@[0], rank->0);
                lemma_point_complaint(patterns@[0], rank->0);
            }
            reveal_with_fuel(bound_values, 3);
        }
    }
}

/// A function that cannot be compiled is refused for the first thing that is wrong with it, and the
/// diagnostic points at the tokens of that thing.
pub proof fn law_refused_functions_are_told_why<'a>(function: &'a SourceFunction)
    ensures
        expanded(function) matches Err(diagnostic) ==> diagnostic == refusal(*function),
{
    let count = function.inputs@.len();
    lemma_parameters(function, count);
    lemma_arguments_complaint(function, count);
    if let SourceOutput::Type(ty) = function.output {
        lemma_tensor_type(ty);
        lemma_tensor_complaint(ty);
    }
    lemma_chain(function);
    lemma_chain_complaint(function);
    let parameters = parameters_of::<'a>(function.inputs@, count);
    let output = output_of(function);
    let chain = chain_of(&function.block);
    assert(parameters is Err <==> exists|i: int|
        0 <= i < count && kind_of(#[trigger] function.inputs@[i]) is None);
    assert(output is Ok <==> function.output is Type && is_tensor_type(function.output->Type_0));
    assert(output matches Err(diagnostic) ==> diagnostic == output_complaint(*function));
    if parameters is Ok && output is Ok && chain is Ok {
        let chain = chain->Ok_0;
        let output = output->Ok_0;
        let visible = visible_parameters(parameters->Ok_0, function.block);
        lemma_domain(function);
        lemma_domain_complaint(function);
        if let Ok(domain) = domain_of(chain, visible, function.block, output) {
            lemma_bindings(function, chain, domain);
            lemma_taking_complaint(function, chain, domain);
            let kept = rank_kept(domain, output, function.output_span);
            if domain.inputs.len() == 2 {
                let place = seen_at(*function, Kind::Tensor, sources(*function)[1].0);
                assert(declared_by(
                    Parameter::Tensor(domain.inputs[1]),
                    function.inputs@[place->0],
                ));
            }
            assert(kept is Ok <==> keeps_the_rank(*function));
            assert(kept matches Err(diagnostic) ==> diagnostic == rank_complaint(*function));
            lemma_integer_complaint(
                rank_of(*function).expression,
                usize::MAX as nat,
                Problem::RankNotLiteral,
            );
            let mode = mode_of(chain, domain);
            let rank = point_rank(*function);
            if let Ok(bindings) = bindings_of(*chain.closure, mode, rank) {
                let scalars = scalars_of(visible);
                let tensors = tensors_of(visible);
                let scope = scope_of(bindings, domain, rank, scalars, tensors, output);
                lemma_outside(function, bindings, domain);
                law_refused_bodies_are_told_why(*chain.closure.body, scope);
            }
        }
    }
}

} // verus!
