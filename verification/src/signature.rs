//! Which functions can be compiled, read from their syntax, and what is taken from their
//! parameters.
use vstd::prelude::*;

use crate::complaint::{lemma_pattern_complaint, name_span};
use crate::diagnostic::{Diagnostic, Problem};
use crate::expand::{
    any_indexed, chain_of, domain_of, expanded, extent_named, inputs_of, known_rank, mode_of,
    output_of, parameter_name, parameter_of, parameters_of, point_rank_of, rank_kept, scalar_map,
    scalars_of, scope_of, tensor_map, tensor_named, tensors_of, visible_parameters, ChainView,
    DomainView, Parameter, ScalarParameter, TensorParameter,
};
use crate::host::{any_binds, binds, declares, host_part, is_host_local};
use crate::language::{
    integer, is_integer, is_name, is_scalar_type, law_the_language_is_lowered, lemma_is_integer,
    lemma_scalar_type, lemma_simple_name, outside, simple_name, supported_body, Outside,
};
use crate::meaning::{element_type, lemma_metal_name, metal_name, metal_type, output_type};
use crate::names::{law_texts_tell_names_apart, sanitized};
use crate::program::{closure_of, iterator_of};
use crate::scoping::visible_tensors;
use crate::source::{
    ExprKind, PatternKind, RankExpr, SourceArgument, SourceExpr, SourceFunction, SourceOutput,
    SourcePattern, SourceStatement, SourceType, TypeArgument, TypeArguments, TypeKind,
};
use crate::syntax::{
    bindings_of, bound_axes, bound_point, bound_values, extent_of, scalar_of, sources_of,
    tensor_of, ClosureBindingsView,
};

verus! {

/// What a type refers to, where it is a reference.
pub open spec fn referred(ty: SourceType) -> SourceType {
    match ty.kind {
        TypeKind::Reference(inner) => *inner,
        _ => ty,
    }
}

/// The generic arguments of a path that ends in a name.
pub open spec fn generics(ty: SourceType) -> Seq<TypeArgument> {
    ty.kind->last->0.arguments->AngleBracketed_arguments@
}

/// Whether a type is a path that ends in a name with generic arguments.
pub open spec fn is_generic(ty: SourceType, name: Seq<char>) -> bool {
    match ty.kind {
        TypeKind::Path { last: Some(segment), .. } => segment.name@ == name
            && segment.arguments is AngleBracketed,
        _ => false,
    }
}

/// Whether a type is a tensor, or refers to one: a scalar element type and a rank.
pub open spec fn is_tensor_type(ty: SourceType) -> bool {
    let tensor = referred(ty);
    &&& is_generic(tensor, "Tensor"@) || is_generic(tensor, "UnifiedTensor"@)
    &&& generics(tensor).len() == 2
    &&& generics(tensor)[0] matches TypeArgument::Type(element) && is_scalar_type(element)
    &&& generics(tensor)[1] is Const
}

/// The rank of a tensor type.
pub open spec fn tensor_rank(ty: SourceType) -> RankExpr {
    generics(referred(ty))[1]->Const_0
}

/// Whether a type is an extent: a rank.
pub open spec fn is_extent_type(ty: SourceType) -> bool {
    &&& is_generic(ty, "Extent"@)
    &&& generics(ty).len() == 1
    &&& generics(ty)[0] is Const
}

/// The rank of an extent type.
pub open spec fn extent_rank(ty: SourceType) -> RankExpr {
    generics(ty)[0]->Const_0
}

/// What a parameter is.
pub ghost enum Kind {
    Tensor,
    Extent,
    Scalar,
}

/// What an argument of a signature declares, by its type.
pub open spec fn kind_of(argument: SourceArgument) -> Option<Kind> {
    match argument {
        SourceArgument::Typed { pattern, ty } => if simple_name(pattern) is None {
            None
        } else if is_tensor_type(ty) {
            Some(Kind::Tensor)
        } else if is_extent_type(ty) {
            Some(Kind::Extent)
        } else if is_scalar_type(ty) {
            Some(Kind::Scalar)
        } else {
            None
        },
        SourceArgument::Receiver(_) => None,
    }
}

/// The name of an argument of a signature.
pub open spec fn argument_name(argument: SourceArgument) -> Seq<char> {
    match simple_name(argument->Typed_pattern) {
        Some((name, _)) => name,
        None => Seq::empty(),
    }
}

/// Whether a parameter is what an argument of a signature declares.
pub open spec fn declared_by<'a>(parameter: Parameter<'a>, argument: SourceArgument) -> bool {
    let ty = argument->Typed_ty;
    match parameter {
        Parameter::Tensor(tensor) => {
            &&& kind_of(argument) == Some(Kind::Tensor)
            &&& tensor.ident.name@ == argument_name(argument)
            &&& tensor.ident.span == name_span(argument->Typed_pattern)
            &&& tensor.ty.element.msl_text() == element_type(ty)
            &&& *tensor.ty.rank == tensor_rank(ty)
        },
        Parameter::Extent(extent) => {
            &&& kind_of(argument) == Some(Kind::Extent)
            &&& extent.ident.name@ == argument_name(argument)
            &&& extent.ident.span == name_span(argument->Typed_pattern)
            &&& *extent.rank == extent_rank(ty)
        },
        Parameter::Scalar(scalar) => {
            &&& kind_of(argument) == Some(Kind::Scalar)
            &&& scalar.ident.name@ == argument_name(argument)
            &&& scalar.ident.span == name_span(argument->Typed_pattern)
            &&& scalar.ty.msl_text() == metal_type(ty)
        },
    }
}

/// A type is taken as a tensor where it is one.
pub proof fn lemma_tensor_type(ty: SourceType)
    ensures
        (tensor_of(&ty) matches Ok(Some(_))) <==> is_tensor_type(ty),
        tensor_of(&ty) matches Ok(Some(tensor)) ==> tensor.element.msl_text() == element_type(ty)
            && *tensor.rank == tensor_rank(ty),
{
    if let TypeKind::Path { last: Some(segment), .. } = referred(ty).kind {
        if let TypeArguments::AngleBracketed { arguments, .. } = segment.arguments {
            if arguments@.len() > 0 {
                if let TypeArgument::Type(element) = arguments@[0] {
                    lemma_scalar_type(element);
                    if scalar_of(element) is Some {
                        lemma_metal_name(element.kind->last->0.name@);
                    }
                }
            }
        }
    }
}

proof fn lemma_extent_type(ty: SourceType)
    ensures
        (extent_of(&ty) matches Ok(Some(_))) <==> is_extent_type(ty),
        extent_of(&ty) matches Ok(Some(rank)) ==> *rank == extent_rank(ty),
{
}

/// The names of tensors and of extents are not those of scalars, nor of one another.
pub proof fn lemma_type_names(name: Seq<char>)
    ensures
        "Tensor"@ != "Extent"@,
        "UnifiedTensor"@ != "Extent"@,
        ({
            ||| name == "Tensor"@
            ||| name == "UnifiedTensor"@
            ||| name == "Extent"@
        }) ==> metal_name(name).len() == 0,
{
    reveal_strlit("Tensor");
    reveal_strlit("UnifiedTensor");
    reveal_strlit("Extent");
    assert("Tensor"@[0] == 'T' && "Extent"@[0] == 'E' && "UnifiedTensor"@[0] == 'U');
    reveal_strlit("f32");
    reveal_strlit("i8");
    reveal_strlit("i16");
    reveal_strlit("i32");
    reveal_strlit("i64");
    reveal_strlit("u8");
    reveal_strlit("u16");
    reveal_strlit("u32");
    reveal_strlit("u64");
    assert("Tensor"@.len() == 6 && "Extent"@.len() == 6 && "UnifiedTensor"@.len() == 13);
}

/// A parameter is found where an argument declares one.
pub proof fn lemma_parameter<'a>(argument: &'a SourceArgument)
    ensures
        parameter_of(argument) is Ok <==> kind_of(*argument) is Some,
        parameter_of(argument) matches Ok(parameter) ==> declared_by(parameter, *argument),
{
    if let SourceArgument::Typed { pattern, ty } = argument {
        lemma_simple_name(*pattern);
        lemma_pattern_complaint(*pattern);
        lemma_tensor_type(*ty);
        lemma_extent_type(*ty);
        lemma_scalar_type(*ty);
        if scalar_of(*ty) is Some {
            lemma_metal_name(ty.kind->last->0.name@);
        }
        if let TypeKind::Path { last: Some(segment), .. } = ty.kind {
            lemma_type_names(segment.name@);
        }
        if let TypeKind::Path { last: Some(segment), .. } = referred(*ty).kind {
            lemma_type_names(segment.name@);
        }
    }
}

/// The names in a pattern.
pub open spec fn names_in(pattern: SourcePattern) -> Set<Seq<char>>
    decreases pattern,
{
    match pattern.kind {
        PatternKind::Ident { ident, subpattern, .. } => match subpattern {
            Some(subpattern) => names_in(*subpattern).insert(ident.name@),
            None => Set::empty().insert(ident.name@),
        },
        PatternKind::Reference(inner) => names_in(*inner),
        PatternKind::Paren(inner) => names_in(*inner),
        PatternKind::Typed { pattern: inner, .. } => names_in(*inner),
        PatternKind::Tuple(patterns) => names_in_any(patterns@),
        PatternKind::Wild => Set::empty(),
        PatternKind::Other(patterns) => names_in_any(patterns@),
    }
}

/// The names in patterns.
pub open spec fn names_in_any(patterns: Seq<SourcePattern>) -> Set<Seq<char>>
    decreases patterns,
{
    if patterns.len() == 0 {
        Set::empty()
    } else {
        names_in_any(patterns.drop_last()).union(names_in(patterns.last()))
    }
}

/// Whether a `let` before the chain of a function takes a name.
pub open spec fn hidden(function: SourceFunction, name: Seq<char>) -> bool {
    exists|i: int|
        0 <= i < function.block.statements@.len() - 1 && (#[trigger] function.block.statements@[i]
            matches SourceStatement::Local(local) && names_in(local.pattern).contains(name))
}

proof fn lemma_names_in(pattern: SourcePattern, name: Seq<char>)
    ensures
        binds(pattern, name) <==> names_in(pattern).contains(name),
    decreases pattern,
{
    match pattern.kind {
        PatternKind::Ident { subpattern, .. } => {
            if let Some(subpattern) = subpattern {
                lemma_names_in(*subpattern, name);
            }
        },
        PatternKind::Reference(inner) => lemma_names_in(*inner, name),
        PatternKind::Paren(inner) => lemma_names_in(*inner, name),
        PatternKind::Typed { pattern: inner, .. } => lemma_names_in(*inner, name),
        PatternKind::Tuple(patterns) => lemma_names_in_any(patterns@, name),
        PatternKind::Wild => {},
        PatternKind::Other(patterns) => lemma_names_in_any(patterns@, name),
    }
}

proof fn lemma_names_in_any(patterns: Seq<SourcePattern>, name: Seq<char>)
    ensures
        any_binds(patterns, name) <==> names_in_any(patterns).contains(name),
    decreases patterns,
{
    if patterns.len() > 0 {
        lemma_names_in_any(patterns.drop_last(), name);
        lemma_names_in(patterns.last(), name);
    }
}

/// A name is a local of the host statements exactly where a `let` before the chain takes it.
pub proof fn law_host_locals_are_the_names_of_lets(function: SourceFunction, name: Seq<char>)
    ensures
        is_host_local(function.block, name) <==> hidden(function, name),
{
    let statements = function.block.statements@;
    let before = host_part(function.block);
    if is_host_local(function.block, name) {
        let i = choose|i: int| 0 <= i < before.len() && declares(#[trigger] before[i], name);
        assert(statements[i] == before[i]);
        lemma_names_in(before[i]->Local_0.pattern, name);
    }
    if hidden(function, name) {
        let i = choose|i: int|
            0 <= i < statements.len() - 1 && (#[trigger] statements[i]
                matches SourceStatement::Local(local) && names_in(local.pattern).contains(name));
        assert(statements[i] == before[i]);
        lemma_names_in(before[i]->Local_0.pattern, name);
    }
}

/// Whether the chain of a function sees an argument as a parameter of a kind.
pub open spec fn sees(function: SourceFunction, kind: Kind, index: int) -> bool {
    &&& kind_of(function.inputs@[index]) == Some(kind)
    &&& !hidden(function, argument_name(function.inputs@[index]))
}

/// The places of the arguments of a kind that the chain of a function sees, among the first of the
/// signature.
pub open spec fn seen_places(function: SourceFunction, kind: Kind, count: nat) -> Seq<int>
    decreases count,
{
    if count == 0 {
        Seq::empty()
    } else {
        let before = seen_places(function, kind, (count - 1) as nat);
        if sees(function, kind, count - 1) {
            before.push(count - 1)
        } else {
            before
        }
    }
}

/// The place of the last argument of a kind and a name that the chain of a function sees, among
/// the first of the signature.
pub open spec fn place_of(
    function: SourceFunction,
    kind: Kind,
    name: Seq<char>,
    count: nat,
) -> Option<int>
    decreases count,
{
    if count == 0 {
        None
    } else if sees(function, kind, count - 1) && argument_name(function.inputs@[count - 1])
        == name {
        Some(count - 1)
    } else {
        place_of(function, kind, name, (count - 1) as nat)
    }
}

/// Parameters are found where each argument declares one.
pub proof fn lemma_parameters<'a>(function: &'a SourceFunction, count: nat)
    requires
        count <= function.inputs@.len(),
    ensures
        parameters_of(function.inputs@, count) is Ok <==> forall|i: int|
            0 <= i < count ==> kind_of(#[trigger] function.inputs@[i]) is Some,
        parameters_of::<'a>(function.inputs@, count) matches Ok(parameters) ==> {
            &&& parameters.len() == count
            &&& forall|i: int|
                0 <= i < count ==> declared_by(#[trigger] parameters[i], function.inputs@[i])
        },
    decreases count,
{
    if count > 0 {
        lemma_parameters(function, (count - 1) as nat);
        lemma_parameter(&function.inputs@[count - 1]);
        if parameters_of::<'a>(function.inputs@, (count - 1) as nat) is Err {
            let i = choose|i: int|
                0 <= i < count - 1 && !(kind_of(#[trigger] function.inputs@[i]) is Some);
            assert(kind_of(function.inputs@[i]) is None);
        }
    }
}

/// Whether scalar parameters are the arguments at some places, one for each.
pub open spec fn scalars_from<'a>(
    scalars: Seq<ScalarParameter<'a>>,
    function: SourceFunction,
    places: Seq<int>,
) -> bool {
    &&& scalars.len() == places.len()
    &&& forall|i: int|
        0 <= i < scalars.len() ==> {
            let argument = function.inputs@[places[i]];
            &&& (#[trigger] scalars[i]).ident.name@ == argument_name(argument)
            &&& scalars[i].ty.msl_text() == metal_type(argument->Typed_ty)
        }
}

/// Whether tensor parameters are the arguments at some places, one for each.
pub open spec fn tensors_from<'a>(
    tensors: Seq<TensorParameter<'a>>,
    function: SourceFunction,
    places: Seq<int>,
) -> bool {
    &&& tensors.len() == places.len()
    &&& forall|i: int|
        0 <= i < tensors.len() ==> {
            let argument = function.inputs@[places[i]];
            &&& (#[trigger] tensors[i]).ident.name@ == argument_name(argument)
            &&& tensors[i].ty.element.msl_text() == element_type(argument->Typed_ty)
            &&& *tensors[i].ty.rank == tensor_rank(argument->Typed_ty)
        }
}

/// What the chain of a function sees is found among its parameters.
pub proof fn lemma_visible<'a>(function: &'a SourceFunction, count: nat, name: Seq<char>)
    requires
        count <= function.inputs@.len(),
        parameters_of::<'a>(function.inputs@, count) is Ok,
    ensures
        ({
            let parameters = parameters_of::<'a>(function.inputs@, count)->Ok_0;
            let visible = visible_parameters(parameters, function.block);
            let tensor = tensor_named(visible, name);
            let extent = extent_named(visible, name);
            &&& scalars_from(
                scalars_of(visible),
                *function,
                seen_places(*function, Kind::Scalar, count),
            )
            &&& tensors_from(
                tensors_of(visible),
                *function,
                seen_places(*function, Kind::Tensor, count),
            )
            &&& match place_of(*function, Kind::Tensor, name, count) {
                Some(place) => tensor matches Some(tensor) && declared_by(
                    Parameter::Tensor(tensor),
                    function.inputs@[place],
                ),
                None => tensor is None,
            }
            &&& match place_of(*function, Kind::Extent, name, count) {
                Some(place) => extent matches Some(extent) && declared_by(
                    Parameter::Extent(extent),
                    function.inputs@[place],
                ),
                None => extent is None,
            }
            &&& scalar_map(scalars_of(visible)).dom().contains(name) <==> place_of(
                *function,
                Kind::Scalar,
                name,
                count,
            ) is Some
            &&& tensor_map(tensors_of(visible)).dom().contains(name) <==> tensor is Some
            &&& tensor matches Some(tensor) ==> tensor_map(tensors_of(visible))[name].rank
                == known_rank(*tensor.ty.rank)
        }),
    decreases count,
{
    if count > 0 {
        let previous = (count - 1) as nat;
        let parameters = parameters_of::<'a>(function.inputs@, count)->Ok_0;
        let before = parameters_of::<'a>(function.inputs@, previous)->Ok_0;
        lemma_visible(function, previous, name);
        lemma_parameters(function, count);
        assert(parameters.drop_last() =~= before);
        let last = parameters[count - 1];
        assert(declared_by(last, function.inputs@[count - 1]));
        law_host_locals_are_the_names_of_lets(*function, parameter_name(last));
        let visible = visible_parameters(before, function.block);
        assert(visible.push(last).drop_last() =~= visible);
        if let Parameter::Scalar(scalar) = last {
            let scalars = scalars_of(visible);
            assert(scalars.push(scalar).drop_last() =~= scalars);
        }
        if let Parameter::Tensor(tensor) = last {
            let tensors = tensors_of(visible);
            assert(tensors.push(tensor).drop_last() =~= tensors);
        }
    }
}

/// The scalars of a compiled function and the tensors that its chain sees are the arguments of
/// those types, with their names and types, in the order of the signature, without those whose name
/// a `let` before the chain takes.
pub proof fn law_parameters_follow_the_signature<'a>(function: &'a SourceFunction)
    ensures
        expanded(function) matches Ok(expansion) ==> {
            let count = function.inputs@.len();
            &&& scalars_from(
                expansion.scalars,
                *function,
                seen_places(*function, Kind::Scalar, count),
            )
            &&& tensors_from(
                visible_tensors(function),
                *function,
                seen_places(*function, Kind::Tensor, count),
            )
        },
{
    if expanded(function) is Ok {
        lemma_visible(function, function.inputs@.len(), Seq::empty());
    }
}

/// Whether an expression is an iterator over tensors, or over the points of an extent.
pub open spec fn is_iterator(expression: SourceExpr) -> bool
    decreases expression,
{
    match expression.kind {
        ExprKind::MethodCall { receiver, method, arguments, .. } => {
            ||| method@ == "parallel_iter"@ && arguments@.len() == 0 && is_name(*receiver)
            ||| method@ == "indexed_parallel_iter"@ && arguments@.len() == 0 && is_name(*receiver)
            ||| method@ == "copied"@ && arguments@.len() == 0 && is_iterator(*receiver)
            ||| method@ == "zip"@ && arguments@.len() == 1 && is_iterator(*receiver) && is_iterator(
                arguments@[0],
            )
        },
        _ => false,
    }
}

/// What an iterator runs over, from left to right: the names, each with whether its points are
/// given too.
pub open spec fn iterated(expression: SourceExpr) -> Seq<(Seq<char>, bool)>
    decreases expression,
{
    match expression.kind {
        ExprKind::MethodCall { receiver, method, arguments, .. } => if method@ == "zip"@
            && arguments@.len() == 1 {
            iterated(*receiver) + iterated(arguments@[0])
        } else if method@ == "copied"@ {
            iterated(*receiver)
        } else {
            seq![
                (
                    receiver.kind->Path_0.segments@[0].name@,
                    method@ == "indexed_parallel_iter"@,
                ),
            ]
        },
        _ => Seq::empty(),
    }
}

/// The sources of an iterator are what it runs over.
pub proof fn lemma_iterated<'a>(expression: &'a SourceExpr)
    ensures
        sources_of(expression) is Ok <==> is_iterator(*expression),
        sources_of(expression) matches Ok(sources) ==> {
            let names = iterated(*expression);
            &&& sources.len() == names.len()
            &&& forall|i: int|
                0 <= i < sources.len() ==> names[i] == (
                    (#[trigger] sources[i]).ident.name@,
                    sources[i].indexed,
                )
        },
    decreases expression,
{
    reveal_strlit("zip");
    reveal_strlit("copied");
    reveal_strlit("parallel_iter");
    reveal_strlit("indexed_parallel_iter");
    assert("zip"@.len() == 3);
    assert("copied"@.len() == 6);
    assert("parallel_iter"@.len() == 13);
    assert("indexed_parallel_iter"@.len() == 21);
    if let ExprKind::MethodCall { receiver, method, arguments, .. } = &expression.kind {
        if method@ == "copied"@ && arguments@.len() == 0 {
            lemma_iterated(&**receiver);
        } else if method@ == "zip"@ && arguments@.len() == 1 {
            lemma_iterated(&**receiver);
            lemma_iterated(&arguments@[0]);
        }
    }
}

/// Whether a function ends in a map that is collected, `….map(|…| …).collect()`.
pub open spec fn ends_in_a_map(function: SourceFunction) -> bool {
    let statements = function.block.statements@;
    &&& statements.len() > 0
    &&& match statements[statements.len() - 1] {
        SourceStatement::Expr { expression, semicolon } => !semicolon && match expression.kind {
            ExprKind::MethodCall { receiver: mapped, method, arguments, .. } => {
                &&& method@ == "collect"@
                &&& arguments@.len() == 0
                &&& match mapped.kind {
                    ExprKind::MethodCall { method, arguments, .. } => {
                        &&& method@ == "map"@
                        &&& arguments@.len() == 1
                        &&& arguments@[0].kind is Closure
                    },
                    _ => false,
                }
            },
            _ => false,
        },
        _ => false,
    }
}

/// What the iterator that a function maps runs over.
pub open spec fn sources(function: SourceFunction) -> Seq<(Seq<char>, bool)> {
    iterated(iterator_of(function))
}

/// The place of the last argument of a kind and a name that the chain of a function sees.
pub open spec fn seen_at(function: SourceFunction, kind: Kind, name: Seq<char>) -> Option<int> {
    place_of(function, kind, name, function.inputs@.len())
}

/// The type of an argument.
pub open spec fn argument_type(function: SourceFunction, place: int) -> SourceType {
    function.inputs@[place]->Typed_ty
}

/// Whether a function runs over the points of an extent: of one that a `let` before the chain
/// gives, or of an extent parameter.
pub open spec fn runs_over_points(function: SourceFunction) -> bool {
    let (name, indexed) = sources(function)[0];
    &&& sources(function).len() == 1
    &&& !indexed
    &&& hidden(function, name) || (seen_at(function, Kind::Tensor, name) is None && seen_at(
        function,
        Kind::Extent,
        name,
    ) is Some)
}

/// Whether a function maps the elements of tensor parameters: of two, without their points.
pub open spec fn maps_elements(function: SourceFunction) -> bool {
    let sources = sources(function);
    &&& forall|i: int|
        0 <= i < sources.len() ==> seen_at(
            function,
            Kind::Tensor,
            (#[trigger] sources[i]).0,
        ) is Some
    &&& sources.len() == 2 ==> !sources[0].1 && !sources[1].1
}

/// The rank of a tensor parameter by its name.
pub open spec fn named_rank(function: SourceFunction, name: Seq<char>) -> RankExpr {
    tensor_rank(argument_type(function, seen_at(function, Kind::Tensor, name)->0))
}

/// The rank of the tensor that a function returns.
pub open spec fn returned_rank(function: SourceFunction) -> RankExpr {
    tensor_rank(function.output->Type_0)
}

/// The rank of what a function runs over. An extent that a `let` gives has that of the output.
pub open spec fn rank_of(function: SourceFunction) -> RankExpr {
    let (name, _) = sources(function)[0];
    if !runs_over_points(function) {
        named_rank(function, name)
    } else if hidden(function, name) {
        returned_rank(function)
    } else {
        extent_rank(argument_type(function, seen_at(function, Kind::Extent, name)->0))
    }
}

/// Whether what a function runs over has the rank of what it returns, by their tokens.
pub open spec fn keeps_the_rank(function: SourceFunction) -> bool {
    &&& returned_rank(function).text@ == rank_of(function).text@
    &&& sources(function).len() == 2 ==> named_rank(function, sources(function)[1].0).text@
        == rank_of(function).text@
}

/// Whether the closure of a function is given points.
pub open spec fn gives_points(function: SourceFunction) -> bool {
    runs_over_points(function) || sources(function)[0].1
}

/// The rank of the points that the closure of a function is given.
pub open spec fn point_rank(function: SourceFunction) -> Option<usize> {
    if gives_points(function) {
        Some(integer(rank_of(function).expression) as usize)
    } else {
        None
    }
}

/// Whether a pattern takes a coordinate: by a name, or not at all.
pub open spec fn takes_coordinate(pattern: SourcePattern) -> bool {
    pattern.kind is Wild || simple_name(pattern) is Some
}

/// Whether a pattern takes a point of a rank: by one name, or by one for each coordinate, of which
/// no two are the same.
pub open spec fn takes_point(pattern: SourcePattern, rank: nat) -> bool {
    simple_name(pattern) is Some || match pattern.kind {
        PatternKind::Tuple(patterns) => {
            &&& patterns@.len() == rank
            &&& forall|i: int|
                0 <= i < patterns@.len() ==> takes_coordinate(#[trigger] patterns@[i])
            &&& forall|i: int, j: int|
                #![trigger patterns@[i], patterns@[j]]
                0 <= i < j < patterns@.len() && !(patterns@[i].kind is Wild)
                    && !(patterns@[j].kind is Wild) ==> name_taken(patterns@[i]) != name_taken(
                    patterns@[j],
                )
        },
        _ => false,
    }
}

/// The name by which a pattern takes something.
pub open spec fn name_taken(pattern: SourcePattern) -> Seq<char> {
    match simple_name(pattern) {
        Some((name, _)) => name,
        None => Seq::empty(),
    }
}

/// The names by which a pattern takes the coordinates of a point.
pub open spec fn coordinate_names(pattern: SourcePattern) -> Set<Seq<char>> {
    match (simple_name(pattern), pattern.kind) {
        (None, PatternKind::Tuple(patterns)) => Set::new(
            |name: Seq<char>|
                exists|i: int|
                    0 <= i < patterns@.len() && !((#[trigger] patterns@[i]).kind is Wild)
                        && name_taken(patterns@[i]) == name,
        ),
        _ => Set::empty(),
    }
}

/// The name by which a pattern takes a point as a whole.
pub open spec fn whole_point(pattern: SourcePattern) -> Option<Seq<char>> {
    match simple_name(pattern) {
        Some((name, _)) => Some(name),
        None => None,
    }
}

/// The pattern of a closure.
pub open spec fn pattern_of(function: SourceFunction) -> SourcePattern {
    closure_of(function).inputs@[0]
}

/// The patterns of a closure that takes a tuple.
pub open spec fn tuple_of(function: SourceFunction) -> Seq<SourcePattern> {
    pattern_of(function).kind->Tuple_0@
}

/// Whether the closure of a function has one argument, and its pattern takes what it is given: a
/// point, a point and an element, an element, or two elements.
pub open spec fn takes_what_is_given(function: SourceFunction) -> bool {
    let pattern = pattern_of(function);
    &&& closure_of(function).inputs@.len() == 1
    &&& if runs_over_points(function) {
        takes_point(pattern, point_rank(function)->0 as nat)
    } else if gives_points(function) {
        &&& pattern.kind is Tuple
        &&& tuple_of(function).len() == 2
        &&& takes_point(tuple_of(function)[0], point_rank(function)->0 as nat)
        &&& simple_name(tuple_of(function)[1]) is Some
    } else if sources(function).len() == 1 {
        simple_name(pattern) is Some
    } else {
        &&& pattern.kind is Tuple
        &&& tuple_of(function).len() == 2
        &&& simple_name(tuple_of(function)[0]) is Some
        &&& simple_name(tuple_of(function)[1]) is Some
    }
}

/// The names by which the closure of a function takes elements and coordinates.
pub open spec fn names_taken(function: SourceFunction) -> Set<Seq<char>> {
    let pattern = pattern_of(function);
    if runs_over_points(function) {
        coordinate_names(pattern)
    } else if gives_points(function) {
        coordinate_names(tuple_of(function)[0]).insert(name_taken(tuple_of(function)[1]))
    } else if sources(function).len() == 1 {
        Set::empty().insert(name_taken(pattern))
    } else {
        Set::empty().insert(name_taken(tuple_of(function)[0])).insert(
            name_taken(tuple_of(function)[1]),
        )
    }
}

/// What the names outside the closure's body stand for in a function.
pub open spec fn names_outside(function: SourceFunction) -> Outside {
    Outside {
        values: names_taken(function).union(
            Set::new(|name: Seq<char>| seen_at(function, Kind::Scalar, name) is Some),
        ),
        point: if runs_over_points(function) {
            whole_point(pattern_of(function))
        } else if gives_points(function) {
            whole_point(tuple_of(function)[0])
        } else {
            None
        },
        extents: if runs_over_points(function) {
            Set::empty().insert(sources(function)[0].0)
        } else {
            Set::empty()
        },
        rank: point_rank(function),
        tensors: Map::new(
            |name: Seq<char>| seen_at(function, Kind::Tensor, name) is Some,
            |name: Seq<char>|
                {
                    let rank = named_rank(function, name).expression;
                    if is_integer(rank, usize::MAX as nat) {
                        Some(integer(rank) as usize)
                    } else {
                        None
                    }
                },
        ),
    }
}

/// Whether a function can be compiled.
pub open spec fn accepted(function: SourceFunction) -> bool {
    &&& function.constness is None
    &&& function.asyncness is None
    &&& forall|i: int|
        0 <= i < function.inputs@.len() ==> kind_of(#[trigger] function.inputs@[i]) is Some
    &&& function.output matches SourceOutput::Type(ty) && is_tensor_type(ty)
    &&& ends_in_a_map(function)
    &&& is_iterator(iterator_of(function))
    &&& 1 <= sources(function).len() <= 2
    &&& runs_over_points(function) || maps_elements(function)
    &&& keeps_the_rank(function)
    &&& gives_points(function) ==> is_integer(rank_of(function).expression, usize::MAX as nat)
    &&& takes_what_is_given(function)
    &&& supported_body(*closure_of(function).body, names_outside(function))
}

/// A chain is found where a function ends in one.
pub proof fn lemma_chain<'a>(function: &'a SourceFunction)
    ensures
        chain_of(&function.block) is Ok <==> ends_in_a_map(*function) && is_iterator(
            iterator_of(*function),
        ) && 1 <= sources(*function).len() <= 2,
        chain_of(&function.block) matches Ok(chain) ==> {
            &&& *chain.closure == closure_of(*function)
            &&& chain.sources.len() == sources(*function).len()
            &&& forall|i: int|
                0 <= i < chain.sources.len() ==> sources(*function)[i] == (
                    (#[trigger] chain.sources[i]).ident.name@,
                    chain.sources[i].indexed,
                )
        },
{
    if ends_in_a_map(*function) {
        let statements = function.block.statements@;
        let tail = &statements[statements.len() - 1]->Expr_expression;
        let mapped = &*tail.kind->MethodCall_receiver;
        lemma_iterated(&*mapped.kind->MethodCall_receiver);
    }
}

/// What a function runs over is found where it is known.
pub proof fn lemma_domain<'a>(function: &'a SourceFunction)
    requires
        parameters_of::<'a>(function.inputs@, function.inputs@.len()) is Ok,
        output_of(function) is Ok,
        chain_of(&function.block) is Ok,
    ensures
        ({
            let parameters = parameters_of::<'a>(function.inputs@, function.inputs@.len())->Ok_0;
            let output = output_of(function)->Ok_0;
            let chain = chain_of(&function.block)->Ok_0;
            let visible = visible_parameters(parameters, function.block);
            let domain = domain_of(chain, visible, function.block, output);
            &&& domain is Ok <==> runs_over_points(*function) || maps_elements(*function)
            &&& domain matches Ok(domain) ==> {
                &&& domain.extent is Some <==> runs_over_points(*function)
                &&& domain.extent matches Some(extent) ==> extent.ident.name@ == sources(
                    *function,
                )[0].0
                &&& *domain.rank() == rank_of(*function)
                &&& domain.inputs.len() == if runs_over_points(*function) {
                    0
                } else {
                    sources(*function).len()
                }
                &&& forall|i: int|
                    0 <= i < domain.inputs.len() ==> {
                        let place = seen_at(*function, Kind::Tensor, sources(*function)[i].0);
                        &&& place is Some
                        &&& declared_by(
                            Parameter::Tensor(#[trigger] domain.inputs[i]),
                            function.inputs@[place->0],
                        )
                    }
                &&& any_indexed(chain.sources) <==> sources(*function)[0].1 || (sources(
                    *function,
                ).len() == 2 && sources(*function)[1].1)
            }
        }),
{
    let parameters = parameters_of::<'a>(function.inputs@, function.inputs@.len())->Ok_0;
    let output = output_of(function)->Ok_0;
    let chain = chain_of(&function.block)->Ok_0;
    let visible = visible_parameters(parameters, function.block);
    let count = function.inputs@.len();
    lemma_chain(function);
    let first = chain.sources[0].ident.name@;
    assert(sources(*function)[0] == (first, chain.sources[0].indexed));
    lemma_visible(function, count, first);
    law_host_locals_are_the_names_of_lets(*function, first);
    lemma_tensor_type(function.output->Type_0);
    let taken = sources(*function);
    assert(any_indexed(chain.sources) <==> taken[0].1 || (taken.len() == 2 && taken[1].1)) by {
        if taken[0].1 {
            assert(chain.sources[0].indexed);
        }
        if taken.len() == 2 && taken[1].1 {
            assert(chain.sources[1].indexed);
        }
    }
    let block = function.block;
    assert(inputs_of(chain.sources, visible, block, 0) == Ok::<
        Seq<TensorParameter<'a>>,
        Diagnostic,
    >(Seq::empty()));
    let one = inputs_of(chain.sources, visible, block, 1);
    assert(one is Ok <==> tensor_named(visible, first) is Some);
    assert(one matches Ok(inputs) ==> inputs =~= seq![tensor_named(visible, first)->0]);
    if chain.sources.len() == 2 {
        let second = chain.sources[1].ident.name@;
        assert(taken[1] == (second, chain.sources[1].indexed));
        lemma_visible(function, count, second);
        let two = inputs_of(chain.sources, visible, block, 2);
        assert(two is Ok <==> one is Ok && tensor_named(visible, second) is Some);
        assert(two matches Ok(inputs) ==> inputs =~= seq![
            tensor_named(visible, first)->0,
            tensor_named(visible, second)->0,
        ]);
        assert(maps_elements(*function) <==> {
            &&& seen_at(*function, Kind::Tensor, taken[0].0) is Some
            &&& seen_at(*function, Kind::Tensor, taken[1].0) is Some
            &&& !taken[0].1
            &&& !taken[1].1
        });
    } else {
        assert(maps_elements(*function) <==> seen_at(
            *function,
            Kind::Tensor,
            taken[0].0,
        ) is Some);
    }
    lemma_place(*function, Kind::Extent, first, count);
}

proof fn lemma_place(function: SourceFunction, kind: Kind, name: Seq<char>, count: nat)
    ensures
        place_of(function, kind, name, count) matches Some(place) ==> {
            &&& 0 <= place < count
            &&& sees(function, kind, place)
            &&& argument_name(function.inputs@[place]) == name
        },
    decreases count,
{
    if count > 0 {
        lemma_place(function, kind, name, (count - 1) as nat);
    }
}

/// Whether the first patterns of a tuple take coordinates by names of which no two are the same.
pub open spec fn take_coordinates(patterns: Seq<SourcePattern>, count: nat) -> bool {
    &&& forall|i: int| 0 <= i < count ==> takes_coordinate(#[trigger] patterns[i])
    &&& forall|i: int, j: int|
        #![trigger patterns[i], patterns[j]]
        0 <= i < j < count && !(patterns[i].kind is Wild) && !(patterns[j].kind is Wild)
            ==> name_taken(patterns[i]) != name_taken(patterns[j])
}

/// The names by which the first patterns of a tuple take coordinates.
pub open spec fn coordinates_taken(patterns: Seq<SourcePattern>, count: nat) -> Set<Seq<char>> {
    Set::new(
        |name: Seq<char>|
            exists|i: int|
                0 <= i < count && !((#[trigger] patterns[i]).kind is Wild) && name_taken(
                    patterns[i],
                ) == name,
    )
}

/// Coordinates are bound where patterns take them.
pub proof fn lemma_axes(patterns: Seq<SourcePattern>, count: nat)
    requires
        count <= patterns.len() <= usize::MAX,
    ensures
        bound_axes(patterns, count) is Ok <==> take_coordinates(patterns, count),
        bound_axes(patterns, count) matches Ok(axes) ==> axes.dom() == coordinates_taken(
            patterns,
            count,
        ),
    decreases count,
{
    if count == 0 {
        assert(coordinates_taken(patterns, count) =~= Set::empty());
    } else {
        let previous = (count - 1) as nat;
        let last = patterns[count - 1];
        lemma_axes(patterns, previous);
        lemma_simple_name(last);
        let before = bound_axes(patterns, previous);
        let name = name_taken(last);
        if before is Err {
            assert(!take_coordinates(patterns, previous));
            assert(!take_coordinates(patterns, count));
        } else {
            let axes = before->Ok_0;
            if last.kind is Wild {
                assert(takes_coordinate(last));
                assert(take_coordinates(patterns, count));
                assert(coordinates_taken(patterns, count) =~= coordinates_taken(
                    patterns,
                    previous,
                ));
            } else if !takes_coordinate(last) {
                assert(!take_coordinates(patterns, count));
            } else if axes.dom().contains(name) {
                let i = choose|i: int|
                    0 <= i < previous && !((#[trigger] patterns[i]).kind is Wild) && name_taken(
                        patterns[i],
                    ) == name;
                assert(patterns[i].kind is Wild || name_taken(patterns[i]) == name_taken(
                    patterns[count - 1],
                ));
                assert(!take_coordinates(patterns, count));
            } else {
                assert forall|i: int, j: int|
                    #![trigger patterns[i], patterns[j]]
                    0 <= i < j < count && !(patterns[i].kind is Wild) && !(
                    patterns[j].kind is Wild) implies name_taken(patterns[i]) != name_taken(
                    patterns[j],
                ) by {
                    if j == previous && name_taken(patterns[i]) == name {
                        assert(coordinates_taken(patterns, previous).contains(name));
                    }
                }
                assert forall|i: int| 0 <= i < count implies takes_coordinate(
                    #[trigger] patterns[i],
                ) by {}
                assert(take_coordinates(patterns, count));
                assert(coordinates_taken(patterns, count) =~= coordinates_taken(
                    patterns,
                    previous,
                ).insert(name));
            }
        }
    }
}

/// A point is bound where a pattern takes it.
pub proof fn lemma_point(pattern: SourcePattern, rank: usize)
    ensures
        bound_point(pattern, rank) is Ok <==> takes_point(pattern, rank as nat),
        bound_point(pattern, rank) matches Ok((title, axes)) ==> title == whole_point(pattern)
            && axes.dom() == coordinate_names(pattern),
{
    lemma_simple_name(pattern);
    if let PatternKind::Tuple(patterns) = pattern.kind {
        assert(patterns@.len() == patterns.len());
        lemma_axes(patterns@, patterns@.len());
        assert(coordinate_names(pattern) =~= coordinates_taken(patterns@, patterns@.len()));
    } else {
        assert(coordinate_names(pattern) =~= Set::empty());
    }
}

/// The arguments of a closure are bound where it takes what it is given.
pub proof fn lemma_bindings<'a>(
    function: &'a SourceFunction,
    chain: ChainView<'a>,
    domain: DomainView<'a>,
)
    requires
        chain_of(&function.block) == Ok::<ChainView<'a>, Diagnostic>(chain),
        domain.extent is Some <==> runs_over_points(*function),
        any_indexed(chain.sources) <==> sources(*function)[0].1 || (sources(*function).len() == 2
            && sources(*function)[1].1),
        runs_over_points(*function) || maps_elements(*function),
        *domain.rank() == rank_of(*function),
    ensures
        ({
            let mode = mode_of(chain, domain);
            let rank = point_rank_of(mode, *domain.rank());
            let bindings = bindings_of(*chain.closure, mode, point_rank(*function));
            &&& rank is Ok <==> (gives_points(*function) ==> is_integer(
                rank_of(*function).expression,
                usize::MAX as nat,
            ))
            &&& rank matches Ok(rank) ==> rank == point_rank(*function)
            &&& bindings is Ok <==> takes_what_is_given(*function)
            &&& bindings matches Ok(bindings) ==> {
                &&& bindings.values.dom().union(bindings.point_axes.dom()) == names_taken(*function)
                &&& bindings.point == names_outside(*function).point
            }
        }),
{
    let mode = mode_of(chain, domain);
    let pattern = pattern_of(*function);
    let rank = point_rank(*function);
    lemma_chain(function);
    assert(chain.sources.len() <= usize::MAX);
    lemma_is_integer(
        rank_of(*function).expression,
        usize::MAX as nat,
        Problem::RankNotLiteral,
    );
    lemma_simple_name(pattern);
    let bindings = bindings_of(*chain.closure, mode, rank);
    if rank is Some {
        lemma_point(pattern, rank->0);
    }
    if let PatternKind::Tuple(patterns) = pattern.kind {
        if patterns@.len() == 2 {
            lemma_simple_name(patterns@[0]);
            lemma_simple_name(patterns@[1]);
            if rank is Some {
                lemma_point(patterns@[0], rank->0);
            }
            reveal_with_fuel(bound_values, 3);
        }
    }
    if let Ok(bindings) = bindings {
        assert(bindings.values.dom().union(bindings.point_axes.dom()) =~= names_taken(*function));
    }
}

/// The functions that can be compiled are those whose syntax makes them a map over tensors or over
/// the points of an extent, with a body in the device language.
pub proof fn law_accepted_functions_are_compiled<'a>(function: &'a SourceFunction)
    ensures
        expanded(function) is Ok <==> accepted(*function),
{
    let count = function.inputs@.len();
    lemma_parameters(function, count);
    if let SourceOutput::Type(ty) = function.output {
        lemma_tensor_type(ty);
    }
    lemma_chain(function);
    let parameters = parameters_of::<'a>(function.inputs@, count);
    let output = output_of(function);
    let chain = chain_of(&function.block);
    if parameters is Ok && output is Ok && chain is Ok {
        let chain = chain->Ok_0;
        let output = output->Ok_0;
        let visible = visible_parameters(parameters->Ok_0, function.block);
        lemma_domain(function);
        if let Ok(domain) = domain_of(chain, visible, function.block, output) {
            lemma_bindings(function, chain, domain);
            let kept = rank_kept(domain, output, function.output_span);
            assert(kept is Ok <==> keeps_the_rank(*function));
            let mode = mode_of(chain, domain);
            let rank = point_rank(*function);
            if let Ok(bindings) = bindings_of(*chain.closure, mode, rank) {
                let scalars = scalars_of(visible);
                let tensors = tensors_of(visible);
                let scope = scope_of(bindings, domain, rank, scalars, tensors, output);
                lemma_outside(function, bindings, domain);
                law_the_language_is_lowered(*chain.closure.body, scope);
            }
        }
    }
}

/// The scope of a body holds the names outside it.
pub proof fn lemma_outside<'a>(
    function: &'a SourceFunction,
    bindings: ClosureBindingsView,
    domain: DomainView<'a>,
)
    requires
        parameters_of::<'a>(function.inputs@, function.inputs@.len()) is Ok,
        output_of(function) is Ok,
        bindings.values.dom().union(bindings.point_axes.dom()) == names_taken(*function),
        bindings.point == names_outside(*function).point,
        domain.extent is Some <==> runs_over_points(*function),
        domain.extent matches Some(extent) ==> extent.ident.name@ == sources(*function)[0].0,
    ensures
        ({
            let parameters = parameters_of::<'a>(function.inputs@, function.inputs@.len())->Ok_0;
            let visible = visible_parameters(parameters, function.block);
            outside(
                scope_of(
                    bindings,
                    domain,
                    point_rank(*function),
                    scalars_of(visible),
                    tensors_of(visible),
                    output_of(function)->Ok_0,
                ),
            ) == names_outside(*function)
        }),
{
    let count = function.inputs@.len();
    let parameters = parameters_of::<'a>(function.inputs@, count)->Ok_0;
    let visible = visible_parameters(parameters, function.block);
    let scalars = scalars_of(visible);
    let tensors = tensors_of(visible);
    let scope = scope_of(
        bindings,
        domain,
        point_rank(*function),
        scalars,
        tensors,
        output_of(function)->Ok_0,
    );
    let found = outside(scope);
    let expected = names_outside(*function);
    assert forall|name: Seq<char>| found.values.contains(name) <==> expected.values.contains(
        name,
    ) by {
        lemma_visible(function, count, name);
        assert(names_taken(*function).contains(name) <==> bindings.values.dom().contains(name)
            || bindings.point_axes.dom().contains(name));
    }
    assert(found.values =~= expected.values);
    assert(found.extents =~= expected.extents) by {
        if let Some(extent) = domain.extent {
            assert(scope.extents[0] == extent.ident.name@);
        }
    }
    assert forall|name: Seq<char>|
        found.tensors.dom().contains(name) <==> expected.tensors.dom().contains(name) by {
        lemma_visible(function, count, name);
    }
    assert forall|name: Seq<char>| #[trigger] found.tensors.dom().contains(
        name,
    ) implies found.tensors[name] == expected.tensors[name] by {
        lemma_visible(function, count, name);
        let rank = named_rank(*function, name);
        lemma_is_integer(rank.expression, usize::MAX as nat, Problem::RankNotLiteral);
    }
    assert(found.tensors =~= expected.tensors);
}

/// A compiled function runs over what its iterator names: over the points of the extent of that
/// name, or over the elements of the tensor parameters of those names, in the order of the
/// iterator. It returns tensors of the element type and the rank that its signature gives.
pub proof fn law_a_function_runs_over_its_sources<'a>(function: &'a SourceFunction)
    ensures
        expanded(function) matches Ok(expansion) ==> {
            let sources = sources(*function);
            let domain = expansion.domain;
            &&& match domain.extent {
                Some(extent) => runs_over_points(*function) && domain.inputs.len() == 0
                    && extent.ident.name@ == sources[0].0,
                None => maps_elements(*function) && domain.inputs.len() == sources.len(),
            }
            &&& forall|i: int|
                0 <= i < domain.inputs.len() ==> {
                    let place = seen_at(*function, Kind::Tensor, sources[i].0);
                    &&& place is Some
                    &&& declared_by(
                        Parameter::Tensor(#[trigger] domain.inputs[i]),
                        function.inputs@[place->0],
                    )
                }
            &&& expansion.output.element.msl_text() == output_type(*function)
            &&& *expansion.output.rank == returned_rank(*function)
        },
{
    if expanded(function) is Ok {
        lemma_domain(function);
        lemma_tensor_type(function.output->Type_0);
    }
}

/// The statements before the chain of a compiled function are repeated on the host, all of them, in
/// their order and with their tokens; a semicolon is added where an expression was followed by one.
pub proof fn law_host_statements_are_repeated<'a>(function: &'a SourceFunction)
    ensures
        expanded(function) matches Ok(expansion) ==> {
            let statements = function.block.statements@;
            &&& expansion.host.len() + 1 == statements.len()
            &&& forall|i: int|
                0 <= i < expansion.host.len() ==> {
                    let repeated = #[trigger] expansion.host[i];
                    match statements[i] {
                        SourceStatement::Local(local) => repeated.span == local.span
                            && !repeated.semicolon,
                        SourceStatement::Expr { expression, semicolon } => repeated.span
                            == expression.span && repeated.semicolon == semicolon,
                        SourceStatement::Item(span) => repeated.span == span
                            && !repeated.semicolon,
                        SourceStatement::Macro(span) => repeated.span == span
                            && !repeated.semicolon,
                    }
                }
        },
{
    if expanded(function) is Ok {
        lemma_chain(function);
    }
}

/// Functions whose names are sanitized to different names compile to kernels of different names.
pub proof fn law_kernels_are_named_after_their_functions<'a>(
    function: &'a SourceFunction,
    other: &'a SourceFunction,
)
    requires
        sanitized(function.ident.name@) != sanitized(other.ident.name@),
    ensures
        match (expanded(function), expanded(other)) {
            (Ok(first), Ok(second)) => first.kernel.name != second.kernel.name,
            _ => true,
        },
        expanded(function) matches Ok(expansion) ==> ends_with(
            expansion.kernel.name,
            sanitized(function.ident.name@),
        ),
{
    law_texts_tell_names_apart(function.ident.name@, other.ident.name@);
    if let Ok(expansion) = expanded(function) {
        let name = sanitized(function.ident.name@);
        let text = expansion.kernel.name;
        assert(text.skip(text.len() - name.len()) =~= name);
    }
}

/// Whether a text ends with another.
pub open spec fn ends_with(text: Seq<char>, end: Seq<char>) -> bool {
    text.len() >= end.len() && text.skip(text.len() - end.len()) == end
}

} // verus!
