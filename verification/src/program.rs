//! What a `#[parallel]` function means, and that its compiled kernel, dispatched as planned,
//! computes it.
use vstd::prelude::*;

use crate::captures::captures_of;
use crate::diagnostic::Diagnostic;
use crate::expand::{
    any_indexed, captured_tensors, chain_of, expanded, inputs_of, kernel_scalars, known_rank,
    mode_of, parameters_of, scalar_map, tensor_map, tensor_named, tensors_of, visible_parameters,
    ExpansionView, Parameter, ScalarParameter, TensorParameter,
};
use crate::extent::{in_bounds, lemma_coordinates_in_bounds, offset, positive, product};
use crate::host::is_host_local;
use crate::kernel::{
    capture_extent_slot, capture_slot, input_slot, output_slot, scalar_slot,
};
use crate::meaning::{
    body_meaning, body_within, closure_names, distinct, law_the_output_is_the_map,
    lemma_metal_name, named_tensors, output_type, thread_at, Device, Place,
};
use crate::metal::{
    bound_for, effect, kernel_source, law_kernel_source_computes_the_body, lengths_of, Content,
    Effect, MetalKernel,
};
use crate::names::{sanitized, scalar_text};
use crate::runtime::{
    bound_at_slots, capture_binding, law_plans_are_exact, planned, source_binding, sources_first,
    BufferBindingView, PlanView, Resource,
};
use crate::scoping::{
    law_captures_are_parameters, lemma_captures_are_parameters, lemma_visible_tensors_len,
    visible_tensors,
};
use crate::source::{
    ExprKind, PatternKind, SourceBlock, SourceClosure, SourceExpr, SourceFunction, SourcePattern,
};
use crate::syntax::{
    bindings_of, bound_axes, bound_point, bound_values, pattern_ident, referent, sources_of,
    ClosureMode, IteratorSource,
};
use crate::tensor::TensorView;

verus! {

/// What an iterator gives a closure.
pub ghost enum Given<V> {
    Element(V),
    /// A coordinate.
    Number(nat),
    Point(Seq<nat>),
    Pair(Box<Given<V>>, Box<Given<V>>),
}

/// The coordinates of a point as numbers.
pub open spec fn numbers(point: Seq<usize>) -> Seq<nat> {
    point.map_values(|coordinate: usize| coordinate as nat)
}

/// What an iterator over tensors, or over the points of an extent, gives for a point.
pub open spec fn item<V>(
    iterator: SourceExpr,
    tensors: Map<Seq<char>, TensorView<V>>,
    point: Seq<usize>,
) -> Given<V>
    decreases iterator,
{
    match iterator.kind {
        ExprKind::MethodCall { receiver, method, arguments, .. } => if method@ == "zip"@
            && arguments@.len() == 1 {
            Given::Pair(
                Box::new(item(*receiver, tensors, point)),
                Box::new(item(arguments@[0], tensors, point)),
            )
        } else if method@ == "copied"@ {
            item(*receiver, tensors, point)
        } else {
            let name = receiver.kind->Path_0.segments@[0].name@;
            if method@ == "indexed_parallel_iter"@ {
                Given::Pair(
                    Box::new(Given::Point(numbers(point))),
                    Box::new(Given::Element(tensors[name].at(point))),
                )
            } else if tensors.dom().contains(name) {
                Given::Element(tensors[name].at(point))
            } else {
                Given::Point(numbers(point))
            }
        },
        _ => arbitrary(),
    }
}

/// What the names of a pattern stand for, where the pattern takes something that is given. The
/// coordinates of a point are taken by a tuple, in the order of the axes.
pub open spec fn matched<V>(pattern: SourcePattern, given: Given<V>) -> Map<Seq<char>, Given<V>>
    decreases pattern, 0nat,
{
    match pattern.kind {
        PatternKind::Ident { ident, .. } => Map::empty().insert(ident.name@, given),
        PatternKind::Reference(inner) => matched(*inner, given),
        PatternKind::Paren(inner) => matched(*inner, given),
        PatternKind::Typed { pattern: inner, .. } => matched(*inner, given),
        PatternKind::Tuple(patterns) => match given {
            Given::Pair(left, right) => if patterns@.len() == 2 {
                matched(patterns@[0], *left).union_prefer_right(matched(patterns@[1], *right))
            } else {
                Map::empty()
            },
            Given::Point(point) => matched_coordinates(patterns@, point, patterns@.len()),
            _ => Map::empty(),
        },
        _ => Map::empty(),
    }
}

/// What the names of the first patterns of a tuple stand for, where the tuple takes a point.
pub open spec fn matched_coordinates<V>(
    patterns: Seq<SourcePattern>,
    point: Seq<nat>,
    count: nat,
) -> Map<Seq<char>, Given<V>>
    decreases patterns, count,
{
    if count == 0 || count > patterns.len() {
        Map::empty()
    } else {
        matched_coordinates::<V>(patterns, point, (count - 1) as nat).union_prefer_right(
            matched(patterns[count - 1], Given::Number(point[count - 1])),
        )
    }
}

/// The name by which a pattern takes a point as a whole.
pub open spec fn point_name<V>(pattern: SourcePattern, given: Given<V>) -> Option<Seq<char>>
    decreases pattern,
{
    match pattern.kind {
        PatternKind::Ident { ident, .. } => if given is Point {
            Some(ident.name@)
        } else {
            None
        },
        PatternKind::Reference(inner) => point_name(*inner, given),
        PatternKind::Paren(inner) => point_name(*inner, given),
        PatternKind::Typed { pattern: inner, .. } => point_name(*inner, given),
        PatternKind::Tuple(patterns) => match given {
            Given::Pair(left, _) => if patterns@.len() == 2 {
                point_name(patterns@[0], *left)
            } else {
                None
            },
            _ => None,
        },
        _ => None,
    }
}

/// What the names in the body of a closure stand for: what its pattern takes, and the scalars
/// that the pattern does not hide.
pub open spec fn names_of<V>(
    pattern: SourcePattern,
    given: Given<V>,
    scalars: Map<Seq<char>, V>,
    device: Device<V>,
) -> Map<Seq<char>, V> {
    let taken = matched(pattern, given);
    Map::new(
        |name: Seq<char>|
            (taken.dom().contains(name) && (taken[name] is Element || taken[name] is Number))
                || scalars.dom().contains(name),
        |name: Seq<char>|
            if taken.dom().contains(name) {
                match taken[name] {
                    Given::Element(value) => value,
                    Given::Number(number) => (device.number)(number),
                    _ => scalars[name],
                }
            } else {
                scalars[name]
            },
    )
}

/// The call of `map` that a function ends in, before it collects.
pub open spec fn map_call(function: SourceFunction) -> ExprKind {
    let statements = function.block.statements@;
    statements[statements.len() - 1]->Expr_expression.kind->MethodCall_receiver.kind
}

/// The iterator that a function maps.
pub open spec fn iterator_of(function: SourceFunction) -> SourceExpr {
    *map_call(function)->MethodCall_receiver
}

/// The closure that a function maps with.
pub open spec fn closure_of(function: SourceFunction) -> SourceClosure {
    map_call(function)->MethodCall_arguments@[0].kind->Closure_0
}

proof fn lemma_ident_matches<V>(pattern: SourcePattern, given: Given<V>)
    ensures
        pattern_ident(&pattern) matches Ok(ident) ==> {
            &&& matched(pattern, given) == Map::<Seq<char>, Given<V>>::empty().insert(
                ident.name@,
                given,
            )
            &&& point_name(pattern, given) == if given is Point {
                Some(ident.name@)
            } else {
                None
            }
        },
    decreases pattern,
{
    match pattern.kind {
        PatternKind::Reference(inner) => lemma_ident_matches(*inner, given),
        PatternKind::Paren(inner) => lemma_ident_matches(*inner, given),
        PatternKind::Typed { pattern: inner, .. } => lemma_ident_matches(*inner, given),
        _ => {},
    }
}

proof fn lemma_axes_match<V>(patterns: Seq<SourcePattern>, point: Seq<nat>, count: nat)
    requires
        count <= patterns.len() <= usize::MAX,
    ensures
        bound_axes(patterns, count) matches Ok(axes) ==> {
            let taken = matched_coordinates::<V>(patterns, point, count);
            &&& taken.dom() == axes.dom()
            &&& forall|name: Seq<char>| #[trigger]
                axes.dom().contains(name) ==> taken[name] == Given::<V>::Number(
                    point[axes[name] as int],
                )
        },
    decreases count,
{
    if count > 0 {
        lemma_axes_match::<V>(patterns, point, (count - 1) as nat);
        let given = Given::<V>::Number(point[count - 1]);
        lemma_ident_matches(patterns[count - 1], given);
        if let Ok(axes) = bound_axes(patterns, count) {
            let before = matched_coordinates::<V>(patterns, point, (count - 1) as nat);
            let last = matched(patterns[count - 1], given);
            let taken = matched_coordinates::<V>(patterns, point, count);
            assert(taken == before.union_prefer_right(last));
            if patterns[count - 1].kind is Wild {
                assert(last == Map::<Seq<char>, Given<V>>::empty());
            }
            assert(taken.dom() =~= axes.dom());
        }
    }
}

proof fn lemma_point_matches<V>(pattern: SourcePattern, rank: usize, point: Seq<nat>)
    ensures
        bound_point(pattern, rank) matches Ok((title, axes)) ==> {
            let given = Given::<V>::Point(point);
            let taken = matched(pattern, given);
            &&& point_name(pattern, given) == title
            &&& forall|name: Seq<char>| #[trigger]
                axes.dom().contains(name) ==> taken.dom().contains(name) && taken[name]
                    == Given::<V>::Number(point[axes[name] as int])
            &&& forall|name: Seq<char>|
                #![trigger taken.dom().contains(name)]
                taken.dom().contains(name) && !axes.dom().contains(name) ==> taken[name] is Point
        },
{
    lemma_ident_matches(pattern, Given::<V>::Point(point));
    if let PatternKind::Tuple(patterns) = pattern.kind {
        assert(patterns@.len() == patterns.len());
        lemma_axes_match::<V>(patterns@, point, patterns@.len());
    }
}

/// What a source gives for a point.
pub open spec fn item_of<'a, V>(
    source: IteratorSource<'a>,
    tensors: Map<Seq<char>, TensorView<V>>,
    point: Seq<usize>,
) -> Given<V> {
    let name = source.ident.name@;
    if source.indexed {
        Given::Pair(
            Box::new(Given::Point(numbers(point))),
            Box::new(Given::Element(tensors[name].at(point))),
        )
    } else if tensors.dom().contains(name) {
        Given::Element(tensors[name].at(point))
    } else {
        Given::Point(numbers(point))
    }
}

proof fn lemma_item<V>(
    iterator: SourceExpr,
    tensors: Map<Seq<char>, TensorView<V>>,
    point: Seq<usize>,
)
    ensures
        sources_of(&iterator) matches Ok(sources) ==> {
            &&& sources.len() >= 1
            &&& sources.len() == 1 ==> item(iterator, tensors, point) == item_of(
                sources[0],
                tensors,
                point,
            )
            &&& sources.len() == 2 ==> item(iterator, tensors, point) == Given::Pair(
                Box::new(item_of(sources[0], tensors, point)),
                Box::new(item_of(sources[1], tensors, point)),
            )
        },
    decreases iterator,
{
    reveal_strlit("zip");
    reveal_strlit("copied");
    reveal_strlit("parallel_iter");
    reveal_strlit("indexed_parallel_iter");
    assert("zip"@.len() == 3);
    assert("copied"@.len() == 6);
    assert("parallel_iter"@.len() == 13);
    assert("indexed_parallel_iter"@.len() == 21);
    if let ExprKind::MethodCall { receiver, method, arguments, .. } = iterator.kind {
        if method@ == "copied"@ && arguments@.len() == 0 {
            lemma_item(*receiver, tensors, point);
        } else if method@ == "zip"@ && arguments@.len() == 1 {
            lemma_item(*receiver, tensors, point);
            lemma_item(arguments@[0], tensors, point);
            if let Ok(sources) = sources_of(&iterator) {
                let left = sources_of(&*receiver)->Ok_0;
                let right = sources_of(&arguments@[0])->Ok_0;
                assert(sources == left + right);
            }
        }
    }
}

proof fn lemma_tensor_names<'a>(parameters: Seq<Parameter<'a>>, name: Seq<char>)
    ensures
        tensor_map(tensors_of(parameters)).dom().contains(name) <==> tensor_named(
            parameters,
            name,
        ) is Some,
        tensor_named(parameters, name) matches Some(tensor) ==> tensor.ident.name@ == name,
    decreases parameters.len(),
{
    if parameters.len() > 0 {
        lemma_tensor_names(parameters.drop_last(), name);
        if let Parameter::Tensor(tensor) = parameters.last() {
            let tensors = tensors_of(parameters);
            assert(tensors.drop_last() =~= tensors_of(parameters.drop_last()));
            assert(tensors.last() == tensor);
        }
    }
}

proof fn lemma_hidden_names<'a>(
    parameters: Seq<Parameter<'a>>,
    block: SourceBlock,
    name: Seq<char>,
)
    requires
        is_host_local(block, name),
    ensures
        tensor_named(visible_parameters(parameters, block), name) is None,
    decreases parameters.len(),
{
    if parameters.len() > 0 {
        lemma_hidden_names(parameters.drop_last(), block, name);
        let before = visible_parameters(parameters.drop_last(), block);
        assert(before.push(parameters.last()).drop_last() =~= before);
    }
}

proof fn lemma_input_names<'a>(
    sources: Seq<IteratorSource<'a>>,
    parameters: Seq<Parameter<'a>>,
    block: SourceBlock,
    count: nat,
)
    ensures
        inputs_of(sources, parameters, block, count) matches Ok(inputs) ==> {
            &&& inputs.len() == count
            &&& forall|i: int|
                0 <= i < count ==> {
                    &&& (#[trigger] inputs[i]).ident.name@ == sources[i].ident.name@
                    &&& tensor_map(tensors_of(parameters)).dom().contains(
                        sources[i].ident.name@,
                    )
                }
        },
    decreases count,
{
    if count > 0 {
        lemma_input_names(sources, parameters, block, (count - 1) as nat);
        lemma_tensor_names(parameters, sources[count - 1].ident.name@);
    }
}

/// The tensors that a compiled function maps, by the names of its parameters.
pub open spec fn mapped_tensors<'a, V>(
    expansion: ExpansionView<'a>,
    tensors: Map<Seq<char>, TensorView<V>>,
) -> Seq<TensorView<V>> {
    expansion.domain.inputs.map_values(
        |input: TensorParameter<'a>| tensors[input.ident.name@],
    )
}

proof fn lemma_names<'a, V>(
    function: &'a SourceFunction,
    tensors: Map<Seq<char>, TensorView<V>>,
    scalars: Map<Seq<char>, V>,
    point: Seq<usize>,
    device: Device<V>,
)
    requires
        expanded(function) is Ok,
        tensors.dom() == tensor_map(visible_tensors(function)).dom(),
    ensures
        ({
            let expansion = expanded(function)->Ok_0;
            let chain = chain_of(&function.block)->Ok_0;
            let bindings = bindings_of(
                *chain.closure,
                mode_of(chain, expansion.domain),
                expansion.kernel.logical_rank,
            )->Ok_0;
            let elements = mapped_tensors(expansion, tensors).map_values(
                |input: TensorView<V>| input.at(point),
            );
            let closure = closure_of(*function);
            let given = item(iterator_of(*function), tensors, point);
            &&& *chain.closure == closure
            &&& closure_names(bindings, scalars, elements, numbers(point), device) == names_of(
                closure.inputs@[0],
                given,
                scalars,
                device,
            )
            &&& bindings.point == point_name(closure.inputs@[0], given)
        }),
{
    let expansion = expanded(function)->Ok_0;
    let chain = chain_of(&function.block)->Ok_0;
    let mode = mode_of(chain, expansion.domain);
    let rank = expansion.kernel.logical_rank;
    let bindings = bindings_of(*chain.closure, mode, rank)->Ok_0;
    let closure = closure_of(*function);
    let iterator = iterator_of(*function);
    let pattern = closure.inputs@[0];
    let given = item(iterator, tensors, point);
    let elements = mapped_tensors(expansion, tensors).map_values(
        |input: TensorView<V>| input.at(point),
    );
    let found = numbers(point);
    let parameters = parameters_of(function.inputs@, function.inputs@.len())->Ok_0;
    let visible = visible_parameters(parameters, function.block);
    assert(*chain.closure == closure);
    assert(sources_of(&iterator) == Ok::<Seq<IteratorSource<'a>>, Diagnostic>(chain.sources));
    lemma_item(iterator, tensors, point);
    lemma_input_names(chain.sources, visible, function.block, chain.sources.len());
    let first = chain.sources[0].ident.name@;
    lemma_tensor_names(visible, first);
    if is_host_local(function.block, first) {
        lemma_hidden_names(parameters, function.block, first);
    }
    let taken = matched(pattern, given);
    let names = closure_names(bindings, scalars, elements, found, device);
    let expected = names_of(pattern, given, scalars, device);
    match mode {
        ClosureMode::Values(count) => {
            assert(expansion.domain.inputs.len() == chain.sources.len());
            assert(!any_indexed(chain.sources));
            assert(!chain.sources[0].indexed);
            assert(expansion.domain.inputs[0].ident.name@ == first);
            if count == 1 {
                lemma_ident_matches(pattern, given);
            } else {
                assert(!chain.sources[1].indexed);
                let second = chain.sources[1].ident.name@;
                assert(expansion.domain.inputs[1].ident.name@ == second);
                let patterns = pattern.kind->Tuple_0@;
                let left = item_of(chain.sources[0], tensors, point);
                let right = item_of(chain.sources[1], tensors, point);
                lemma_ident_matches(patterns[0], left);
                lemma_ident_matches(patterns[1], right);
                reveal_with_fuel(bound_values, 3);
            }
        },
        ClosureMode::Indexed => {
            let patterns = pattern.kind->Tuple_0@;
            assert(expansion.domain.inputs[0].ident.name@ == first);
            lemma_point_matches::<V>(patterns[0], rank->0, found);
            lemma_ident_matches(patterns[1], Given::Element(tensors[first].at(point)));
        },
        ClosureMode::Points => {
            lemma_point_matches::<V>(pattern, rank->0, found);
        },
    }
    assert(names =~= expected);
}

/// What a call of a compiled function is given, by the names of the parameters: the tensors and the
/// scalars that its chain sees, and the extent that it runs over.
pub ghost struct Call<V> {
    pub tensors: Map<Seq<char>, TensorView<V>>,
    pub scalars: Map<Seq<char>, V>,
    pub axes: Seq<usize>,
}

/// What the dispatch of a call is planned from: the tensors that are mapped, and then those that
/// are captured.
pub open spec fn dispatched<'a, V>(
    expansion: ExpansionView<'a>,
    call: Call<V>,
) -> Seq<BufferBindingView> {
    expansion.domain.inputs.map_values(
        |input: TensorParameter<'a>| source_binding(call.tensors[input.ident.name@]),
    ) + expansion.captures.map_values(
        |captured: TensorParameter<'a>| capture_binding(call.tensors[captured.ident.name@]),
    )
}

/// What the buffer of a resource holds in a call.
pub open spec fn content<'a, V>(
    resource: Resource,
    function: SourceFunction,
    expansion: ExpansionView<'a>,
    call: Call<V>,
    plan: PlanView,
) -> Content<V> {
    let bound = expansion.domain.inputs + expansion.captures;
    match resource {
        Resource::Output => Content::Output { ty: output_type(function) },
        Resource::Input(index) => Content::Elements {
            ty: bound[index as int].ty.element.msl_text(),
            values: call.tensors[bound[index as int].ident.name@].values,
        },
        Resource::InputExtent(index) => Content::Lengths(
            plan.input_extents[index as int].map_values(|length: u32| length as nat),
        ),
        Resource::Scalar(index) => Content::Scalar {
            ty: expansion.scalars[index as int].ty.msl_text(),
            value: call.scalars[expansion.scalars[index as int].ident.name@],
        },
        Resource::Count => Content::Number(plan.count as nat),
        Resource::Axes => Content::Lengths(plan.extent.map_values(|length: u32| length as nat)),
    }
}

/// What the buffer slots hold in a call.
pub open spec fn slots_of<'a, V>(
    function: SourceFunction,
    expansion: ExpansionView<'a>,
    call: Call<V>,
    plan: PlanView,
) -> Seq<Content<V>> {
    plan.bindings.map_values(
        |resource: Resource| content(resource, function, expansion, call, plan),
    )
}

/// Whether a call gives a function what its signature asks for: a tensor of the right rank for
/// each tensor parameter that the chain sees, a value for each scalar, of which no two have one
/// name in the kernel, an extent of the right rank, and tensors of that extent to be mapped. There
/// are no more of them than a list holds.
pub open spec fn fitting<'a, V>(function: &'a SourceFunction, call: Call<V>) -> bool {
    let expansion = expanded(function)->Ok_0;
    let visible = visible_tensors(function);
    &&& call.tensors.dom() == tensor_map(visible).dom()
    &&& forall|i: int|
        0 <= i < visible.len() ==> (known_rank(*(#[trigger] visible[i]).ty.rank) matches Some(rank)
            ==> call.tensors[visible[i].ident.name@].axes.len() == rank)
    &&& call.scalars.dom() == scalar_map(expansion.scalars).dom()
    &&& distinct(call.scalars.dom())
    &&& known_rank(*expansion.domain.rank()) matches Some(rank) ==> call.axes.len() == rank
    &&& forall|i: int|
        0 <= i < expansion.domain.inputs.len() ==> call.tensors[(
        #[trigger] expansion.domain.inputs[i]).ident.name@].axes == call.axes
    &&& dispatched(expansion, call).len() <= usize::MAX
    &&& expansion.scalars.len() <= usize::MAX
}

/// The scalars by their names in the kernel.
pub open spec fn kernel_values<V>(scalars: Map<Seq<char>, V>) -> Map<Seq<char>, V> {
    Map::new(
        |text: Seq<char>|
            exists|name: Seq<char>| #[trigger]
                scalars.dom().contains(name) && scalar_text(name) == text,
        |text: Seq<char>|
            scalars[choose|name: Seq<char>| #[trigger]
                scalars.dom().contains(name) && scalar_text(name) == text],
    )
}

proof fn lemma_kernel_values<V>(scalars: Map<Seq<char>, V>, name: Seq<char>)
    requires
        distinct(scalars.dom()),
        scalars.dom().contains(name),
    ensures
        kernel_values(scalars)[scalar_text(name)] == scalars[name],
{
    let text = scalar_text(name);
    let other = choose|other: Seq<char>| #[trigger]
        scalars.dom().contains(other) && scalar_text(other) == text;
    assert(scalars.dom().contains(other) && scalar_text(other) == text);
    let prefix = "__pm_scalar_"@.len() as int;
    assert(scalar_text(name).skip(prefix) =~= sanitized(name));
    assert(scalar_text(other).skip(prefix) =~= sanitized(other));
    assert(kernel_values(scalars).dom().contains(text));
}

proof fn lemma_scalar_map_names<'a>(scalars: Seq<ScalarParameter<'a>>, i: int)
    requires
        0 <= i < scalars.len(),
    ensures
        scalar_map(scalars).dom().contains(scalars[i].ident.name@),
    decreases scalars.len(),
{
    if i < scalars.len() - 1 {
        lemma_scalar_map_names(scalars.drop_last(), i);
    }
}

proof fn lemma_tensor_map<'a>(tensors: Seq<TensorParameter<'a>>, name: Seq<char>)
    requires
        tensors.len() <= usize::MAX,
        tensor_map(tensors).dom().contains(name),
    ensures
        ({
            let index = tensor_map(tensors)[name].capture.tensor;
            index < tensors.len() && tensors[index as int].ident.name@ == name
        }),
    decreases tensors.len(),
{
    if tensors.len() > 0 && tensors.last().ident.name@ != name {
        lemma_tensor_map(tensors.drop_last(), name);
    }
}

/// The tensors that the chain of a function sees, in the order of the signature.
pub open spec fn seen_tensors<'a, V>(function: &'a SourceFunction, call: Call<V>) -> Seq<
    TensorView<V>,
> {
    visible_tensors(function).map_values(
        |parameter: TensorParameter<'a>| call.tensors[parameter.ident.name@],
    )
}

/// Whether a plan binds what a kernel declares, and tells the lengths of the axes as they are.
spec fn plan_fits<'a, V>(
    expansion: ExpansionView<'a>,
    visible: Seq<TensorParameter<'a>>,
    call: Call<V>,
    plan: PlanView,
) -> bool {
    let kernel = expansion.kernel;
    let found = captures_of(kernel.body);
    let described = dispatched(expansion, call);
    &&& kernel.inputs == expansion.domain.inputs.map_values(
        |input: TensorParameter<'a>| input.ty.element,
    )
    &&& kernel.scalars == kernel_scalars(expansion.scalars)
    &&& expansion.captures.len() == found.len()
    &&& forall|i: int|
        0 <= i < found.len() ==> {
            &&& (#[trigger] found[i]).tensor < visible.len()
            &&& expansion.captures[i] == visible[found[i].tensor as int]
            &&& expansion.captures[i].ty.element == found[i].element
        }
    &&& bound_at_slots(
        plan.bindings,
        expansion.domain.inputs.len(),
        found.len(),
        expansion.scalars.len(),
    )
    &&& expansion.domain.inputs.len() + found.len() <= usize::MAX
    &&& expansion.scalars.len() <= usize::MAX
    &&& plan.extent.len() == call.axes.len()
    &&& forall|axis: int|
        0 <= axis < call.axes.len() ==> #[trigger] plan.extent[axis] == call.axes[axis]
    &&& plan.input_extents.len() == described.len()
    &&& forall|i: int|
        0 <= i < described.len() ==> (#[trigger] plan.input_extents[i]).len()
            == described[i].axes.len()
    &&& forall|i: int, axis: int|
        0 <= i < described.len() && 0 <= axis < described[i].axes.len() ==> #[trigger]
        plan.input_extents[i][axis] == described[i].axes[axis]
}

proof fn lemma_input_slots<'a, V>(
    function: SourceFunction,
    expansion: ExpansionView<'a>,
    visible: Seq<TensorParameter<'a>>,
    call: Call<V>,
    plan: PlanView,
    i: int,
)
    requires
        plan_fits(expansion, visible, call, plan),
        0 <= i < expansion.domain.inputs.len(),
    ensures
        slots_of(function, expansion, call, plan)[input_slot(i as nat) as int]
            == (Content::Elements {
            ty: expansion.kernel.inputs[i].msl_text(),
            values: call.tensors[expansion.domain.inputs[i].ident.name@].values,
        }),
{
    assert(plan.bindings[input_slot(i as nat) as int] == Resource::Input(i as usize));
}

proof fn lemma_capture_slots<'a, V>(
    function: SourceFunction,
    expansion: ExpansionView<'a>,
    visible: Seq<TensorParameter<'a>>,
    call: Call<V>,
    plan: PlanView,
    i: int,
)
    requires
        plan_fits(expansion, visible, call, plan),
        0 <= i < captures_of(expansion.kernel.body).len(),
    ensures
        ({
            let slots = slots_of(function, expansion, call, plan);
            let sources = expansion.domain.inputs.len();
            let found = captures_of(expansion.kernel.body);
            let tensor = call.tensors[visible[found[i].tensor as int].ident.name@];
            &&& slots[capture_slot(sources, i as nat) as int] == (Content::Elements {
                ty: found[i].element.msl_text(),
                values: tensor.values,
            })
            &&& slots[capture_extent_slot(sources, found.len(), i as nat) as int] == Content::<
                V,
            >::Lengths(lengths_of(tensor.axes))
        }),
{
    let sources = expansion.domain.inputs.len();
    let found = captures_of(expansion.kernel.body);
    let described = dispatched(expansion, call);
    let slot = capture_slot(sources, i as nat) as int;
    let extent = capture_extent_slot(sources, found.len(), i as nat) as int;
    let index = (sources + i) as usize;
    assert(plan.bindings[slot] == Resource::Input(index));
    assert(plan.bindings[extent] == Resource::InputExtent(index));
    assert(expansion.captures[i] == visible[found[i].tensor as int]);
    assert((expansion.domain.inputs + expansion.captures)[index as int] == expansion.captures[i]);
    let axes = call.tensors[expansion.captures[i].ident.name@].axes;
    assert(described[index as int].axes == axes);
    assert(plan.input_extents[index as int].len() == axes.len());
    assert forall|axis: int| 0 <= axis < axes.len() implies #[trigger] plan.input_extents[
        index as int
    ][axis] == axes[axis] by {
        assert(plan.input_extents[index as int][axis] == described[index as int].axes[axis]);
    }
    assert(plan.input_extents[index as int].map_values(|length: u32| length as nat) =~= lengths_of(
        axes,
    ));
}

proof fn lemma_scalar_slots<'a, V>(
    function: SourceFunction,
    expansion: ExpansionView<'a>,
    visible: Seq<TensorParameter<'a>>,
    call: Call<V>,
    plan: PlanView,
    i: int,
)
    requires
        plan_fits(expansion, visible, call, plan),
        call.scalars.dom() == scalar_map(expansion.scalars).dom(),
        distinct(call.scalars.dom()),
        0 <= i < expansion.scalars.len(),
    ensures
        ({
            let slots = slots_of(function, expansion, call, plan);
            let sources = expansion.domain.inputs.len();
            let found = captures_of(expansion.kernel.body);
            slots[scalar_slot(sources, found.len(), i as nat) as int] == (Content::Scalar {
                ty: expansion.kernel.scalars[i].ty.msl_text(),
                value: kernel_values(call.scalars)[expansion.kernel.scalars[i].name],
            })
        }),
{
    let sources = expansion.domain.inputs.len();
    let found = captures_of(expansion.kernel.body);
    let slot = scalar_slot(sources, found.len(), i as nat) as int;
    assert(plan.bindings[slot] == Resource::Scalar(i as usize));
    lemma_scalar_map_names(expansion.scalars, i);
    lemma_kernel_values(call.scalars, expansion.scalars[i].ident.name@);
}

proof fn lemma_plan_fits<'a, V>(function: &'a SourceFunction, call: Call<V>, element_size: nat)
    requires
        expanded(function) is Ok,
        fitting(function, call),
        planned(
            call.axes,
            dispatched(expanded(function)->Ok_0, call),
            expanded(function)->Ok_0.scalars.len(),
            element_size,
        ) is Ok,
    ensures
        ({
            let expansion = expanded(function)->Ok_0;
            let plan = planned(
                call.axes,
                dispatched(expansion, call),
                expansion.scalars.len(),
                element_size,
            )->Ok_0;
            &&& plan_fits(expansion, visible_tensors(function), call, plan)
            &&& positive(call.axes)
        }),
{
    let expansion = expanded(function)->Ok_0;
    let described = dispatched(expansion, call);
    let scalars = expansion.scalars.len();
    law_captures_are_parameters(function);
    law_plans_are_exact(call.axes, described, scalars, element_size);
    assert(sources_first(described, expansion.domain.inputs.len()));
}

proof fn lemma_bound_for<'a, V>(
    function: &'a SourceFunction,
    call: Call<V>,
    element_size: nat,
    linear: nat,
)
    requires
        expanded(function) is Ok,
        fitting(function, call),
        planned(
            call.axes,
            dispatched(expanded(function)->Ok_0, call),
            expanded(function)->Ok_0.scalars.len(),
            element_size,
        ) is Ok,
    ensures
        ({
            let expansion = expanded(function)->Ok_0;
            let plan = planned(
                call.axes,
                dispatched(expansion, call),
                expansion.scalars.len(),
                element_size,
            )->Ok_0;
            bound_for(
                expansion.kernel,
                captured_tensors(visible_tensors(function)),
                slots_of(*function, expansion, call, plan),
                thread_at(
                    mapped_tensors(expansion, call.tensors),
                    seen_tensors(function, call),
                    kernel_values(call.scalars),
                    call.axes,
                    linear,
                ),
                call.axes,
                linear,
                plan.count as nat,
            )
        }),
{
    let expansion = expanded(function)->Ok_0;
    let plan = planned(
        call.axes,
        dispatched(expansion, call),
        expansion.scalars.len(),
        element_size,
    )->Ok_0;
    lemma_plan_fits(function, call, element_size);
    lemma_output_name(function);
    lemma_point_rank(function);
    lemma_slots(
        *function,
        expansion,
        visible_tensors(function),
        call,
        plan,
        linear,
    );
}

proof fn lemma_slots<'a, V>(
    function: SourceFunction,
    expansion: ExpansionView<'a>,
    visible: Seq<TensorParameter<'a>>,
    call: Call<V>,
    plan: PlanView,
    linear: nat,
)
    requires
        plan_fits(expansion, visible, call, plan),
        positive(call.axes),
        expansion.kernel.output.msl_text() == output_type(function),
        call.scalars.dom() == scalar_map(expansion.scalars).dom(),
        distinct(call.scalars.dom()),
        forall|i: int|
            0 <= i < visible.len() ==> (known_rank(
                *(#[trigger] visible[i]).ty.rank,
            ) matches Some(rank) ==> call.tensors[visible[i].ident.name@].axes.len() == rank),
        expansion.kernel.logical_rank matches Some(rank) ==> call.axes.len() == rank,
    ensures
        bound_for(
            expansion.kernel,
            captured_tensors(visible),
            slots_of(function, expansion, call, plan),
            thread_at(
                mapped_tensors(expansion, call.tensors),
                visible.map_values(
                    |parameter: TensorParameter<'a>| call.tensors[parameter.ident.name@],
                ),
                kernel_values(call.scalars),
                call.axes,
                linear,
            ),
            call.axes,
            linear,
            plan.count as nat,
        ),
{
    let kernel = expansion.kernel;
    let slots = slots_of(function, expansion, call, plan);
    let seen = visible.map_values(
        |parameter: TensorParameter<'a>| call.tensors[parameter.ident.name@],
    );
    let thread = thread_at(
        mapped_tensors(expansion, call.tensors),
        seen,
        kernel_values(call.scalars),
        call.axes,
        linear,
    );
    let sources = expansion.domain.inputs.len();
    let found = captures_of(kernel.body);
    let scalars = expansion.scalars.len();
    assert forall|i: int| 0 <= i < sources implies (
    #[trigger] slots[input_slot(i as nat) as int] matches Content::Elements { ty, values } && ty
        == kernel.inputs[i].msl_text() && values[linear as int] == thread.inputs[i]) by {
        lemma_input_slots(function, expansion, visible, call, plan, i);
    }
    assert forall|i: int| 0 <= i < found.len() implies #[trigger] slots[capture_slot(
        sources,
        i as nat,
    ) as int] == (Content::Elements {
        ty: found[i].element.msl_text(),
        values: thread.captures[found[i].tensor as int].values,
    }) by {
        lemma_capture_slots(function, expansion, visible, call, plan, i);
    }
    assert forall|i: int| 0 <= i < found.len() implies #[trigger] slots[capture_extent_slot(
        sources,
        found.len(),
        i as nat,
    ) as int] == Content::<V>::Lengths(
        lengths_of(thread.captures[found[i].tensor as int].axes),
    ) by {
        lemma_capture_slots(function, expansion, visible, call, plan, i);
    }
    assert forall|i: int| 0 <= i < scalars implies #[trigger] slots[scalar_slot(
        sources,
        found.len(),
        i as nat,
    ) as int] == (Content::Scalar {
        ty: kernel.scalars[i].ty.msl_text(),
        value: thread.scalars[kernel.scalars[i].name],
    }) by {
        lemma_scalar_slots(function, expansion, visible, call, plan, i);
    }
    assert(plan.extent.map_values(|length: u32| length as nat) =~= lengths_of(call.axes));
    assert(thread.extent =~= lengths_of(call.axes));
    lemma_coordinates_in_bounds(call.axes, linear);
    assert(plan.bindings[0] == Resource::Output);
}

/// The rank of the points that a kernel reconstructs is that of what it runs over.
proof fn lemma_point_rank<'a>(function: &'a SourceFunction)
    requires
        expanded(function) is Ok,
    ensures
        expanded(function)->Ok_0.kernel.logical_rank matches Some(rank) ==> known_rank(
            *expanded(function)->Ok_0.domain.rank(),
        ) == Some(rank),
{
}

/// The kernel writes elements of the type that the function returns.
proof fn lemma_output_name<'a>(function: &'a SourceFunction)
    requires
        expanded(function) is Ok,
    ensures
        expanded(function)->Ok_0.kernel.output.msl_text() == output_type(*function),
{
    lemma_metal_name(
        referent(&function.output->Type_0).kind->last->0.arguments->AngleBracketed_arguments@[0]
            ->Type_0.kind->last->0.name@,
    );
}

/// What the closure of a function computes for a point, in Rust.
pub open spec fn mapped_value<V>(
    function: SourceFunction,
    call: Call<V>,
    point: Seq<usize>,
    device: Device<V>,
) -> V {
    let closure = closure_of(function);
    let given = item(iterator_of(function), call.tensors, point);
    let pattern = closure.inputs@[0];
    let names = names_of(pattern, given, call.scalars, device);
    body_meaning(
        *closure.body,
        output_type(function),
        names,
        names.dom(),
        Place {
            point: point_name(pattern, given),
            coordinates: numbers(point),
            lengths: numbers(call.axes),
            tensors: call.tensors,
        },
        device,
    )
}

/// A compiled function, dispatched as planned, computes its map. Its source is the text of a Metal
/// kernel, and with what the plan binds at the slots that the text names, the thread at the
/// position of a point writes what the closure computes for that point, at that position of the
/// output.
pub proof fn law_a_dispatch_computes_the_map<'a, V>(
    function: &'a SourceFunction,
    family: Set<Seq<char>>,
    call: Call<V>,
    element_size: nat,
    point: Seq<usize>,
    device: Device<V>,
)
    requires
        expanded(function) is Ok,
        fitting(function, call),
        distinct(family),
        body_within(*closure_of(*function).body, family),
        in_bounds(call.axes, point),
    ensures
        ({
            let expansion = expanded(function)->Ok_0;
            planned(
                call.axes,
                dispatched(expansion, call),
                expansion.scalars.len(),
                element_size,
            ) matches Ok(plan) ==> exists|kernel: MetalKernel| #[trigger]
                kernel_source(kernel) == expansion.source && kernel.name == expansion.kernel.name
                    && ({
                    let position = offset(call.axes, point);
                    effect(
                        kernel,
                        slots_of(*function, expansion, call, plan),
                        position,
                        device,
                    ) == Some(
                        Effect::Write {
                            slot: output_slot(),
                            index: position,
                            value: mapped_value(*function, call, point, device),
                        },
                    )
                })
        }),
{
    let expansion = expanded(function)->Ok_0;
    let described = dispatched(expansion, call);
    let scalars = expansion.scalars.len();
    if let Ok(plan) = planned(call.axes, described, scalars, element_size) {
        let linear = offset(call.axes, point);
        let slots = slots_of(*function, expansion, call, plan);
        let inputs = mapped_tensors(expansion, call.tensors);
        let seen = seen_tensors(function, call);
        let values = kernel_values(call.scalars);
        let thread = thread_at(inputs, seen, values, call.axes, linear);
        let visible = visible_tensors(function);
        let tensors = captured_tensors(visible);
        lemma_bound_for(function, call, element_size, linear);
        lemma_captures_are_parameters(function);
        law_kernel_source_computes_the_body(
            expansion.kernel,
            tensors,
            slots,
            thread,
            call.axes,
            linear,
            plan.count as nat,
            device,
        );
        lemma_names(function, call.tensors, call.scalars, point, device);
        assert forall|name: Seq<char>| #[trigger]
            call.scalars.dom().contains(name) implies values[scalar_text(name)]
            == call.scalars[name] by {
            lemma_kernel_values(call.scalars, name);
        }
        law_the_output_is_the_map(
            function,
            family,
            inputs,
            seen,
            call.scalars,
            values,
            call.axes,
            point,
            device,
        );
        law_plans_are_exact(call.axes, described, scalars, element_size);
        lemma_visible_tensors_len(function);
        assert forall|name: Seq<char>| #[trigger]
            call.tensors.dom().contains(name) implies named_tensors(visible, seen)[name]
            == call.tensors[name] by {
            lemma_tensor_map(visible, name);
        }
        assert(named_tensors(visible, seen) =~= call.tensors);
    }
}

/// A thread at a position past the last element writes nothing.
pub proof fn law_threads_past_the_end_write_nothing<'a, V>(
    function: &'a SourceFunction,
    call: Call<V>,
    element_size: nat,
    position: nat,
    device: Device<V>,
)
    requires
        expanded(function) is Ok,
        fitting(function, call),
        position >= product(call.axes),
    ensures
        ({
            let expansion = expanded(function)->Ok_0;
            planned(
                call.axes,
                dispatched(expansion, call),
                expansion.scalars.len(),
                element_size,
            ) matches Ok(plan) ==> exists|kernel: MetalKernel| #[trigger]
                kernel_source(kernel) == expansion.source && effect(
                    kernel,
                    slots_of(*function, expansion, call, plan),
                    position,
                    device,
                ) == Some(Effect::<V>::Nothing)
        }),
{
    let expansion = expanded(function)->Ok_0;
    let described = dispatched(expansion, call);
    let scalars = expansion.scalars.len();
    if let Ok(plan) = planned(call.axes, described, scalars, element_size) {
        lemma_bound_for(function, call, element_size, position);
        lemma_captures_are_parameters(function);
        law_plans_are_exact(call.axes, described, scalars, element_size);
        law_kernel_source_computes_the_body(
            expansion.kernel,
            captured_tensors(visible_tensors(function)),
            slots_of(*function, expansion, call, plan),
            thread_at(
                mapped_tensors(expansion, call.tensors),
                seen_tensors(function, call),
                kernel_values(call.scalars),
                call.axes,
                position,
            ),
            call.axes,
            position,
            plan.count as nat,
            device,
        );
    }
}

} // verus!
