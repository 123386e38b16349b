//! Running element kernels: what is checked, what is bound where, and in what order the device
//! is asked for what.
use vstd::layout::size_of;
use vstd::prelude::*;
use vstd::slice::slice_to_vec;

use crate::error::Error;
use crate::extent::{
    coordinates, counted, in_bounds, law_coordinates_of_offset, law_offset_of_coordinates,
    law_strides, lemma_coordinates_in_bounds, lemma_stride_positive, offset, positive, product,
    stride, Extent,
};
use crate::kernel::{
    capture_extent_slot, capture_slot, count_slot, extent_slot, input_slot,
    law_reconstruction_finds_the_point, output_slot, point_steps, run_steps, scalar_slot,
};
use crate::tensor::{Tensor, TensorView};

verus! {

/// What a dispatch reads of a tensor that it binds.
#[derive(Debug)]
pub struct BufferBinding {
    elements: usize,
    extent: Vec<usize>,
    shape_preserving: bool,
}

/// What a buffer binding is, with its axes as a sequence.
#[verifier::ext_equal]
pub ghost struct BufferBindingView {
    pub elements: usize,
    pub axes: Seq<usize>,
    /// Whether the tensor has one element for each element of the output.
    pub shape_preserving: bool,
}

impl View for BufferBinding {
    type V = BufferBindingView;

    closed spec fn view(&self) -> BufferBindingView {
        BufferBindingView {
            elements: self.elements,
            axes: self.extent@,
            shape_preserving: self.shape_preserving,
        }
    }
}

/// What a dispatch reads of a tensor that it maps.
pub open spec fn source_binding<T>(tensor: TensorView<T>) -> BufferBindingView {
    BufferBindingView {
        elements: tensor.values.len() as usize,
        axes: tensor.axes,
        shape_preserving: true,
    }
}

/// What a dispatch reads of a tensor that the body captures.
pub open spec fn capture_binding<T>(tensor: TensorView<T>) -> BufferBindingView {
    BufferBindingView {
        elements: tensor.values.len() as usize,
        axes: tensor.axes,
        shape_preserving: false,
    }
}

impl Clone for BufferBinding {
    fn clone(&self) -> (copy: Self)
        ensures
            copy@ == self@,
    {
        BufferBinding {
            elements: self.elements,
            extent: slice_to_vec(self.extent.as_slice()),
            shape_preserving: self.shape_preserving,
        }
    }
}

impl BufferBinding {
    /// A tensor of an extent with so many elements.
    pub fn describe<const D: usize>(
        extent: Extent<D>,
        elements: usize,
        shape_preserving: bool,
    ) -> (binding: Self)
        ensures
            binding@ == (BufferBindingView { elements, axes: extent@, shape_preserving }),
    {
        let lengths: [usize; D] = extent.axes();
        let mut axes: Vec<usize> = Vec::new();
        let mut axis: usize = 0;
        while axis < D
            invariant
                axis <= D,
                lengths@.len() == D,
                axes@ == lengths@.take(axis as int),
            decreases D - axis,
        {
            axes.push(lengths[axis]);
            axis += 1;
            assert(axes@ =~= lengths@.take(axis as int));
        }
        assert(lengths@.take(D as int) =~= lengths@);
        BufferBinding { elements, extent: axes, shape_preserving }
    }

    /// A tensor that is mapped over.
    pub fn source<T: Copy, const D: usize>(tensor: &Tensor<T, D>) -> (binding: Self)
        ensures
            binding@.elements == tensor@.values.len(),
            binding@.axes == tensor@.axes,
            binding@.shape_preserving,
            binding@ == source_binding(tensor@),
    {
        BufferBinding::describe(tensor.extent(), tensor.len(), true)
    }

    /// A tensor that is read beside those that are mapped over.
    pub fn capture<T: Copy, const D: usize>(tensor: &Tensor<T, D>) -> (binding: Self)
        ensures
            binding@.elements == tensor@.values.len(),
            binding@.axes == tensor@.axes,
            !binding@.shape_preserving,
            binding@ == capture_binding(tensor@),
    {
        BufferBinding::describe(tensor.extent(), tensor.len(), false)
    }
}

/// What a dispatch reads of a scalar that it binds.
#[derive(Debug, Clone, Copy, PartialEq, Eq, Structural)]
pub struct ScalarBinding {
    pub byte_len: u64,
}

impl ScalarBinding {
    pub fn new<T: Copy>(value: &T) -> (binding: Self)
        ensures
            binding.byte_len == size_of::<T>(),
    {
        ScalarBinding { byte_len: core::mem::size_of::<T>() as u64 }
    }
}

/// What is bound to a buffer slot of a kernel.
#[derive(Debug, Clone, Copy, PartialEq, Eq, Structural)]
pub enum Resource {
    Output,
    /// An input, by its index.
    Input(usize),
    /// The lengths of the axes of an input that is captured, by its index.
    InputExtent(usize),
    /// A scalar, by its index.
    Scalar(usize),
    /// The number of elements.
    Count,
    /// The lengths of the axes.
    Axes,
}

/// The extents that a dispatch binds: those of the inputs that are not mapped over, in their
/// order.
pub open spec fn bound_extents(inputs: Seq<BufferBindingView>) -> Seq<Resource>
    decreases inputs.len(),
{
    if inputs.len() == 0 {
        Seq::empty()
    } else {
        let before = bound_extents(inputs.drop_last());
        if inputs.last().shape_preserving {
            before
        } else {
            before.push(Resource::InputExtent((inputs.len() - 1) as usize))
        }
    }
}

/// What a kernel with such inputs and so many scalars has at its slots, from slot 0 on.
pub open spec fn kernel_bindings(inputs: Seq<BufferBindingView>, scalars: nat) -> Seq<Resource> {
    seq![Resource::Output] + Seq::new(inputs.len(), |i: int| Resource::Input(i as usize))
        + bound_extents(inputs) + Seq::new(scalars, |i: int| Resource::Scalar(i as usize)) + seq![
        Resource::Count,
        Resource::Axes,
    ]
}

proof fn lemma_bound_extents(inputs: Seq<BufferBindingView>, sources: nat)
    requires
        sources_first(inputs, sources),
    ensures
        inputs.len() <= sources ==> bound_extents(inputs).len() == 0,
        sources <= inputs.len() ==> bound_extents(inputs) == Seq::new(
            (inputs.len() - sources) as nat,
            |i: int| Resource::InputExtent((sources + i) as usize),
        ),
    decreases inputs.len(),
{
    if inputs.len() > 0 {
        lemma_bound_extents(inputs.drop_last(), sources);
    }
}

/// Whether the first so many inputs are mapped over, and the others captured.
pub open spec fn sources_first(inputs: Seq<BufferBindingView>, sources: nat) -> bool {
    forall|i: int|
        0 <= i < inputs.len() ==> ((#[trigger] inputs[i]).shape_preserving <==> i < sources)
}

/// Whether each resource is bound at the slot where a kernel with so many inputs, captures and
/// scalars declares it, and nothing else is bound.
pub open spec fn bound_at_slots(
    bindings: Seq<Resource>,
    sources: nat,
    captures: nat,
    scalars: nat,
) -> bool {
    &&& bindings.len() == extent_slot(sources, captures, scalars) + 1
    &&& bindings[output_slot() as int] == Resource::Output
    &&& forall|i: int|
        0 <= i < sources ==> #[trigger] bindings[input_slot(i as nat) as int] == Resource::Input(
            i as usize,
        )
    &&& forall|i: int|
        0 <= i < captures ==> #[trigger] bindings[capture_slot(sources, i as nat) as int]
            == Resource::Input((sources + i) as usize)
    &&& forall|i: int|
        0 <= i < captures ==> #[trigger] bindings[capture_extent_slot(
            sources,
            captures,
            i as nat,
        ) as int] == Resource::InputExtent((sources + i) as usize)
    &&& forall|i: int|
        0 <= i < scalars ==> #[trigger] bindings[scalar_slot(sources, captures, i as nat) as int]
            == Resource::Scalar(i as usize)
    &&& bindings[count_slot(sources, captures, scalars) as int] == Resource::Count
    &&& bindings[extent_slot(sources, captures, scalars) as int] == Resource::Axes
}

/// A dispatch of sources and then captures binds each resource at the slot where the kernel
/// declares it, and binds nothing else.
pub proof fn law_bindings_match_the_kernel(
    inputs: Seq<BufferBindingView>,
    sources: nat,
    scalars: nat,
)
    requires
        sources <= inputs.len(),
        sources_first(inputs, sources),
    ensures
        bound_at_slots(
            kernel_bindings(inputs, scalars),
            sources,
            (inputs.len() - sources) as nat,
            scalars,
        ),
{
    lemma_bound_extents(inputs, sources);
}

/// The error of the first mapped input whose number of elements is not that of the output.
pub open spec fn shape_error(inputs: Seq<BufferBindingView>, elements: usize) -> Option<Error>
    decreases inputs.len(),
{
    if inputs.len() == 0 {
        None
    } else {
        match shape_error(inputs.drop_last(), elements) {
            Some(error) => Some(error),
            None => if inputs.last().shape_preserving && inputs.last().elements != elements {
                Some(Error::ShapeMismatch { expected: elements, actual: inputs.last().elements })
            } else {
                None
            },
        }
    }
}

/// Whether a device index can hold the length of every axis.
pub open spec fn device_sized(axes: Seq<usize>) -> bool {
    forall|axis: int| 0 <= axis < axes.len() ==> #[trigger] axes[axis] <= u32::MAX
}

/// The error of the first input with an axis that a device index cannot hold.
pub open spec fn size_error(inputs: Seq<BufferBindingView>) -> Option<Error>
    decreases inputs.len(),
{
    if inputs.len() == 0 {
        None
    } else {
        match size_error(inputs.drop_last()) {
            Some(error) => Some(error),
            None => if !device_sized(inputs.last().axes) {
                Some(Error::TensorTooLarge { elements: inputs.last().elements })
            } else {
                None
            },
        }
    }
}

/// A dispatch of a kernel over an extent.
#[derive(Debug)]
pub struct Plan {
    pub elements: usize,
    /// The number of elements as the kernel reads it.
    pub count: u32,
    /// The lengths of the axes as the kernel reads them.
    pub extent: Vec<u32>,
    /// The lengths of the axes of each input as the kernel reads them.
    pub input_extents: Vec<Vec<u32>>,
    /// What is bound, by slot.
    pub bindings: Vec<Resource>,
    /// The bytes of an element of the output.
    pub element_size: usize,
}

/// What a plan is, with its lists as sequences.
#[verifier::ext_equal]
pub ghost struct PlanView {
    pub elements: usize,
    pub count: u32,
    pub extent: Seq<u32>,
    pub input_extents: Seq<Seq<u32>>,
    pub bindings: Seq<Resource>,
    pub element_size: nat,
}

impl View for Plan {
    type V = PlanView;

    open spec fn view(&self) -> PlanView {
        PlanView {
            elements: self.elements,
            count: self.count,
            extent: self.extent@,
            input_extents: self.input_extents@.map_values(|lengths: Vec<u32>| lengths@),
            bindings: self.bindings@,
            element_size: self.element_size as nat,
        }
    }
}

/// The lengths of axes as a kernel reads them.
pub open spec fn device_lengths(axes: Seq<usize>) -> Seq<u32> {
    axes.map_values(|length: usize| length as u32)
}

/// The plan of a dispatch, or why it cannot be made.
pub open spec fn planned(
    axes: Seq<usize>,
    inputs: Seq<BufferBindingView>,
    scalars: nat,
    element_size: nat,
) -> Result<PlanView, Error> {
    match counted(axes) {
        Ok(elements) => if elements > u32::MAX {
            Err(Error::TensorTooLarge { elements })
        } else if let Some(error) = shape_error(inputs, elements) {
            Err(error)
        } else if let Some(error) = size_error(inputs) {
            Err(error)
        } else {
            Ok(
                PlanView {
                    elements,
                    count: elements as u32,
                    extent: device_lengths(axes),
                    input_extents: inputs.map_values(
                        |input: BufferBindingView| device_lengths(input.axes),
                    ),
                    bindings: kernel_bindings(inputs, scalars),
                    element_size,
                },
            )
        },
        Err(error) => Err(error),
    }
}

/// No axis is longer than the number of elements.
pub proof fn lemma_axis_bound(axes: Seq<usize>, axis: int, count: int)
    requires
        positive(axes),
        0 <= axis < count <= axes.len(),
    ensures
        axes[axis] <= stride(axes, count),
    decreases count,
{
    law_strides(axes, count - 1);
    lemma_stride_positive(axes, count - 1);
    let before = stride(axes, count - 1) as int;
    let length = axes[count - 1] as int;
    assert(axes[count - 1] > 0);
    assert(before * length >= length && before * length >= before) by (nonlinear_arith)
        requires
            before > 0,
            length > 0,
    ;
    if axis < count - 1 {
        lemma_axis_bound(axes, axis, count - 1);
    }
}

/// The views of a sequence of buffer bindings.
pub open spec fn binding_views(inputs: Seq<BufferBinding>) -> Seq<BufferBindingView> {
    inputs.map_values(|input: BufferBinding| input@)
}

proof fn lemma_shape_error_stays(inputs: Seq<BufferBindingView>, elements: usize, count: int)
    requires
        0 <= count <= inputs.len(),
        shape_error(inputs.take(count), elements) is Some,
    ensures
        shape_error(inputs, elements) == shape_error(inputs.take(count), elements),
    decreases inputs.len(),
{
    if count < inputs.len() {
        assert(inputs.drop_last().take(count) =~= inputs.take(count));
        lemma_shape_error_stays(inputs.drop_last(), elements, count);
    } else {
        assert(inputs.take(count) =~= inputs);
    }
}

proof fn lemma_size_error_stays(inputs: Seq<BufferBindingView>, count: int)
    requires
        0 <= count <= inputs.len(),
        size_error(inputs.take(count)) is Some,
    ensures
        size_error(inputs) == size_error(inputs.take(count)),
    decreases inputs.len(),
{
    if count < inputs.len() {
        assert(inputs.drop_last().take(count) =~= inputs.take(count));
        lemma_size_error_stays(inputs.drop_last(), count);
    } else {
        assert(inputs.take(count) =~= inputs);
    }
}

fn check_shapes(inputs: &[BufferBinding], elements: usize) -> (checked: Result<(), Error>)
    ensures
        checked == match shape_error(binding_views(inputs@), elements) {
            Some(error) => Err(error),
            None => Ok(()),
        },
{
    let ghost views = binding_views(inputs@);
    let mut index: usize = 0;
    while index < inputs.len()
        invariant
            index <= inputs@.len(),
            views == binding_views(inputs@),
            shape_error(views.take(index as int), elements) is None,
        decreases inputs@.len() - index,
    {
        let ghost next = views.take(index + 1);
        assert(next.drop_last() =~= views.take(index as int));
        assert(next.last() == inputs@[index as int]@);
        let input = &inputs[index];
        if input.shape_preserving && input.elements != elements {
            proof {
                lemma_shape_error_stays(views, elements, index + 1);
            }
            return Err(Error::ShapeMismatch { expected: elements, actual: input.elements });
        }
        index += 1;
    }
    assert(views.take(views.len() as int) =~= views);
    Ok(())
}

fn fits_device(axes: &Vec<usize>) -> (fits: bool)
    ensures
        fits == device_sized(axes@),
{
    let mut axis: usize = 0;
    while axis < axes.len()
        invariant
            axis <= axes@.len(),
            forall|i: int| 0 <= i < axis ==> #[trigger] axes@[i] <= u32::MAX,
        decreases axes@.len() - axis,
    {
        if axes[axis] > u32::MAX as usize {
            return false;
        }
        axis += 1;
    }
    true
}

fn check_sizes(inputs: &[BufferBinding]) -> (checked: Result<(), Error>)
    ensures
        checked == match size_error(binding_views(inputs@)) {
            Some(error) => Err(error),
            None => Ok(()),
        },
{
    let ghost views = binding_views(inputs@);
    let mut index: usize = 0;
    while index < inputs.len()
        invariant
            index <= inputs@.len(),
            views == binding_views(inputs@),
            size_error(views.take(index as int)) is None,
        decreases inputs@.len() - index,
    {
        let ghost next = views.take(index + 1);
        assert(next.drop_last() =~= views.take(index as int));
        assert(next.last() == inputs@[index as int]@);
        let input = &inputs[index];
        if !fits_device(&input.extent) {
            proof {
                lemma_size_error_stays(views, index + 1);
            }
            return Err(Error::TensorTooLarge { elements: input.elements });
        }
        index += 1;
    }
    assert(views.take(views.len() as int) =~= views);
    Ok(())
}

fn device_extent<const D: usize>(extent: Extent<D>) -> (lengths: Vec<u32>)
    requires
        positive(extent@),
        product(extent@) <= u32::MAX,
    ensures
        lengths@ == device_lengths(extent@),
{
    let axes: [usize; D] = extent.axes();
    let mut lengths: Vec<u32> = Vec::new();
    let mut axis: usize = 0;
    while axis < D
        invariant
            axis <= D,
            axes@ == extent@,
            axes@.len() == D,
            positive(extent@),
            product(extent@) <= u32::MAX,
            lengths@.len() == axis,
            forall|i: int| 0 <= i < axis ==> #[trigger] lengths@[i] == axes@[i] as u32,
        decreases D - axis,
    {
        proof {
            lemma_axis_bound(extent@, axis as int, D as int);
            assert(extent@.take(D as int) =~= extent@);
        }
        lengths.push(axes[axis] as u32);
        axis += 1;
    }
    assert(lengths@ =~= device_lengths(extent@));
    lengths
}

proof fn lemma_no_size_error(inputs: Seq<BufferBindingView>)
    requires
        size_error(inputs) is None,
    ensures
        forall|i: int| 0 <= i < inputs.len() ==> device_sized((#[trigger] inputs[i]).axes),
    decreases inputs.len(),
{
    if inputs.len() > 0 {
        let shorter = inputs.drop_last();
        lemma_no_size_error(shorter);
        assert forall|i: int| 0 <= i < inputs.len() implies device_sized(
            (#[trigger] inputs[i]).axes,
        ) by {
            if i < shorter.len() {
                assert(shorter[i] == inputs[i]);
            }
        }
    }
}

fn convert_lengths(axes: &Vec<usize>) -> (lengths: Vec<u32>)
    requires
        device_sized(axes@),
    ensures
        lengths@ == device_lengths(axes@),
{
    let mut lengths: Vec<u32> = Vec::new();
    let mut axis: usize = 0;
    while axis < axes.len()
        invariant
            axis <= axes@.len(),
            device_sized(axes@),
            lengths@ =~= device_lengths(axes@).take(axis as int),
        decreases axes@.len() - axis,
    {
        lengths.push(axes[axis] as u32);
        axis += 1;
    }
    lengths
}

fn convert_extents(inputs: &[BufferBinding]) -> (extents: Vec<Vec<u32>>)
    requires
        size_error(binding_views(inputs@)) is None,
    ensures
        extents@.map_values(|lengths: Vec<u32>| lengths@) == binding_views(inputs@).map_values(
            |input: BufferBindingView| device_lengths(input.axes),
        ),
{
    let ghost views = binding_views(inputs@);
    proof {
        lemma_no_size_error(views);
    }
    let mut extents: Vec<Vec<u32>> = Vec::new();
    let mut index: usize = 0;
    while index < inputs.len()
        invariant
            index <= inputs@.len(),
            views == binding_views(inputs@),
            forall|i: int| 0 <= i < views.len() ==> device_sized((#[trigger] views[i]).axes),
            extents@.len() == index,
            forall|i: int|
                0 <= i < index ==> (#[trigger] extents@[i])@ == device_lengths(views[i].axes),
        decreases inputs@.len() - index,
    {
        assert(views[index as int] == inputs@[index as int]@);
        extents.push(convert_lengths(&inputs[index].extent));
        index += 1;
    }
    assert(extents@.map_values(|lengths: Vec<u32>| lengths@) =~= views.map_values(
        |input: BufferBindingView| device_lengths(input.axes),
    ));
    extents
}

fn bind_extents(inputs: &[BufferBinding], bindings: &mut Vec<Resource>)
    ensures
        final(bindings)@ == old(bindings)@ + bound_extents(binding_views(inputs@)),
{
    let ghost views = binding_views(inputs@);
    let ghost before = bindings@;
    assert(before + bound_extents(views.take(0)) =~= before);
    let mut index: usize = 0;
    while index < inputs.len()
        invariant
            index <= inputs@.len(),
            views == binding_views(inputs@),
            bindings@ == before + bound_extents(views.take(index as int)),
        decreases inputs@.len() - index,
    {
        let ghost next = views.take(index + 1);
        assert(next.drop_last() =~= views.take(index as int));
        assert(next.last() == inputs@[index as int]@);
        if !inputs[index].shape_preserving {
            bindings.push(Resource::InputExtent(index));
        }
        assert(bindings@ =~= before + bound_extents(next));
        index += 1;
    }
    assert(views.take(views.len() as int) =~= views);
}

fn bind(inputs: &[BufferBinding], scalars: usize) -> (bindings: Vec<Resource>)
    ensures
        bindings@ == kernel_bindings(binding_views(inputs@), scalars as nat),
{
    let mut bindings: Vec<Resource> = Vec::new();
    bindings.push(Resource::Output);
    let mut index: usize = 0;
    while index < inputs.len()
        invariant
            index <= inputs@.len(),
            bindings@ == seq![Resource::Output] + Seq::new(
                index as nat,
                |i: int| Resource::Input(i as usize),
            ),
        decreases inputs@.len() - index,
    {
        bindings.push(Resource::Input(index));
        index += 1;
        assert(bindings@ =~= seq![Resource::Output] + Seq::new(
            index as nat,
            |i: int| Resource::Input(i as usize),
        ));
    }
    bind_extents(inputs, &mut bindings);
    let ghost before = bindings@;
    let mut index: usize = 0;
    while index < scalars
        invariant
            index <= scalars,
            bindings@ == before + Seq::new(index as nat, |i: int| Resource::Scalar(i as usize)),
        decreases scalars - index,
    {
        bindings.push(Resource::Scalar(index));
        index += 1;
        assert(bindings@ =~= before + Seq::new(
            index as nat,
            |i: int| Resource::Scalar(i as usize),
        ));
    }
    bindings.push(Resource::Count);
    bindings.push(Resource::Axes);
    assert(bindings@ =~= kernel_bindings(binding_views(inputs@), scalars as nat));
    bindings
}

/// Plans the dispatch of a kernel with elements of type `T` over an extent.
pub fn plan_elementwise<T: Copy, const D: usize>(
    extent: Extent<D>,
    inputs: &[BufferBinding],
    scalars: &[ScalarBinding],
) -> (plan: Result<Plan, Error>)
    ensures
        match (
            plan,
            planned(extent@, binding_views(inputs@), scalars@.len(), size_of::<T>()),
        ) {
            (Ok(plan), Ok(expected)) => plan@ == expected,
            (Err(error), Err(expected)) => error == expected,
            _ => false,
        },
{
    let elements: usize = match extent.element_count() {
        Ok(elements) => elements,
        Err(error) => return Err(error),
    };
    if elements > u32::MAX as usize {
        return Err(Error::TensorTooLarge { elements });
    }
    let count: u32 = elements as u32;
    let lengths: Vec<u32> = device_extent(extent);
    match check_shapes(inputs, elements) {
        Ok(()) => {},
        Err(error) => return Err(error),
    }
    match check_sizes(inputs) {
        Ok(()) => {},
        Err(error) => return Err(error),
    }
    let input_extents: Vec<Vec<u32>> = convert_extents(inputs);
    let bindings = bind(inputs, scalars.len());
    let element_size: usize = core::mem::size_of::<T>();
    Ok(Plan { elements, count, extent: lengths, input_extents, bindings, element_size })
}

/// What a kernel is told of its extent and of those of its inputs is exact, every input that is
/// mapped has one element for each element of the output, and there is something to compute. A
/// plan for sources and then captures binds each of them, the extent of each capture, each scalar,
/// the count and the lengths of the axes at the slot where the kernel declares it.
pub proof fn law_plans_are_exact(
    axes: Seq<usize>,
    inputs: Seq<BufferBindingView>,
    scalars: nat,
    element_size: nat,
)
    ensures
        planned(axes, inputs, scalars, element_size) matches Ok(plan) ==> plan.element_size
            == element_size,
        forall|sources: nat|
            #![trigger sources_first(inputs, sources)]
            sources <= inputs.len() && sources_first(inputs, sources) ==> (planned(
                axes,
                inputs,
                scalars,
                element_size,
            ) matches Ok(plan) ==> bound_at_slots(
                plan.bindings,
                sources,
                (inputs.len() - sources) as nat,
                scalars,
            )),
        planned(axes, inputs, scalars, element_size) matches Ok(plan) ==> {
            &&& plan.elements == product(axes)
            &&& plan.elements > 0
            &&& plan.count == plan.elements
            &&& plan.extent.len() == axes.len()
            &&& forall|axis: int|
                0 <= axis < axes.len() ==> #[trigger] plan.extent[axis] == axes[axis]
            &&& forall|i: int|
                0 <= i < inputs.len() && (#[trigger] inputs[i]).shape_preserving
                    ==> inputs[i].elements == plan.elements
            &&& plan.input_extents.len() == inputs.len()
            &&& forall|i: int|
                0 <= i < inputs.len() ==> (#[trigger] plan.input_extents[i]).len()
                    == inputs[i].axes.len()
            &&& forall|i: int, axis: int|
                0 <= i < inputs.len() && 0 <= axis < inputs[i].axes.len() ==> #[trigger]
                plan.input_extents[i][axis] == inputs[i].axes[axis]
        },
{
    if let Ok(plan) = planned(axes, inputs, scalars, element_size) {
        assert forall|sources: nat|
            #![trigger sources_first(inputs, sources)]
            sources <= inputs.len() && sources_first(inputs, sources) implies bound_at_slots(
            plan.bindings,
            sources,
            (inputs.len() - sources) as nat,
            scalars,
        ) by {
            law_bindings_match_the_kernel(inputs, sources, scalars);
        }
        lemma_stride_positive(axes, axes.len() as int);
        assert(axes.take(axes.len() as int) =~= axes);
        assert forall|axis: int| 0 <= axis < axes.len() implies #[trigger] plan.extent[axis]
            == axes[axis] by {
            lemma_axis_bound(axes, axis, axes.len() as int);
        }
        lemma_no_shape_error(inputs, plan.elements);
        lemma_no_size_error(inputs);
        assert forall|i: int, axis: int|
            0 <= i < inputs.len() && 0 <= axis < inputs[i].axes.len() implies #[trigger]
        plan.input_extents[i][axis] == inputs[i].axes[axis] by {
            assert(device_sized(inputs[i].axes));
            assert(inputs[i].axes[axis] <= u32::MAX);
            assert(plan.input_extents[i] == device_lengths(inputs[i].axes));
        }
    }
}

proof fn lemma_no_shape_error(inputs: Seq<BufferBindingView>, elements: usize)
    requires
        shape_error(inputs, elements) is None,
    ensures
        forall|i: int|
            0 <= i < inputs.len() && (#[trigger] inputs[i]).shape_preserving ==> inputs[i].elements
                == elements,
    decreases inputs.len(),
{
    if inputs.len() > 0 {
        let shorter = inputs.drop_last();
        lemma_no_shape_error(shorter, elements);
        assert forall|i: int|
            0 <= i < inputs.len() && (
            #[trigger] inputs[i]).shape_preserving implies inputs[i].elements == elements by {
            if i < shorter.len() {
                assert(shorter[i] == inputs[i]);
            }
        }
    }
}

/// Every point of the extent is computed by exactly one thread: by the one at the point's linear
/// position, which is among the threads of the dispatch.
pub proof fn law_every_point_is_computed_once(
    axes: Seq<usize>,
    inputs: Seq<BufferBindingView>,
    scalars: nat,
    element_size: nat,
    point: Seq<usize>,
    thread: nat,
)
    requires
        in_bounds(axes, point),
        planned(axes, inputs, scalars, element_size) is Ok,
        thread < planned(axes, inputs, scalars, element_size)->Ok_0.count,
    ensures
        offset(axes, point) < planned(axes, inputs, scalars, element_size)->Ok_0.count,
        is_point_of_thread(axes, point, thread) <==> thread == offset(axes, point),
{
    law_plans_are_exact(axes, inputs, scalars, element_size);
    law_coordinates_of_offset(axes, point);
    law_reconstruction_finds_the_point(axes, thread);
    law_offset_of_coordinates(axes, thread);
    lemma_coordinates_in_bounds(axes, thread);
    let found = run_steps(point_steps(axes.len(), axes.len()), axes, thread).point;
    let expected = coordinates(axes, thread);
    if thread == offset(axes, point) {
        assert forall|axis: int| 0 <= axis < axes.len() implies #[trigger] found[axis]
            == point[axis] by {
            assert(expected[axis] == point[axis]);
        }
    }
    if is_point_of_thread(axes, point, thread) {
        assert forall|axis: int| 0 <= axis < axes.len() implies #[trigger] expected[axis]
            == point[axis] by {
            assert(found[axis] == point[axis]);
        }
        assert(expected =~= point);
    }
}

/// Whether the kernel reconstructs that point for a thread.
pub open spec fn is_point_of_thread(axes: Seq<usize>, point: Seq<usize>, thread: nat) -> bool {
    let found = run_steps(point_steps(axes.len(), axes.len()), axes, thread).point;
    &&& found.len() == point.len()
    &&& forall|axis: int| 0 <= axis < point.len() ==> #[trigger] found[axis] == point[axis]
}

proof fn lemma_shape_error(inputs: Seq<BufferBindingView>, elements: usize)
    ensures
        shape_error(inputs, elements) matches Some(error) ==> exists|i: int|
            #![trigger inputs[i]]
            {
                &&& 0 <= i < inputs.len()
                &&& inputs[i].shape_preserving
                &&& inputs[i].elements != elements
                &&& error == (Error::ShapeMismatch {
                    expected: elements,
                    actual: inputs[i].elements,
                })
                &&& forall|j: int|
                    0 <= j < i && (#[trigger] inputs[j]).shape_preserving ==> inputs[j].elements
                        == elements
            },
    decreases inputs.len(),
{
    if inputs.len() > 0 {
        let shorter = inputs.drop_last();
        lemma_shape_error(shorter, elements);
        if let Some(error) = shape_error(shorter, elements) {
            let i = choose|i: int|
                #![trigger shorter[i]]
                {
                    &&& 0 <= i < shorter.len()
                    &&& shorter[i].shape_preserving
                    &&& shorter[i].elements != elements
                    &&& error == (Error::ShapeMismatch {
                        expected: elements,
                        actual: shorter[i].elements,
                    })
                    &&& forall|j: int|
                        0 <= j < i && (#[trigger] shorter[j]).shape_preserving
                            ==> shorter[j].elements == elements
                };
            assert(inputs[i] == shorter[i]);
            assert forall|j: int|
                0 <= j < i && (#[trigger] inputs[j]).shape_preserving implies inputs[j].elements
                == elements by {
                assert(shorter[j] == inputs[j]);
            }
        } else if shape_error(inputs, elements) is Some {
            lemma_no_shape_error(shorter, elements);
            let last = inputs.len() - 1;
            assert forall|j: int|
                0 <= j < last && (#[trigger] inputs[j]).shape_preserving implies inputs[j].elements
                == elements by {
                assert(shorter[j] == inputs[j]);
            }
            assert(inputs[last].shape_preserving);
        }
    }
}

proof fn lemma_size_error(inputs: Seq<BufferBindingView>)
    ensures
        size_error(inputs) matches Some(error) ==> exists|i: int|
            #![trigger inputs[i]]
            {
                &&& 0 <= i < inputs.len()
                &&& !device_sized(inputs[i].axes)
                &&& error == (Error::TensorTooLarge { elements: inputs[i].elements })
                &&& forall|j: int| 0 <= j < i ==> device_sized((#[trigger] inputs[j]).axes)
            },
    decreases inputs.len(),
{
    if inputs.len() > 0 {
        let shorter = inputs.drop_last();
        lemma_size_error(shorter);
        if let Some(error) = size_error(shorter) {
            let i = choose|i: int|
                #![trigger shorter[i]]
                {
                    &&& 0 <= i < shorter.len()
                    &&& !device_sized(shorter[i].axes)
                    &&& error == (Error::TensorTooLarge { elements: shorter[i].elements })
                    &&& forall|j: int| 0 <= j < i ==> device_sized((#[trigger] shorter[j]).axes)
                };
            assert(inputs[i] == shorter[i]);
            assert forall|j: int| 0 <= j < i implies device_sized((#[trigger] inputs[j]).axes) by {
                assert(shorter[j] == inputs[j]);
            }
        } else if size_error(inputs) is Some {
            lemma_no_size_error(shorter);
            let last = inputs.len() - 1;
            assert forall|j: int| 0 <= j < last implies device_sized(
                (#[trigger] inputs[j]).axes,
            ) by {
                assert(shorter[j] == inputs[j]);
            }
            assert(!device_sized(inputs[last].axes));
        }
    }
}

/// Whether a dispatch fits the device: there are points, a device index can tell their number and
/// the length of every axis of every input, and each input that is mapped has one element for each
/// point.
pub open spec fn fits_the_device(axes: Seq<usize>, inputs: Seq<BufferBindingView>) -> bool {
    &&& axes.len() > 0
    &&& positive(axes)
    &&& product(axes) <= u32::MAX
    &&& forall|i: int|
        0 <= i < inputs.len() && (#[trigger] inputs[i]).shape_preserving ==> inputs[i].elements
            == product(axes)
    &&& forall|i: int, axis: int|
        0 <= i < inputs.len() && 0 <= axis < inputs[i].axes.len() ==> #[trigger]
        inputs[i].axes[axis] <= u32::MAX
}

/// A dispatch is planned exactly where it fits the device. Otherwise the error tells why: that
/// there are no points, that they are too many, the first mapped input with a wrong number of
/// elements, or the first input with an axis that is too long.
pub proof fn law_dispatches_are_planned_where_they_fit(
    axes: Seq<usize>,
    inputs: Seq<BufferBindingView>,
    scalars: nat,
    element_size: nat,
)
    ensures
        planned(axes, inputs, scalars, element_size) is Ok <==> fits_the_device(axes, inputs),
        planned(axes, inputs, scalars, element_size) matches Err(error) ==> match error {
            Error::EmptyExtent => axes.len() == 0 || !positive(axes),
            Error::ExtentOverflow => product(axes) > usize::MAX,
            Error::TensorTooLarge { elements } => {
                ||| elements == product(axes) && elements > u32::MAX
                ||| product(axes) <= u32::MAX && exists|i: int|
                    #![trigger inputs[i]]
                    {
                        &&& 0 <= i < inputs.len()
                        &&& !device_sized(inputs[i].axes)
                        &&& elements == inputs[i].elements
                        &&& forall|j: int| 0 <= j < i ==> device_sized((#[trigger] inputs[j]).axes)
                    }
            },
            Error::ShapeMismatch { expected, actual } => expected == product(axes) && exists|i: int|
                #![trigger inputs[i]]
                {
                    &&& 0 <= i < inputs.len()
                    &&& inputs[i].shape_preserving
                    &&& inputs[i].elements != expected
                    &&& actual == inputs[i].elements
                    &&& forall|j: int|
                        0 <= j < i && (#[trigger] inputs[j]).shape_preserving ==> inputs[j].elements
                            == expected
                },
            _ => false,
        },
{
    if counted(axes) is Ok {
        let elements = counted(axes)->Ok_0;
        lemma_shape_error(inputs, elements);
        lemma_size_error(inputs);
        if shape_error(inputs, elements) is None {
            lemma_no_shape_error(inputs, elements);
        }
        if size_error(inputs) is None {
            lemma_no_size_error(inputs);
            assert forall|i: int, axis: int|
                0 <= i < inputs.len() && 0 <= axis < inputs[i].axes.len() implies #[trigger]
            inputs[i].axes[axis] <= u32::MAX by {
                assert(device_sized(inputs[i].axes));
            }
        }
    }
}

} // verus!
