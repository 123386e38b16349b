//! Element kernels and their Metal source.
use vstd::arithmetic::div_mod::*;
use vstd::prelude::*;
use vstd::slice::slice_to_vec;
use vstd::string::*;

use crate::captures::captures_of;
use crate::expr::{captured_msl, write_captured, Capture};
use crate::extent::{coordinates, lemma_coordinates_in_bounds, law_strides, positive, stride};
use crate::statement::{write_statements, DeviceBlock, DeviceBlockView};
use crate::text::{decimal, push_decimal};
use crate::types::ScalarType;

verus! {

/// A scalar that every thread of a kernel reads.
#[derive(Debug, PartialEq, Eq)]
pub struct ScalarParam {
    pub name: String,
    pub ty: ScalarType,
}

/// What a scalar parameter is, with its name as a sequence of characters.
#[verifier::ext_equal]
pub ghost struct ScalarParamView {
    pub name: Seq<char>,
    pub ty: ScalarType,
}

impl View for ScalarParam {
    type V = ScalarParamView;

    open spec fn view(&self) -> ScalarParamView {
        ScalarParamView { name: self.name@, ty: self.ty }
    }
}

impl Clone for ScalarParam {
    fn clone(&self) -> (copy: Self)
        ensures
            copy@ == self@,
    {
        ScalarParam { name: self.name.clone(), ty: self.ty }
    }
}

/// A single shape-preserving element kernel.
#[derive(Debug, PartialEq)]
pub struct ElementKernel {
    pub name: String,
    pub inputs: Vec<ScalarType>,
    pub scalars: Vec<ScalarParam>,
    pub output: ScalarType,
    /// Rank to reconstruct inside the kernel when the expression observes a point.
    pub logical_rank: Option<usize>,
    pub body: DeviceBlock,
}

/// What a kernel is, with its names as sequences of characters.
#[verifier::ext_equal]
pub ghost struct ElementKernelView {
    pub name: Seq<char>,
    pub inputs: Seq<ScalarType>,
    pub scalars: Seq<ScalarParamView>,
    pub output: ScalarType,
    pub logical_rank: Option<usize>,
    pub body: DeviceBlockView,
}

/// The views of a sequence of scalar parameters.
pub open spec fn scalar_views(scalars: Seq<ScalarParam>) -> Seq<ScalarParamView> {
    scalars.map_values(|scalar: ScalarParam| scalar@)
}

impl View for ElementKernel {
    type V = ElementKernelView;

    open spec fn view(&self) -> ElementKernelView {
        ElementKernelView {
            name: self.name@,
            inputs: self.inputs@,
            scalars: scalar_views(self.scalars@),
            output: self.output,
            logical_rank: self.logical_rank,
            body: self.body@,
        }
    }
}

impl Clone for ElementKernel {
    fn clone(&self) -> (copy: Self)
        ensures
            copy@ == self@,
    {
        let mut scalars: Vec<ScalarParam> = Vec::new();
        let mut index: usize = 0;
        while index < self.scalars.len()
            invariant
                index <= self.scalars@.len(),
                scalars@.len() == index,
                forall|i: int| 0 <= i < index ==> #[trigger] scalars@[i]@ == self.scalars@[i]@,
            decreases self.scalars@.len() - index,
        {
            scalars.push(self.scalars[index].clone());
            index += 1;
        }
        assert(scalar_views(scalars@) =~= scalar_views(self.scalars@));
        ElementKernel {
            name: self.name.clone(),
            inputs: slice_to_vec(self.inputs.as_slice()),
            scalars,
            output: self.output,
            logical_rank: self.logical_rank,
            body: self.body.clone(),
        }
    }
}

/// The buffer slot of the output.
pub open spec fn output_slot() -> nat {
    0
}

/// The buffer slot of an input.
pub open spec fn input_slot(index: nat) -> nat {
    index + 1
}

/// The buffer slot of a captured tensor, behind those of the inputs.
pub open spec fn capture_slot(inputs: nat, index: nat) -> nat {
    inputs + 1 + index
}

/// The buffer slot of the extent of a captured tensor, behind those of the captured tensors.
pub open spec fn capture_extent_slot(inputs: nat, captures: nat, index: nat) -> nat {
    inputs + 1 + captures + index
}

/// The buffer slot of a scalar, behind those of the captured tensors' extents.
pub open spec fn scalar_slot(inputs: nat, captures: nat, index: nat) -> nat {
    inputs + 1 + captures + captures + index
}

/// The buffer slot of the element count, behind those of the scalars.
pub open spec fn count_slot(inputs: nat, captures: nat, scalars: nat) -> nat {
    inputs + 1 + captures + captures + scalars
}

/// The buffer slot of the extent, the last one.
pub open spec fn extent_slot(inputs: nat, captures: nat, scalars: nat) -> nat {
    inputs + 1 + captures + captures + scalars + 1
}

/// The line that declares an input.
pub open spec fn input_msl(index: nat, ty: ScalarType) -> Seq<char> {
    "    const device "@ + ty.msl_text() + "* __pm_in"@ + decimal(index)
        + " [[buffer("@ + decimal(input_slot(index)) + ")]],\n"@
}

/// The lines that declare the inputs.
pub open spec fn inputs_msl(inputs: Seq<ScalarType>) -> Seq<char>
    decreases inputs.len(),
{
    if inputs.len() == 0 {
        Seq::empty()
    } else {
        inputs_msl(inputs.drop_last()) + input_msl((inputs.len() - 1) as nat, inputs.last())
    }
}

/// The line that declares a captured tensor.
pub open spec fn capture_msl(inputs: nat, index: nat, capture: Capture) -> Seq<char> {
    "    const device "@ + capture.element.msl_text() + "* "@ + captured_msl(capture)
        + " [[buffer("@ + decimal(capture_slot(inputs, index)) + ")]],\n"@
}

/// The lines that declare the captured tensors.
pub open spec fn captures_msl(inputs: nat, captures: Seq<Capture>) -> Seq<char>
    decreases captures.len(),
{
    if captures.len() == 0 {
        Seq::empty()
    } else {
        captures_msl(inputs, captures.drop_last()) + capture_msl(
            inputs,
            (captures.len() - 1) as nat,
            captures.last(),
        )
    }
}

/// The line that declares the extent of a captured tensor.
pub open spec fn capture_extent_msl(
    inputs: nat,
    captures: nat,
    index: nat,
    capture: Capture,
) -> Seq<char> {
    "    constant uint* "@ + captured_msl(capture) + "_extent [[buffer("@ + decimal(
        capture_extent_slot(inputs, captures, index),
    ) + ")]],\n"@
}

/// The lines that declare the extents of the first of `total` captured tensors.
pub open spec fn capture_extents_msl(inputs: nat, total: nat, captures: Seq<Capture>) -> Seq<char>
    decreases captures.len(),
{
    if captures.len() == 0 {
        Seq::empty()
    } else {
        capture_extents_msl(inputs, total, captures.drop_last()) + capture_extent_msl(
            inputs,
            total,
            (captures.len() - 1) as nat,
            captures.last(),
        )
    }
}

/// The line that declares a scalar.
pub open spec fn scalar_msl(
    inputs: nat,
    captures: nat,
    index: nat,
    scalar: ScalarParamView,
) -> Seq<char> {
    "    constant "@ + scalar.ty.msl_text() + "& "@ + scalar.name + " [[buffer("@ + decimal(
        scalar_slot(inputs, captures, index),
    ) + ")]],\n"@
}

/// The lines that declare the scalars.
pub open spec fn scalars_msl(inputs: nat, captures: nat, scalars: Seq<ScalarParamView>) -> Seq<char>
    decreases scalars.len(),
{
    if scalars.len() == 0 {
        Seq::empty()
    } else {
        scalars_msl(inputs, captures, scalars.drop_last()) + scalar_msl(
            inputs,
            captures,
            (scalars.len() - 1) as nat,
            scalars.last(),
        )
    }
}

/// The lines that declare the element count, the extent and the thread's position.
pub open spec fn domain_msl(inputs: nat, captures: nat, scalars: nat) -> Seq<char> {
    "    constant uint& __pm_count [[buffer("@ + decimal(count_slot(inputs, captures, scalars))
        + ")]],\n"@ + "    constant uint* __pm_extent [[buffer("@ + decimal(
        extent_slot(inputs, captures, scalars),
    ) + ")]],\n"@ + "    uint __pm_linear [[thread_position_in_grid]])\n{\n"@
}

/// One step of finding a point from a linear position.
pub ghost enum PointStep {
    /// The coordinate of the axis is what remains, modulo the axis' length.
    Take(nat),
    /// What remains is divided by the axis' length.
    Divide(nat),
}

/// The line of a step.
pub open spec fn step_msl(step: PointStep) -> Seq<char> {
    match step {
        PointStep::Take(axis) => "        uint __pm_point"@ + decimal(axis)
            + " = __pm_remaining % __pm_extent["@ + decimal(axis) + "];\n"@,
        PointStep::Divide(axis) => "        __pm_remaining /= __pm_extent["@
            + decimal(axis) + "];\n"@,
    }
}

/// The lines of a sequence of steps.
pub open spec fn steps_msl(steps: Seq<PointStep>) -> Seq<char>
    decreases steps.len(),
{
    if steps.len() == 0 {
        Seq::empty()
    } else {
        steps_msl(steps.drop_last()) + step_msl(steps.last())
    }
}

/// The steps for the first `count` of `rank` axes: nothing is divided after the last axis.
pub open spec fn point_steps(rank: nat, count: nat) -> Seq<PointStep>
    decreases count,
{
    if count == 0 {
        Seq::empty()
    } else {
        let taken = point_steps(rank, (count - 1) as nat).push(PointStep::Take((count - 1) as nat));
        if count == rank {
            taken
        } else {
            taken.push(PointStep::Divide((count - 1) as nat))
        }
    }
}

/// The lines that reconstruct the point, where the kernel observes one.
pub open spec fn reconstruction_msl(logical_rank: Option<usize>) -> Seq<char> {
    match logical_rank {
        None => Seq::empty(),
        Some(rank) => "        uint __pm_remaining = __pm_linear;\n"@ + steps_msl(
            point_steps(rank as nat, rank as nat),
        ),
    }
}

impl ElementKernelView {
    /// The Metal source of the kernel.
    pub open spec fn msl(self) -> Seq<char> {
        let inputs = self.inputs.len();
        let captures = captures_of(self.body);
        "#include <metal_stdlib>\n\nusing namespace metal;\n\nkernel void "@ + self.name
            + "(\n    device "@ + self.output.msl_text() + "* __pm_out [[buffer(0)]],\n"@
            + inputs_msl(self.inputs) + captures_msl(inputs, captures) + capture_extents_msl(
            inputs,
            captures.len(),
            captures,
        ) + scalars_msl(inputs, captures.len(), self.scalars) + domain_msl(
            inputs,
            captures.len(),
            self.scalars.len(),
        ) + "    if (__pm_linear < __pm_count) {\n"@ + reconstruction_msl(self.logical_rank)
            + crate::statement::statements_msl(self.body.statements, "        "@)
            + "        __pm_out[__pm_linear] = "@ + self.body.result.msl() + ";\n    }\n}\n"@
    }
}

fn write_inputs(output: &mut String, inputs: &Vec<ScalarType>)
    ensures
        final(output)@ == old(output)@ + inputs_msl(inputs@),
{
    let ghost before = output@;
    let mut index: usize = 0;
    while index < inputs.len()
        invariant
            index <= inputs@.len(),
            output@ == before + inputs_msl(inputs@.take(index as int)),
        decreases inputs@.len() - index,
    {
        let ghost next = inputs@.take(index + 1);
        assert(next.drop_last() =~= inputs@.take(index as int));
        output.append("    const device ");
        output.append(inputs[index].msl_name());
        output.append("* __pm_in");
        push_decimal(output, index as u128);
        output.append(" [[buffer(");
        push_decimal(output, index as u128 + 1);
        output.append(")]],\n");
        index += 1;
        assert(output@ =~= before + inputs_msl(next));
    }
    assert(inputs@.take(inputs@.len() as int) =~= inputs@);
}

fn write_captures(output: &mut String, inputs: usize, captures: &Vec<Capture>)
    ensures
        final(output)@ == old(output)@ + captures_msl(inputs as nat, captures@),
{
    let ghost before = output@;
    let mut index: usize = 0;
    while index < captures.len()
        invariant
            index <= captures@.len(),
            output@ == before + captures_msl(inputs as nat, captures@.take(index as int)),
        decreases captures@.len() - index,
    {
        let ghost next = captures@.take(index + 1);
        assert(next.drop_last() =~= captures@.take(index as int));
        output.append("    const device ");
        output.append(captures[index].element.msl_name());
        output.append("* ");
        write_captured(output, captures[index]);
        output.append(" [[buffer(");
        push_decimal(output, inputs as u128 + 1 + index as u128);
        output.append(")]],\n");
        index += 1;
        assert(output@ =~= before + captures_msl(inputs as nat, next));
    }
    assert(captures@.take(captures@.len() as int) =~= captures@);
}

fn write_capture_extents(output: &mut String, inputs: usize, captures: &Vec<Capture>)
    ensures
        final(output)@ == old(output)@ + capture_extents_msl(
            inputs as nat,
            captures@.len(),
            captures@,
        ),
{
    let ghost before = output@;
    let ghost total = captures@.len();
    let mut index: usize = 0;
    while index < captures.len()
        invariant
            index <= captures@.len(),
            total == captures@.len(),
            output@ == before + capture_extents_msl(
                inputs as nat,
                total,
                captures@.take(index as int),
            ),
        decreases captures@.len() - index,
    {
        let ghost next = captures@.take(index + 1);
        assert(next.drop_last() =~= captures@.take(index as int));
        output.append("    constant uint* ");
        write_captured(output, captures[index]);
        output.append("_extent [[buffer(");
        push_decimal(output, inputs as u128 + 1 + captures.len() as u128 + index as u128);
        output.append(")]],\n");
        index += 1;
        assert(output@ =~= before + capture_extents_msl(inputs as nat, total, next));
    }
    assert(captures@.take(captures@.len() as int) =~= captures@);
}

fn write_scalars(output: &mut String, inputs: usize, captures: usize, scalars: &Vec<ScalarParam>)
    ensures
        final(output)@ == old(output)@ + scalars_msl(
            inputs as nat,
            captures as nat,
            scalar_views(scalars@),
        ),
{
    let ghost before = output@;
    let ghost views = scalar_views(scalars@);
    let mut index: usize = 0;
    while index < scalars.len()
        invariant
            index <= scalars@.len(),
            views == scalar_views(scalars@),
            output@ == before + scalars_msl(
                inputs as nat,
                captures as nat,
                views.take(index as int),
            ),
        decreases scalars@.len() - index,
    {
        let ghost next = views.take(index + 1);
        assert(next.drop_last() =~= views.take(index as int));
        output.append("    constant ");
        output.append(scalars[index].ty.msl_name());
        output.append("& ");
        output.append(scalars[index].name.as_str());
        output.append(" [[buffer(");
        push_decimal(
            output,
            inputs as u128 + 1 + captures as u128 + captures as u128 + index as u128,
        );
        output.append(")]],\n");
        index += 1;
        assert(output@ =~= before + scalars_msl(inputs as nat, captures as nat, next));
    }
    assert(views.take(views.len() as int) =~= views);
}

fn write_domain(output: &mut String, inputs: usize, captures: usize, scalars: usize)
    ensures
        final(output)@ == old(output)@ + domain_msl(
            inputs as nat,
            captures as nat,
            scalars as nat,
        ),
{
    let ghost before = output@;
    let count: u128 = inputs as u128 + 1 + captures as u128 + captures as u128 + scalars as u128;
    output.append("    constant uint& __pm_count [[buffer(");
    push_decimal(output, count);
    output.append(")]],\n");
    output.append("    constant uint* __pm_extent [[buffer(");
    push_decimal(output, count + 1);
    output.append(")]],\n");
    output.append("    uint __pm_linear [[thread_position_in_grid]])\n{\n");
    assert(output@ =~= before + domain_msl(inputs as nat, captures as nat, scalars as nat));
}

fn write_reconstruction(output: &mut String, logical_rank: Option<usize>)
    ensures
        final(output)@ == old(output)@ + reconstruction_msl(logical_rank),
{
    let ghost before = output@;
    if let Some(rank) = logical_rank {
        output.append("        uint __pm_remaining = __pm_linear;\n");
        let ghost opened = output@;
        let mut axis: usize = 0;
        while axis < rank
            invariant
                axis <= rank,
                output@ == opened + steps_msl(point_steps(rank as nat, axis as nat)),
            decreases rank - axis,
        {
            let ghost done = point_steps(rank as nat, axis as nat);
            let ghost taken = done.push(PointStep::Take(axis as nat));
            assert(taken.drop_last() =~= done);
            output.append("        uint __pm_point");
            push_decimal(output, axis as u128);
            output.append(" = __pm_remaining % __pm_extent[");
            push_decimal(output, axis as u128);
            output.append("];\n");
            assert(output@ =~= opened + steps_msl(taken));
            if axis + 1 != rank {
                let ghost divided = taken.push(PointStep::Divide(axis as nat));
                assert(divided.drop_last() =~= taken);
                output.append("        __pm_remaining /= __pm_extent[");
                push_decimal(output, axis as u128);
                output.append("];\n");
                assert(output@ =~= opened + steps_msl(divided));
            }
            axis += 1;
        }
    }
    assert(output@ =~= before + reconstruction_msl(logical_rank));
}

impl ElementKernel {
    /// The Metal source of the kernel.
    pub fn to_msl(&self) -> (source: String)
        ensures
            source@ == self@.msl(),
    {
        let mut source = String::new();
        source.append("#include <metal_stdlib>\n\nusing namespace metal;\n\nkernel void ");
        assert(source@ =~= "#include <metal_stdlib>\n\nusing namespace metal;\n\nkernel void "@);
        source.append(self.name.as_str());
        source.append("(\n    device ");
        source.append(self.output.msl_name());
        source.append("* __pm_out [[buffer(0)]],\n");
        write_inputs(&mut source, &self.inputs);
        let captures: Vec<Capture> = self.body.captures();
        write_captures(&mut source, self.inputs.len(), &captures);
        write_capture_extents(&mut source, self.inputs.len(), &captures);
        write_scalars(&mut source, self.inputs.len(), captures.len(), &self.scalars);
        write_domain(&mut source, self.inputs.len(), captures.len(), self.scalars.len());
        source.append("    if (__pm_linear < __pm_count) {\n");
        write_reconstruction(&mut source, self.logical_rank);
        write_statements(&self.body.statements, &mut source, "        ");
        source.append("        __pm_out[__pm_linear] = ");
        self.body.result.write_msl(&mut source);
        source.append(";\n    }\n}\n");
        source
    }
}

/// A kernel that observes no point does not reconstruct one.
pub proof fn law_unobserved_points_are_not_reconstructed(kernel: ElementKernelView)
    requires
        kernel.logical_rank is None,
    ensures
        reconstruction_msl(kernel.logical_rank) == Seq::<char>::empty(),
{
}

/// What a run of steps leaves: what remains of the linear position, and the coordinates found.
pub ghost struct PointState {
    pub remaining: nat,
    pub point: Seq<nat>,
}

/// What the steps compute for the element at a linear position.
pub open spec fn run_steps(steps: Seq<PointStep>, axes: Seq<usize>, linear: nat) -> PointState
    decreases steps.len(),
{
    if steps.len() == 0 {
        PointState { remaining: linear, point: Seq::empty() }
    } else {
        let state = run_steps(steps.drop_last(), axes, linear);
        match steps.last() {
            PointStep::Take(axis) => PointState {
                remaining: state.remaining,
                point: state.point.push(state.remaining % axes[axis as int] as nat),
            },
            PointStep::Divide(axis) => PointState {
                remaining: state.remaining / axes[axis as int] as nat,
                point: state.point,
            },
        }
    }
}

proof fn lemma_run_steps(axes: Seq<usize>, linear: nat, count: nat)
    requires
        positive(axes),
        count <= axes.len(),
    ensures
        ({
            let state = run_steps(point_steps(axes.len(), count), axes, linear);
            &&& state.point.len() == count
            &&& forall|axis: int|
                0 <= axis < count ==> #[trigger] state.point[axis] == (linear / stride(axes, axis))
                    % axes[axis] as nat
            &&& count < axes.len() ==> state.remaining == linear / stride(axes, count as int)
        }),
    decreases count,
{
    if count == 0 {
        assert(axes.take(0).len() == 0);
        assert(linear / 1 == linear);
    } else {
        let axis = (count - 1) as nat;
        lemma_run_steps(axes, linear, axis);
        let done = point_steps(axes.len(), axis);
        let taken = done.push(PointStep::Take(axis));
        assert(taken.drop_last() =~= done);
        let state = run_steps(done, axes, linear);
        let after = run_steps(taken, axes, linear);
        assert(after.remaining == state.remaining);
        assert(after.point == state.point.push(state.remaining % axes[axis as int] as nat));
        if count != axes.len() {
            let divided = taken.push(PointStep::Divide(axis));
            assert(divided.drop_last() =~= taken);
            law_strides(axes, axis as int);
            crate::extent::lemma_stride_positive(axes, axis as int);
            lemma_div_denominator(
                linear as int,
                stride(axes, axis as int) as int,
                axes[axis as int] as int,
            );
        }
    }
}

/// The point that a kernel reconstructs for a linear position is the point of the tensor's
/// extent at that position.
pub proof fn law_reconstruction_finds_the_point(axes: Seq<usize>, linear: nat)
    requires
        positive(axes),
    ensures
        ({
            let state = run_steps(point_steps(axes.len(), axes.len()), axes, linear);
            &&& state.point.len() == axes.len()
            &&& forall|axis: int|
                0 <= axis < axes.len() ==> #[trigger] state.point[axis] == coordinates(
                    axes,
                    linear,
                )[axis] as nat
        }),
{
    lemma_run_steps(axes, linear, axes.len());
    lemma_coordinates_in_bounds(axes, linear);
}

} // verus!
