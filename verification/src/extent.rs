//! Logical sizes and coordinates of tensors.
//!
//! Axis 0 is contiguous: a point `p` of an extent `e` lies at the linear position
//! `p[0] + e[0] * (p[1] + e[1] * (p[2] + ...))`.
use core::ops::Index;

use vstd::arithmetic::div_mod::*;
use vstd::arithmetic::mul::*;
use vstd::prelude::*;

use crate::error::Error;

verus! {

/// The number of points of an extent with these axes.
pub open spec fn product(axes: Seq<usize>) -> nat
    decreases axes.len(),
{
    if axes.len() == 0 {
        1
    } else {
        product(axes.drop_last()) * axes.last() as nat
    }
}

/// How many elements lie between neighbours along an axis.
pub open spec fn stride(axes: Seq<usize>, axis: int) -> nat {
    product(axes.take(axis))
}

/// No axis has length zero.
pub open spec fn positive(axes: Seq<usize>) -> bool {
    forall|axis: int| 0 <= axis < axes.len() ==> #[trigger] axes[axis] > 0
}

/// The number of elements that an extent holds, or why it holds none.
pub open spec fn counted(axes: Seq<usize>) -> Result<usize, Error> {
    if axes.len() == 0 || !positive(axes) {
        Err(Error::EmptyExtent)
    } else if product(axes) > usize::MAX {
        Err(Error::ExtentOverflow)
    } else {
        Ok(product(axes) as usize)
    }
}

/// The coordinates of the element at a linear position.
pub open spec fn coordinates(axes: Seq<usize>, linear: nat) -> Seq<usize> {
    Seq::new(
        axes.len(),
        |axis: int| ((linear / stride(axes, axis)) % axes[axis] as nat) as usize,
    )
}

/// Whether a point lies inside an extent.
pub open spec fn in_bounds(axes: Seq<usize>, point: Seq<usize>) -> bool {
    &&& point.len() == axes.len()
    &&& forall|axis: int| 0 <= axis < axes.len() ==> #[trigger] point[axis] < axes[axis]
}

/// The part of a point's linear position that its first `count` axes contribute.
pub open spec fn partial_offset(axes: Seq<usize>, point: Seq<usize>, count: nat) -> nat
    decreases count,
{
    if count == 0 {
        0
    } else {
        partial_offset(axes, point, (count - 1) as nat) + point[count - 1] as nat * stride(
            axes,
            count - 1,
        )
    }
}

/// The linear position of a point: the sum of its coordinates, each times its axis' stride.
pub open spec fn offset(axes: Seq<usize>, point: Seq<usize>) -> nat {
    partial_offset(axes, point, axes.len())
}

/// Axis 0 is contiguous, and each further stride is the previous one times the previous length.
pub proof fn law_strides(axes: Seq<usize>, axis: int)
    requires
        0 <= axis < axes.len(),
    ensures
        stride(axes, 0) == 1,
        stride(axes, axis + 1) == stride(axes, axis) * axes[axis] as nat,
        stride(axes, axes.len() as int) == product(axes),
{
    let next = axes.take(axis + 1);
    assert(next.drop_last() =~= axes.take(axis));
    assert(axes.take(axes.len() as int) =~= axes);
}

pub proof fn lemma_stride_positive(axes: Seq<usize>, axis: int)
    requires
        positive(axes),
        0 <= axis <= axes.len(),
    ensures
        stride(axes, axis) > 0,
    decreases axis,
{
    if axis > 0 {
        lemma_stride_positive(axes, axis - 1);
        law_strides(axes, axis - 1);
        lemma_mul_strictly_positive(stride(axes, axis - 1) as int, axes[axis - 1] as int);
    }
}

/// The coordinates found for a linear position lie inside the extent.
pub proof fn lemma_coordinates_in_bounds(axes: Seq<usize>, linear: nat)
    requires
        positive(axes),
    ensures
        in_bounds(axes, coordinates(axes, linear)),
        forall|axis: int|
            0 <= axis < axes.len() ==> #[trigger] coordinates(axes, linear)[axis] as nat == (linear
                / stride(axes, axis)) % axes[axis] as nat,
{
    assert forall|axis: int| 0 <= axis < axes.len() implies {
        &&& #[trigger] coordinates(axes, linear)[axis] < axes[axis]
        &&& coordinates(axes, linear)[axis] as nat == (linear / stride(axes, axis))
            % axes[axis] as nat
    } by {
        lemma_mod_bound((linear / stride(axes, axis)) as int, axes[axis] as int);
    }
}

proof fn lemma_partial_offset_of_coordinates(axes: Seq<usize>, linear: nat, count: nat)
    requires
        positive(axes),
        count <= axes.len(),
    ensures
        partial_offset(axes, coordinates(axes, linear), count) == linear % stride(
            axes,
            count as int,
        ),
    decreases count,
{
    if count > 0 {
        let axis = count - 1;
        lemma_partial_offset_of_coordinates(axes, linear, axis as nat);
        lemma_coordinates_in_bounds(axes, linear);
        lemma_stride_positive(axes, axis);
        law_strides(axes, axis);
        lemma_breakdown(linear as int, stride(axes, axis) as int, axes[axis] as int);
        lemma_mul_is_commutative(
            coordinates(axes, linear)[axis] as int,
            stride(axes, axis) as int,
        );
    }
}

/// Every linear position below the element count is the position of the point that is found for
/// it, and that point lies inside the extent.
pub proof fn law_offset_of_coordinates(axes: Seq<usize>, linear: nat)
    requires
        positive(axes),
        linear < product(axes),
    ensures
        in_bounds(axes, coordinates(axes, linear)),
        offset(axes, coordinates(axes, linear)) == linear,
{
    lemma_coordinates_in_bounds(axes, linear);
    lemma_partial_offset_of_coordinates(axes, linear, axes.len());
    assert(axes.take(axes.len() as int) =~= axes);
    lemma_small_mod(linear, product(axes));
}

proof fn lemma_partial_offset_bound(axes: Seq<usize>, point: Seq<usize>, count: nat)
    requires
        in_bounds(axes, point),
        count <= axes.len(),
    ensures
        partial_offset(axes, point, count) < stride(axes, count as int),
    decreases count,
{
    if count > 0 {
        let axis = count - 1;
        let step = stride(axes, axis) as int;
        lemma_partial_offset_bound(axes, point, axis as nat);
        law_strides(axes, axis);
        assert(point[axis] < axes[axis]);
        assert(point[axis] * step + step <= axes[axis] * step) by (nonlinear_arith)
            requires
                point[axis] < axes[axis],
                step >= 0,
        ;
        lemma_mul_is_commutative(axes[axis] as int, step);
    }
}

proof fn lemma_offset_remainder(axes: Seq<usize>, point: Seq<usize>, count: nat)
    requires
        in_bounds(axes, point),
        count <= axes.len(),
    ensures
        offset(axes, point) % stride(axes, count as int) == partial_offset(axes, point, count),
    decreases axes.len() - count,
{
    let whole = offset(axes, point);
    assert forall|axis: int| 0 <= axis < axes.len() implies #[trigger] axes[axis] > 0 by {
        assert(point[axis] < axes[axis]);
    }
    lemma_partial_offset_bound(axes, point, count);
    if count == axes.len() {
        lemma_small_mod(whole, stride(axes, count as int));
    } else {
        let axis = count as int;
        let step = stride(axes, axis);
        lemma_offset_remainder(axes, point, count + 1);
        lemma_stride_positive(axes, axis);
        law_strides(axes, axis);
        lemma_mod_mod(whole as int, step as int, axes[axis] as int);
        lemma_mod_multiples_vanish(
            point[axis] as int,
            partial_offset(axes, point, count) as int,
            step as int,
        );
        lemma_mul_is_commutative(point[axis] as int, step as int);
        lemma_small_mod(partial_offset(axes, point, count), step);
    }
}

/// Every point inside an extent has a linear position below the element count, and is the point
/// that is found for it.
pub proof fn law_coordinates_of_offset(axes: Seq<usize>, point: Seq<usize>)
    requires
        in_bounds(axes, point),
    ensures
        offset(axes, point) < product(axes),
        coordinates(axes, offset(axes, point)) == point,
{
    let whole = offset(axes, point);
    assert forall|axis: int| 0 <= axis < axes.len() implies #[trigger] axes[axis] > 0 by {
        assert(point[axis] < axes[axis]);
    }
    lemma_partial_offset_bound(axes, point, axes.len());
    assert(axes.take(axes.len() as int) =~= axes);
    lemma_coordinates_in_bounds(axes, whole);
    assert forall|axis: int| 0 <= axis < axes.len() implies #[trigger] coordinates(
        axes,
        whole,
    )[axis] == point[axis] by {
        let step = stride(axes, axis) as int;
        let found = coordinates(axes, whole)[axis] as int;
        lemma_offset_remainder(axes, point, axis as nat);
        lemma_offset_remainder(axes, point, (axis + 1) as nat);
        lemma_stride_positive(axes, axis);
        law_strides(axes, axis);
        lemma_breakdown(whole as int, step, axes[axis] as int);
        assert(found == point[axis]) by (nonlinear_arith)
            requires
                step * found == point[axis] * step,
                step > 0,
        ;
    }
    assert(coordinates(axes, whole) =~= point);
}

/// Two points of one extent that have the same linear position are the same point.
pub proof fn law_offset_is_injective(axes: Seq<usize>, left: Seq<usize>, right: Seq<usize>)
    requires
        in_bounds(axes, left),
        in_bounds(axes, right),
        offset(axes, left) == offset(axes, right),
    ensures
        left == right,
{
    law_coordinates_of_offset(axes, left);
    law_coordinates_of_offset(axes, right);
}

/// In two dimensions, `[x, y]` of `[width, height]` lies at `x + width * y`.
pub proof fn law_offset_in_two_dimensions(axes: Seq<usize>, point: Seq<usize>)
    requires
        axes.len() == 2,
        point.len() == 2,
    ensures
        offset(axes, point) == point[0] + axes[0] * point[1],
{
    law_strides(axes, 0);
    law_strides(axes, 1);
    assert(partial_offset(axes, point, 0) == 0);
    assert(partial_offset(axes, point, 1) == point[0]);
    assert(partial_offset(axes, point, 2) == point[0] + point[1] * axes[0]);
    lemma_mul_is_commutative(axes[0] as int, point[1] as int);
}

/// In three dimensions, `[x, y, z]` of `[width, height, depth]` lies at
/// `x + width * (y + height * z)`.
pub proof fn law_offset_in_three_dimensions(axes: Seq<usize>, point: Seq<usize>)
    requires
        axes.len() == 3,
        point.len() == 3,
    ensures
        offset(axes, point) == point[0] + axes[0] * (point[1] + axes[1] * point[2]),
{
    law_strides(axes, 0);
    law_strides(axes, 1);
    law_strides(axes, 2);
    let (width, height, y, z) = (axes[0] as int, axes[1] as int, point[1] as int, point[2] as int);
    assert(stride(axes, 1) == width);
    assert(stride(axes, 2) == width * height);
    assert(partial_offset(axes, point, 0) == 0);
    assert(partial_offset(axes, point, 1) == point[0]);
    assert(partial_offset(axes, point, 2) == point[0] + y * width);
    assert(partial_offset(axes, point, 3) == point[0] + y * width + z * (width * height));
    assert(y * width + z * (width * height) == width * (y + height * z)) by (nonlinear_arith);
}

/// The stride of a later axis is a multiple of that of an earlier one.
proof fn lemma_stride_multiple(axes: Seq<usize>, from: int, to: int) -> (factor: nat)
    requires
        0 <= from <= to <= axes.len(),
    ensures
        stride(axes, to) == stride(axes, from) * factor,
    decreases to - from,
{
    let here = stride(axes, from) as int;
    if from == to {
        assert(here * 1 == here) by (nonlinear_arith);
        1
    } else {
        let before = lemma_stride_multiple(axes, from, to - 1) as int;
        let length = axes[to - 1] as int;
        law_strides(axes, to - 1);
        assert((here * before) * length == here * (before * length)) by (nonlinear_arith);
        assert(before * length >= 0) by (nonlinear_arith)
            requires
                before >= 0,
                length >= 0,
        ;
        (before * length) as nat
    }
}

/// Positions past the number of elements repeat: the coordinates of a position are those of the
/// position one whole extent further on.
pub proof fn law_positions_past_the_count_repeat(axes: Seq<usize>, linear: nat)
    requires
        positive(axes),
    ensures
        coordinates(axes, linear + product(axes)) == coordinates(axes, linear),
{
    let further = linear + product(axes);
    assert forall|axis: int| 0 <= axis < axes.len() implies #[trigger] coordinates(
        axes,
        further,
    )[axis] == coordinates(axes, linear)[axis] by {
        let here = stride(axes, axis) as int;
        let length = axes[axis] as int;
        let rest = lemma_stride_multiple(axes, axis + 1, axes.len() as int) as int;
        law_strides(axes, axis);
        lemma_stride_positive(axes, axis);
        assert(axes[axis] > 0);
        assert(product(axes) == (length * rest) * here) by (nonlinear_arith)
            requires
                product(axes) == (here * length) * rest,
        ;
        lemma_hoist_over_denominator(linear as int, length * rest, here as nat);
        lemma_mod_multiples_vanish(rest, linear as int / here, length);
    }
}

/// Taking an axis out divides the product by its length.
proof fn lemma_product_remove(axes: Seq<usize>, axis: int)
    requires
        0 <= axis < axes.len(),
    ensures
        product(axes) == product(axes.remove(axis)) * axes[axis] as nat,
    decreases axes.len(),
{
    let shorter = axes.drop_last();
    if axis == axes.len() - 1 {
        assert(axes.remove(axis) =~= shorter);
    } else {
        lemma_product_remove(shorter, axis);
        let removed = axes.remove(axis);
        assert(removed.drop_last() =~= shorter.remove(axis));
        assert(removed.last() == axes.last());
        let rest = product(shorter.remove(axis)) as int;
        let taken = axes[axis] as int;
        let last = axes.last() as int;
        assert((rest * taken) * last == (rest * last) * taken) by (nonlinear_arith);
    }
}

proof fn lemma_product_permuted(axes: Seq<usize>, other: Seq<usize>)
    requires
        axes.to_multiset() == other.to_multiset(),
    ensures
        product(axes) == product(other),
    decreases axes.len(),
{
    axes.to_multiset_ensures();
    other.to_multiset_ensures();
    if axes.len() > 0 {
        let last = axes.len() - 1;
        assert(axes.remove(last) =~= axes.drop_last());
        assert(axes.contains(axes.last()));
        assert(other.to_multiset().count(axes.last()) > 0);
        let found = choose|i: int| 0 <= i < other.len() && other[i] == axes.last();
        assert(axes.remove(last).to_multiset() =~= other.remove(found).to_multiset());
        lemma_product_permuted(axes.remove(last), other.remove(found));
        lemma_product_remove(axes, last);
        lemma_product_remove(other, found);
    }
}

/// Permuting the axes changes neither the number of elements nor why there is none.
pub proof fn law_permuted_axes_hold_as_many(axes: Seq<usize>, other: Seq<usize>)
    requires
        axes.to_multiset() == other.to_multiset(),
    ensures
        counted(axes) == counted(other),
{
    axes.to_multiset_ensures();
    other.to_multiset_ensures();
    lemma_product_permuted(axes, other);
    if positive(axes) {
        assert forall|axis: int| 0 <= axis < other.len() implies #[trigger] other[axis] > 0 by {
            assert(other.contains(other[axis]));
            assert(axes.to_multiset().count(other[axis]) > 0);
            assert(axes.contains(other[axis]));
        }
    }
    if positive(other) {
        assert forall|axis: int| 0 <= axis < axes.len() implies #[trigger] axes[axis] > 0 by {
            assert(axes.contains(axes[axis]));
            assert(other.to_multiset().count(axes[axis]) > 0);
            assert(other.contains(axes[axis]));
        }
    }
}

/// The linear position of a point as `p[axis] + e[axis] * (p[axis + 1] + ...)`, from an axis on.
pub open spec fn nested_offset(axes: Seq<usize>, point: Seq<usize>, axis: nat) -> nat
    decreases axes.len() - axis,
{
    if axis >= axes.len() {
        0
    } else if axis + 1 == axes.len() {
        point[axis as int] as nat
    } else {
        point[axis as int] as nat + axes[axis as int] as nat * nested_offset(
            axes,
            point,
            axis + 1,
        )
    }
}

proof fn lemma_nested_offset(axes: Seq<usize>, point: Seq<usize>, axis: nat)
    requires
        axis <= axes.len(),
    ensures
        partial_offset(axes, point, axis) + stride(axes, axis as int) * nested_offset(
            axes,
            point,
            axis,
        ) == offset(axes, point),
    decreases axes.len() - axis,
{
    let before = partial_offset(axes, point, axis) as int;
    let here = stride(axes, axis as int) as int;
    if axis < axes.len() {
        let coordinate = point[axis as int] as int;
        let length = axes[axis as int] as int;
        let rest = nested_offset(axes, point, axis + 1) as int;
        lemma_nested_offset(axes, point, axis + 1);
        law_strides(axes, axis as int);
        if axis + 1 == axes.len() {
            assert(length * 0 == 0) by (nonlinear_arith);
        }
        assert(here * (coordinate + length * rest) == here * coordinate + (here * length) * rest)
            by (nonlinear_arith);
        assert(coordinate * here == here * coordinate) by (nonlinear_arith);
    } else {
        assert(here * 0 == 0) by (nonlinear_arith);
    }
}

/// A point lies at `p[0] + e[0] * (p[1] + e[1] * (p[2] + ...))`.
pub proof fn law_offset_is_nested(axes: Seq<usize>, point: Seq<usize>)
    ensures
        offset(axes, point) == nested_offset(axes, point, 0),
{
    lemma_nested_offset(axes, point, 0);
    let first = stride(axes, 0);
    let nested = nested_offset(axes, point, 0);
    assert(axes.take(0) =~= Seq::empty());
    assert(first * nested == nested) by (nonlinear_arith)
        requires
            first == 1,
    ;
}

/// The logical size of a rank-`D` tensor.
///
/// Axis 0 is contiguous. Spatial extents therefore use `[width, height, depth, ...]`.
#[derive(Debug, Clone, Copy, PartialEq, Eq, Hash)]
pub struct Extent<const D: usize> {
    axes: [usize; D],
}

impl<const D: usize> View for Extent<D> {
    type V = Seq<usize>;

    closed spec fn view(&self) -> Seq<usize> {
        self.axes@
    }
}

impl<const D: usize> Extent<D> {
    pub fn new(axes: [usize; D]) -> (extent: Self)
        ensures
            extent@ == axes@,
    {
        Extent { axes }
    }

    pub fn axes(self) -> (axes: [usize; D])
        ensures
            axes@ == self@,
    {
        self.axes
    }

    /// The number of elements of a tensor of this extent.
    pub fn element_count(self) -> (count: Result<usize, Error>)
        ensures
            count == counted(self@),
    {
        let mut total: usize = 1;
        let mut overflowed = false;
        if D == 0 {
            return Err(Error::EmptyExtent);
        }
        let mut axis: usize = 0;
        while axis < D
            invariant
                axis <= D,
                self@ == self.axes@,
                self@.len() == D,
                positive(self@.take(axis as int)),
                overflowed ==> stride(self@, axis as int) > usize::MAX,
                !overflowed ==> total == stride(self@, axis as int),
            decreases D - axis,
        {
            let length: usize = self.axes[axis];
            if length == 0 {
                assert(self@[axis as int] == 0);
                return Err(Error::EmptyExtent);
            }
            proof {
                law_strides(self@, axis as int);
                let next = self@.take(axis + 1);
                assert forall|i: int| 0 <= i < next.len() implies #[trigger] next[i] > 0 by {
                    if i < axis {
                        assert(self@.take(axis as int)[i] == next[i]);
                    }
                }
                let step = stride(self@, axis as int);
                assert(step * length >= step) by (nonlinear_arith)
                    requires
                        length > 0,
                ;
            }
            if !overflowed {
                match total.checked_mul(length) {
                    Some(product) => {
                        total = product;
                    },
                    None => {
                        overflowed = true;
                    },
                }
            }
            axis += 1;
        }
        assert(self@.take(D as int) =~= self@);
        if overflowed {
            Err(Error::ExtentOverflow)
        } else {
            Ok(total)
        }
    }

    /// The point whose linear position is `linear`, axis 0 first.
    pub fn point_from_linear(self, linear: usize) -> (point: Point<D>)
        requires
            positive(self@),
        ensures
            point@ == coordinates(self@, linear as nat),
            in_bounds(self@, point@),
    {
        let mut remaining: usize = linear;
        let mut axes = self.axes;
        let mut axis: usize = 0;
        assert(self@.take(0).len() == 0);
        assert(linear as nat / 1 == linear);
        while axis < D
            invariant
                axis <= D,
                self@ == self.axes@,
                self@.len() == D,
                positive(self@),
                axes@.len() == D,
                remaining == linear as nat / stride(self@, axis as int),
                forall|i: int|
                    0 <= i < axis ==> #[trigger] axes@[i] == coordinates(self@, linear as nat)[i],
            decreases D - axis,
        {
            let length: usize = self.axes[axis];
            proof {
                assert(self@[axis as int] == length);
                law_strides(self@, axis as int);
                lemma_stride_positive(self@, axis as int);
                lemma_div_denominator(
                    linear as int,
                    stride(self@, axis as int) as int,
                    length as int,
                );
                lemma_coordinates_in_bounds(self@, linear as nat);
            }
            axes[axis] = remaining % length;
            remaining = remaining / length;
            axis += 1;
        }
        proof {
            lemma_coordinates_in_bounds(self@, linear as nat);
            assert(axes@ =~= coordinates(self@, linear as nat));
        }
        Point::new(axes)
    }
}

impl<const D: usize> Index<usize> for Extent<D> {
    type Output = usize;

    fn index(&self, index: usize) -> (length: &usize)
        ensures
            *length == self@[index as int],
    {
        &self.axes[index]
    }
}

impl<const D: usize> vstd::std_specs::core::IndexSpecImpl<usize> for Extent<D> {
    open spec fn index_req(&self, index: &usize) -> bool {
        *index < D
    }
}

impl<const D: usize> From<[usize; D]> for Extent<D> {
    fn from(axes: [usize; D]) -> (extent: Self)
        ensures
            extent@ == axes@,
    {
        Extent { axes }
    }
}

impl<const D: usize> vstd::std_specs::convert::FromSpecImpl<[usize; D]> for Extent<D> {
    open spec fn obeys_from_spec() -> bool {
        true
    }

    closed spec fn from_spec(axes: [usize; D]) -> Self {
        Extent { axes }
    }
}

/// Whether two extents are the same, as those of zipped inputs must be.
pub fn zip_extents_agree<const D: usize>(extent: Extent<D>, other: Extent<D>) -> (agree: bool)
    ensures
        agree == (extent@ == other@),
{
    let left: [usize; D] = extent.axes();
    let right: [usize; D] = other.axes();
    let mut axis: usize = 0;
    while axis < D
        invariant
            axis <= D,
            left@ == extent@,
            right@ == other@,
            left@.len() == D,
            right@.len() == D,
            forall|i: int| 0 <= i < axis ==> #[trigger] left@[i] == right@[i],
        decreases D - axis,
    {
        if left[axis] != right[axis] {
            return false;
        }
        axis += 1;
    }
    assert(left@ =~= right@);
    true
}

/// A logical coordinate in a rank-`D` tensor.
///
/// Spatial points use `[x, y, z, ...]`, matching [`Extent`]'s axis order.
#[derive(Debug, Clone, Copy, PartialEq, Eq, Hash)]
pub struct Point<const D: usize> {
    axes: [usize; D],
}

impl<const D: usize> View for Point<D> {
    type V = Seq<usize>;

    closed spec fn view(&self) -> Seq<usize> {
        self.axes@
    }
}

impl<const D: usize> Point<D> {
    pub fn new(axes: [usize; D]) -> (point: Self)
        ensures
            point@ == axes@,
    {
        Point { axes }
    }

    pub fn axes(self) -> (axes: [usize; D])
        ensures
            axes@ == self@,
    {
        self.axes
    }
}

impl<const D: usize> Index<usize> for Point<D> {
    type Output = usize;

    fn index(&self, index: usize) -> (coordinate: &usize)
        ensures
            *coordinate == self@[index as int],
    {
        &self.axes[index]
    }
}

impl<const D: usize> vstd::std_specs::core::IndexSpecImpl<usize> for Point<D> {
    open spec fn index_req(&self, index: &usize) -> bool {
        *index < D
    }
}

/// An extent is empty exactly where no point lies in it, or it has no axes. Every other extent
/// holds one element for each of its points, and overflows where a length cannot tell their
/// number.
pub proof fn law_extents_are_counted_by_their_points(axes: Seq<usize>)
    ensures
        counted(axes) == Err::<usize, Error>(Error::EmptyExtent) <==> axes.len() == 0 || (forall|
            point: Seq<usize>,
        |
            !#[trigger] in_bounds(axes, point)),
        counted(axes) matches Ok(count) ==> count == product(axes) && forall|position: nat|
            #![trigger coordinates(axes, position)]
            position < count <==> in_bounds(axes, coordinates(axes, position)) && offset(
                axes,
                coordinates(axes, position),
            ) == position,
        counted(axes) == Err::<usize, Error>(Error::ExtentOverflow) <==> axes.len() > 0 && positive(
            axes,
        ) && product(axes) > usize::MAX,
{
    if positive(axes) {
        let first = Seq::new(axes.len(), |axis: int| 0usize);
        assert(in_bounds(axes, first));
        if counted(axes) is Ok {
            assert forall|position: nat| position < product(axes) <==> #[trigger] in_bounds(
                axes,
                coordinates(axes, position),
            ) && offset(axes, coordinates(axes, position)) == position by {
                lemma_coordinates_in_bounds(axes, position);
                if position < product(axes) {
                    law_offset_of_coordinates(axes, position);
                } else {
                    law_coordinates_of_offset(axes, coordinates(axes, position));
                }
            }
        }
    } else {
        let axis = choose|axis: int| 0 <= axis < axes.len() && !(#[trigger] axes[axis] > 0);
        assert forall|point: Seq<usize>| !#[trigger] in_bounds(axes, point) by {
            if in_bounds(axes, point) {
                assert(point[axis] < axes[axis]);
            }
        }
    }
}

} // verus!
