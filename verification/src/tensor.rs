//! Tensors of plain elements.
use vstd::layout::size_of;
use vstd::prelude::*;
use vstd::slice::slice_to_vec;

use crate::error::Error;
use crate::extent::{
    coordinates, counted, in_bounds, law_coordinates_of_offset, lemma_stride_positive, offset,
    positive, product, Extent, Point,
};

verus! {

/// How many bytes a shared buffer of `len` elements of a given size takes, or why there is none.
pub open spec fn shared_bytes(len: nat, element_size: nat) -> Result<usize, Error> {
    if len * element_size > usize::MAX {
        Err(Error::ExtentOverflow)
    } else if len * element_size == 0 {
        Err(Error::EmptyExtent)
    } else {
        Ok((len * element_size) as usize)
    }
}

/// How many bytes a shared buffer of `len` elements takes.
pub fn shared_byte_len<T>(len: usize) -> (byte_len: Result<usize, Error>)
    ensures
        byte_len == shared_bytes(len as nat, size_of::<T>()),
{
    match len.checked_mul(core::mem::size_of::<T>()) {
        Some(byte_len) => if byte_len == 0 {
            Err(Error::EmptyExtent)
        } else {
            Ok(byte_len)
        },
        None => Err(Error::ExtentOverflow),
    }
}

/// How many elements a tensor of an extent holds, or why there is none.
pub open spec fn allocated(axes: Seq<usize>, element_size: nat) -> Result<usize, Error> {
    match counted(axes) {
        Ok(len) => match shared_bytes(len as nat, element_size) {
            Ok(_) => Ok(len),
            Err(error) => Err(error),
        },
        Err(error) => Err(error),
    }
}

/// An owned, contiguous rank-`D` tensor.
#[derive(Debug)]
pub struct Tensor<T: Copy, const D: usize> {
    extent: Extent<D>,
    values: Vec<T>,
}

/// What a tensor is: the lengths of its axes, and its elements by linear position.
#[verifier::ext_equal]
pub ghost struct TensorView<T> {
    pub axes: Seq<usize>,
    pub values: Seq<T>,
}

impl<T: Copy, const D: usize> View for Tensor<T, D> {
    type V = TensorView<T>;

    closed spec fn view(&self) -> TensorView<T> {
        TensorView { axes: self.extent@, values: self.values@ }
    }
}

impl<T> TensorView<T> {
    /// A tensor holds one element for each point of its extent.
    pub open spec fn wf(self) -> bool {
        counted(self.axes) == Ok::<usize, Error>(self.values.len() as usize) && self.values.len()
            <= usize::MAX
    }

    /// The element at a point.
    pub open spec fn at(self, point: Seq<usize>) -> T {
        self.values[offset(self.axes, point) as int]
    }
}

impl<T: Copy, const D: usize> Tensor<T, D> {
    /// A tensor whose element at each point is what `make` gives for the point.
    pub fn from_fn(extent: Extent<D>, mut make: impl FnMut(Point<D>) -> T) -> (tensor: Result<
        Self,
        Error,
    >)
        requires
            forall|point: Point<D>| in_bounds(extent@, point@) ==> call_requires(make, (point,)),
        ensures
            match (tensor, allocated(extent@, size_of::<T>())) {
                (Ok(tensor), Ok(len)) => {
                    &&& tensor@.wf()
                    &&& tensor@.axes == extent@
                    &&& tensor@.values.len() == len
                    &&& forall|linear: int|
                        0 <= linear < len ==> made_at(
                            make,
                            extent@,
                            linear as nat,
                            #[trigger] tensor@.values[linear],
                        )
                },
                (Err(error), Err(expected)) => error == expected,
                _ => false,
            },
    {
        let len: usize = match extent.element_count() {
            Ok(len) => len,
            Err(error) => return Err(error),
        };
        match shared_byte_len::<T>(len) {
            Ok(_) => {},
            Err(error) => return Err(error),
        }
        let ghost given = make;
        let mut values: Vec<T> = Vec::new();
        let mut linear: usize = 0;
        while linear < len
            invariant
                linear <= len,
                counted(extent@) == Ok::<usize, Error>(len),
                make == given,
                forall|point: Point<D>|
                    in_bounds(extent@, point@) ==> call_requires(make, (point,)),
                values@.len() == linear,
                forall|i: int|
                    0 <= i < linear ==> made_at(given, extent@, i as nat, #[trigger] values@[i]),
            decreases len - linear,
        {
            let point = extent.point_from_linear(linear);
            let value = make(point);
            assert(made_at(given, extent@, linear as nat, value));
            values.push(value);
            linear += 1;
        }
        Ok(Tensor { extent, values })
    }

    /// A tensor that holds a copy of the values, by linear position.
    pub fn from_slice(extent: Extent<D>, values: &[T]) -> (tensor: Result<Self, Error>)
        ensures
            match (tensor, copied(extent@, values@, size_of::<T>())) {
                (Ok(tensor), Ok(expected)) => tensor@ == expected && tensor@.wf(),
                (Err(error), Err(expected)) => error == expected,
                _ => false,
            },
    {
        let len: usize = match extent.element_count() {
            Ok(len) => len,
            Err(error) => return Err(error),
        };
        if values.len() != len {
            return Err(Error::ShapeMismatch { expected: len, actual: values.len() });
        }
        match shared_byte_len::<T>(len) {
            Ok(_) => {},
            Err(error) => return Err(error),
        }
        Ok(Tensor { extent, values: slice_to_vec(values) })
    }

    pub fn extent(&self) -> (extent: Extent<D>)
        ensures
            extent@ == self@.axes,
    {
        self.extent
    }

    /// The number of elements.
    pub fn len(&self) -> (len: usize)
        ensures
            len == self@.values.len(),
    {
        self.values.len()
    }

    pub fn is_empty(&self) -> (empty: bool)
        ensures
            empty == (self@.values.len() == 0),
    {
        self.values.len() == 0
    }

    /// The elements by linear position.
    pub fn as_slice(&self) -> (slice: &[T])
        ensures
            slice@ == self@.values,
    {
        self.values.as_slice()
    }

    /// The elements by linear position, to be written.
    pub fn as_mut_slice(&mut self) -> (slice: &mut [T])
        ensures
            slice@ == old(self)@.values,
            final(self)@ == (TensorView { axes: old(self)@.axes, values: final(slice)@ }),
    {
        self.values.as_mut_slice()
    }

    /// A copy of the elements by linear position.
    pub fn to_vec(&self) -> (values: Vec<T>)
        ensures
            values@ == self@.values,
    {
        slice_to_vec(self.as_slice())
    }
}

/// Whether a function can give a value for the point at a linear position.
pub open spec fn made_at<T, F: FnMut(Point<D>) -> T, const D: usize>(
    make: F,
    axes: Seq<usize>,
    linear: nat,
    value: T,
) -> bool {
    exists|point: Point<D>|
        point@ == coordinates(axes, linear) && #[trigger] call_ensures(make, (point,), value)
}

/// What a tensor of an extent is when it holds a copy of the values, or why there is none.
pub open spec fn copied<T>(axes: Seq<usize>, values: Seq<T>, element_size: nat) -> Result<
    TensorView<T>,
    Error,
> {
    match counted(axes) {
        Ok(len) => if values.len() != len {
            Err(Error::ShapeMismatch { expected: len, actual: values.len() as usize })
        } else {
            match shared_bytes(len as nat, element_size) {
                Ok(_) => Ok(TensorView { axes, values }),
                Err(error) => Err(error),
            }
        },
        Err(error) => Err(error),
    }
}

/// The element that `from_fn` puts at a point is one that the function gives for that point.
pub proof fn law_elements_are_made_for_their_points<
    T: Copy,
    F: FnMut(Point<D>) -> T,
    const D: usize,
>(make: F, tensor: TensorView<T>, point: Seq<usize>)
    requires
        forall|linear: int|
            0 <= linear < tensor.values.len() ==> made_at(
                make,
                tensor.axes,
                linear as nat,
                #[trigger] tensor.values[linear],
            ),
        tensor.wf(),
        in_bounds(tensor.axes, point),
    ensures
        exists|argument: Point<D>|
            argument@ == point && #[trigger] call_ensures(make, (argument,), tensor.at(point)),
{
    law_coordinates_of_offset(tensor.axes, point);
    law_tensors_are_not_empty(tensor);
    let linear = offset(tensor.axes, point);
    let value = tensor.values[linear as int];
    assert(made_at(make, tensor.axes, linear, value));
    let argument = choose|argument: Point<D>|
        argument@ == coordinates(tensor.axes, linear) && #[trigger] call_ensures(
            make,
            (argument,),
            value,
        );
    assert(argument@ == point && call_ensures(make, (argument,), tensor.at(point)));
}

/// No tensor is empty, and none has rank zero.
pub proof fn law_tensors_are_not_empty<T>(tensor: TensorView<T>)
    requires
        tensor.wf(),
    ensures
        tensor.values.len() > 0,
        tensor.axes.len() > 0,
        tensor.values.len() == product(tensor.axes),
{
    lemma_stride_positive(tensor.axes, tensor.axes.len() as int);
    assert(tensor.axes.take(tensor.axes.len() as int) =~= tensor.axes);
}

/// Reading a tensor back gives the values that it was made from.
pub proof fn law_values_are_read_back<T>(axes: Seq<usize>, values: Seq<T>, element_size: nat)
    ensures
        copied(axes, values, element_size) matches Ok(tensor) ==> tensor.values == values
            && tensor.axes == axes,
{
}

/// Writing the elements of a tensor keeps its extent and their number.
pub proof fn law_writes_keep_the_shape<T>(tensor: TensorView<T>, written: Seq<T>)
    requires
        tensor.wf(),
        written.len() == tensor.values.len(),
    ensures
        (TensorView { axes: tensor.axes, values: written }).wf(),
{
}

/// A tensor can be made of values exactly where there is one for each point of an extent that is
/// not empty, and a length can tell the bytes of the elements, of which there are some. A wrong
/// number of values is told with the right one.
pub proof fn law_tensors_are_made_where_they_fit<T>(
    axes: Seq<usize>,
    values: Seq<T>,
    element_size: nat,
)
    requires
        values.len() <= usize::MAX,
    ensures
        ({
            let made = copied(axes, values, element_size);
            let holds = axes.len() > 0 && positive(axes) && product(axes) <= usize::MAX;
            let bytes = product(axes) * element_size;
            &&& made is Ok <==> holds && values.len() == product(axes) && 0 < bytes <= usize::MAX
            &&& made matches Err(Error::ShapeMismatch { expected, actual }) ==> holds && expected
                == product(axes) && actual == values.len() && actual != expected
            &&& holds && values.len() != product(axes) ==> (made matches Err(
                Error::ShapeMismatch { .. },
            ))
            &&& axes.len() == 0 || !positive(axes) ==> made == Err::<TensorView<T>, Error>(
                Error::EmptyExtent,
            )
            &&& axes.len() > 0 && positive(axes) && (product(axes) > usize::MAX || (values.len()
                == product(axes) && bytes > usize::MAX)) ==> made == Err::<TensorView<T>, Error>(
                Error::ExtentOverflow,
            )
            &&& holds && values.len() == product(axes) && bytes == 0 ==> made == Err::<
                TensorView<T>,
                Error,
            >(Error::EmptyExtent)
        }),
{
}

/// A tensor can be made of a function exactly where one can be made of as many values as its extent
/// has points, and it holds that many elements.
pub proof fn law_functions_make_as_many_elements<T>(
    axes: Seq<usize>,
    values: Seq<T>,
    element_size: nat,
)
    requires
        values.len() == product(axes),
        values.len() <= usize::MAX,
    ensures
        allocated(axes, element_size) is Ok <==> copied(axes, values, element_size) is Ok,
        allocated(axes, element_size) matches Ok(len) ==> len == product(axes),
        allocated(axes, element_size) matches Err(error) ==> copied(axes, values, element_size)
            == Err::<TensorView<T>, Error>(error),
{
}

} // verus!
