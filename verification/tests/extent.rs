use parallel_metal::error::Error;
use parallel_metal::extent::{zip_extents_agree, Extent, Point};

#[test]
fn first_axis_contiguous_point_from_linear() {
    let extent = Extent::new([2, 3, 4]);
    assert_eq!(extent.element_count().unwrap(), 24);
    assert_eq!(extent.point_from_linear(0), Point::new([0, 0, 0]));
    assert_eq!(extent.point_from_linear(6), Point::new([0, 0, 1]));
    assert_eq!(extent.point_from_linear(14), Point::new([0, 1, 2]));
    assert_eq!(extent.point_from_linear(23), Point::new([1, 2, 3]));
}

#[test]
fn rejects_empty_and_overflowing_extents() {
    assert!(matches!(
        Extent::new([2, 0]).element_count(),
        Err(Error::EmptyExtent)
    ));
    assert!(matches!(
        Extent::new([usize::MAX, 2]).element_count(),
        Err(Error::ExtentOverflow)
    ));
}

#[test]
fn zipped_extents_agree_axis_by_axis() {
    assert!(zip_extents_agree(Extent::new([3, 4]), Extent::new([3, 4])));
    assert!(!zip_extents_agree(Extent::new([3, 4]), Extent::new([4, 3])));
    assert!(!zip_extents_agree(Extent::new([3, 4]), Extent::new([3, 5])));
    assert!(zip_extents_agree(Extent::new([]), Extent::new([])));
}

#[test]
fn positions_past_the_count_repeat() {
    let extent = Extent::new([2, 3, 4]);
    for linear in 0..24 {
        assert_eq!(extent.point_from_linear(linear + 24), extent.point_from_linear(linear));
    }
}

#[test]
fn permuted_axes_hold_as_many_elements() {
    for axes in [[2, 3, 4], [4, 2, 3], [3, 4, 2]] {
        assert_eq!(Extent::new(axes).element_count().unwrap(), 24);
    }
    assert!(matches!(Extent::new([0, 5]).element_count(), Err(Error::EmptyExtent)));
    assert!(matches!(Extent::new([5, 0]).element_count(), Err(Error::EmptyExtent)));
}
