use parallel_metal::names::{
    kernel_msl_identifier, local_msl_identifier, loop_msl_identifier, sanitize_identifier,
    scalar_msl_identifier, NameMap,
};
use parallel_metal::tensor::shared_byte_len;
use parallel_metal::text::{parse_number, push_decimal, same_text, NumberError};
use parallel_metal::{Error, Extent, MetalElement, Point, Tensor};

#[test]
fn reads_back_what_it_writes() {
    for value in [0u128, 7, 10, 99, 1_000_003, u32::MAX as u128, u64::MAX as u128, u128::MAX] {
        let mut text = String::from("n=");
        push_decimal(&mut text, value);
        assert_eq!(text, format!("n={value}"));
    }
    for value in [0usize, 9, 10, 65_536, usize::MAX] {
        let mut text = String::new();
        push_decimal(&mut text, value as u128);
        assert_eq!(parse_number(&text, usize::MAX), Ok(value));
    }
}

#[test]
fn reads_numbers_as_the_standard_library_does() {
    for text in ["0", "42", "+7", "007", "4294967295", "4294967296", "", "+", "-1", "1_0", "x", "٣", "99999999999x", "9x9"] {
        let expected = text.parse::<u32>().map_err(|error| error.to_string());
        let actual = parse_number(text, u32::MAX as usize)
            .map(|value| value as u32)
            .map_err(|error| error.message().to_owned());
        assert_eq!(actual, expected, "{text}");
    }
    assert_eq!(parse_number("", 9), Err(NumberError::Empty));
    assert_eq!(parse_number("1a", 9), Err(NumberError::InvalidDigit));
    assert_eq!(parse_number("10", 9), Err(NumberError::TooLarge));
}

#[test]
fn compares_texts() {
    assert!(same_text("größe", "größe"));
    assert!(!same_text("a", "ab"));
    assert!(!same_text("ab", "a"));
    assert!(!same_text("ab", "ac"));
}

#[test]
fn sanitizes_names() {
    assert_eq!(sanitize_identifier("value_2"), "value_2");
    assert_eq!(sanitize_identifier("r#type"), "type");
    assert_eq!(sanitize_identifier("r#r#x"), "x");
    assert_eq!(sanitize_identifier("größe"), "gr__e");
    assert_eq!(sanitize_identifier("a-b c"), "a_b_c");
    assert_eq!(sanitize_identifier(""), "");
    assert_eq!(sanitize_identifier("r"), "r");
    let once = sanitize_identifier("r#größe");
    assert_eq!(sanitize_identifier(&once), once);
}

#[test]
fn names_of_different_kinds_differ() {
    let names = [
        scalar_msl_identifier("x"),
        local_msl_identifier("x"),
        loop_msl_identifier("x"),
        kernel_msl_identifier("x"),
    ];
    assert_eq!(names, ["__pm_scalar_x", "__pm_local_x", "__pm_loop_x", "__pm_kernel_x"]);
}

#[test]
fn maps_keep_the_later_value_of_a_name() {
    let mut map: NameMap<u8> = NameMap::new();
    assert_eq!(map.get("a"), None);
    map.insert("a".into(), 1);
    map.insert("b".into(), 2);
    map.insert("a".into(), 3);
    let copy = map.duplicate();
    map.insert("b".into(), 4);
    assert_eq!(map.get("a"), Some(3));
    assert_eq!(map.get("b"), Some(4));
    assert_eq!(copy.get("b"), Some(2));
    assert!(copy.contains("a") && !copy.contains("c"));
}

#[test]
fn describes_errors() {
    let messages = [
        (Error::NoMetalDevice, "no Metal device is available"),
        (Error::EmptyExtent, "zero-sized tensors are not supported yet"),
        (Error::ExtentOverflow, "tensor extent or byte size overflowed"),
        (
            Error::TensorTooLarge { elements: 4_294_967_296 },
            "tensor has 4294967296 elements; the first runtime slice supports at most u32::MAX",
        ),
        (
            Error::ShapeMismatch { expected: 6, actual: 10 },
            "shape mismatch: expected 6 elements, got 10",
        ),
        (Error::ShaderCompile("a".into()), "Metal shader compilation failed: a"),
        (Error::FunctionLookup("b".into()), "Metal kernel lookup failed: b"),
        (Error::PipelineCreation("c".into()), "Metal pipeline creation failed: c"),
        (Error::CommandFailed("d".into()), "Metal command failed: d"),
    ];
    for (error, message) in messages {
        assert_eq!(error.message(), message);
    }
}

#[test]
fn extents_and_points_are_indexed_by_axis() {
    let extent: Extent<3> = Extent::from([4, 5, 6]);
    assert_eq!((extent[0], extent[1], extent[2]), (4, 5, 6));
    assert_eq!(extent.axes(), [4, 5, 6]);
    let point = Point::new([1, 2, 3]);
    assert_eq!((point[0], point[1], point[2]), (1, 2, 3));
    assert_eq!(point.axes(), [1, 2, 3]);
    assert!(matches!(Extent::new([]).element_count(), Err(Error::EmptyExtent)));
    assert!(matches!(Extent::new([0, usize::MAX, 2]).element_count(), Err(Error::EmptyExtent)));
    assert!(matches!(Extent::new([usize::MAX, 2, 0]).element_count(), Err(Error::EmptyExtent)));
    assert!(matches!(Extent::new([usize::MAX, 1]).element_count(), Ok(usize::MAX)));
}

#[test]
fn every_linear_position_is_the_offset_of_its_point() {
    let extent = Extent::new([3, 4, 5]);
    for linear in 0..60 {
        let point = extent.point_from_linear(linear);
        assert_eq!(point[0] + 3 * (point[1] + 4 * point[2]), linear);
    }
    let plane = Extent::new([7, 2]);
    assert_eq!(plane.point_from_linear(7 + 5), Point::new([5, 1]));
}

#[test]
fn from_fn_makes_each_element_for_its_point() {
    let extent = Extent::new([2, 3]);
    let mut calls = 0;
    let tensor = Tensor::from_fn(extent, |point: Point<2>| {
        calls += 1;
        point[0] as f32 + 10.0 * point[1] as f32
    })
    .unwrap();
    assert_eq!(calls, 6);
    assert_eq!(tensor.as_slice(), &[0.0, 1.0, 10.0, 11.0, 20.0, 21.0]);
    assert_eq!(tensor.extent(), extent);
    assert_eq!(tensor.len(), 6);
    assert!(!tensor.is_empty());
}

#[test]
fn from_slice_keeps_the_values() {
    let values = [3u64, 1, 4, 1, 5, 9];
    let mut tensor = Tensor::from_slice(Extent::new([3, 2]), &values).unwrap();
    assert_eq!(tensor.to_vec(), values);
    for value in tensor.as_mut_slice() {
        *value += 1;
    }
    assert_eq!(tensor.as_slice(), &[4, 2, 5, 2, 6, 10]);
    assert_eq!(tensor.extent(), Extent::new([3, 2]));
}

#[test]
fn tensors_report_their_errors_in_order() {
    assert!(matches!(
        Tensor::from_slice(Extent::new([2, 0]), &[1u8]),
        Err(Error::EmptyExtent)
    ));
    assert!(matches!(
        Tensor::from_slice(Extent::new([2, 2]), &[1u8, 2, 3]),
        Err(Error::ShapeMismatch { expected: 4, actual: 3 })
    ));
    assert!(matches!(
        Tensor::from_slice(Extent::new([2]), &[(), ()]),
        Err(Error::EmptyExtent)
    ));
    assert!(matches!(
        Tensor::from_fn(Extent::new([usize::MAX / 4]), |_: Point<1>| 0u64),
        Err(Error::ExtentOverflow)
    ));
    assert!(matches!(
        Tensor::from_fn(Extent::new([0]), |_: Point<1>| 0u64),
        Err(Error::EmptyExtent)
    ));
}

#[test]
fn counts_the_bytes_of_a_buffer() {
    assert!(matches!(shared_byte_len::<u64>(3), Ok(24)));
    assert!(matches!(shared_byte_len::<u8>(usize::MAX), Ok(usize::MAX)));
    assert!(matches!(shared_byte_len::<u16>(usize::MAX), Err(Error::ExtentOverflow)));
    assert!(matches!(shared_byte_len::<u8>(0), Err(Error::EmptyExtent)));
    assert!(matches!(shared_byte_len::<()>(5), Err(Error::EmptyExtent)));
}

fn element_name<T: MetalElement>() -> &'static str {
    T::MSL_NAME
}

#[test]
fn elements_have_metal_names() {
    assert_eq!(element_name::<u8>(), "uchar");
    assert_eq!(element_name::<u16>(), "ushort");
    assert_eq!(element_name::<u32>(), "uint");
    assert_eq!(element_name::<u64>(), "ulong");
    assert_eq!(element_name::<i8>(), "char");
    assert_eq!(element_name::<i16>(), "short");
    assert_eq!(element_name::<i32>(), "int");
    assert_eq!(element_name::<i64>(), "long");
}
