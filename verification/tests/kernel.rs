use parallel_metal::{
    AssignOp, BinaryOp, Bound, Capture, DeviceBlock, ElementKernel, Expr, ScalarParam, ScalarType,
    Statement, UnaryOp,
};

#[test]
fn emits_zip_xor_kernel() {
    let kernel = ElementKernel {
        name: "xor".into(),
        inputs: vec![ScalarType::U64, ScalarType::U64],
        scalars: vec![],
        output: ScalarType::U64,
        logical_rank: None,
        body: DeviceBlock {
            statements: vec![],
            result: Expr::Binary {
                op: BinaryOp::BitXor,
                left: Box::new(Expr::Input(0)),
                right: Box::new(Expr::Input(1)),
            },
        },
    };

    let source = kernel.to_msl();
    assert!(source.contains("const device ulong* __pm_in1 [[buffer(2)]]"));
    assert!(source.contains("__pm_in0[__pm_linear] ^ __pm_in1[__pm_linear]"));
    assert!(source.contains("constant uint& __pm_count [[buffer(3)]]"));
    assert!(source.contains("constant uint* __pm_extent [[buffer(4)]]"));
}

#[test]
fn emits_logical_point_reconstruction() {
    let kernel = ElementKernel {
        name: "coordinates".into(),
        inputs: vec![],
        scalars: vec![],
        output: ScalarType::U32,
        logical_rank: Some(3),
        body: DeviceBlock {
            statements: vec![],
            result: Expr::PointAxis(1),
        },
    };

    let source = kernel.to_msl();
    assert!(source.contains("uint __pm_point0 = __pm_remaining % __pm_extent[0]"));
    assert!(source.contains("uint __pm_point1 = __pm_remaining % __pm_extent[1]"));
    assert!(source.contains("__pm_remaining /= __pm_extent[0]"));
    assert!(source.contains("__pm_out[__pm_linear] = __pm_point1"));
}

fn local(name: &str) -> Expr {
    Expr::Local(name.into())
}

fn literal(text: &str) -> Expr {
    Expr::Literal(text.into())
}

#[test]
fn emits_a_whole_kernel() {
    let kernel = ElementKernel {
        name: "wave".into(),
        inputs: vec![ScalarType::F32],
        scalars: vec![ScalarParam {
            name: "__pm_scalar_time".into(),
            ty: ScalarType::F32,
        }],
        output: ScalarType::F32,
        logical_rank: Some(2),
        body: DeviceBlock {
            statements: vec![
                Statement::Let {
                    name: "__pm_local_value".into(),
                    ty: ScalarType::F32,
                    value: literal("0.0f"),
                },
                Statement::ForRange {
                    variable: "__pm_loop_k".into(),
                    start: Bound::Literal(1),
                    end: Bound::Literal(4),
                    inclusive: true,
                    body: vec![Statement::Assign {
                        name: "__pm_local_value".into(),
                        op: AssignOp::Add,
                        value: Expr::Call {
                            function: "sin".into(),
                            arguments: vec![Expr::Binary {
                                op: BinaryOp::Div,
                                left: Box::new(Expr::Cast {
                                    value: Box::new(Expr::PointAxis(0)),
                                    ty: ScalarType::F32,
                                }),
                                right: Box::new(local("__pm_loop_k")),
                            }],
                        },
                    }],
                },
            ],
            result: Expr::Select {
                condition: Box::new(Expr::Binary {
                    op: BinaryOp::Lt,
                    left: Box::new(Expr::Input(0)),
                    right: Box::new(Expr::Scalar("__pm_scalar_time".into())),
                }),
                when_true: Box::new(Expr::Unary {
                    op: UnaryOp::Neg,
                    value: Box::new(local("__pm_local_value")),
                }),
                when_false: Box::new(Expr::ExtentAxis(1)),
            },
        },
    };
    let expected = "#include <metal_stdlib>

using namespace metal;

kernel void wave(
    device float* __pm_out [[buffer(0)]],
    const device float* __pm_in0 [[buffer(1)]],
    constant float& __pm_scalar_time [[buffer(2)]],
    constant uint& __pm_count [[buffer(3)]],
    constant uint* __pm_extent [[buffer(4)]],
    uint __pm_linear [[thread_position_in_grid]])
{
    if (__pm_linear < __pm_count) {
        uint __pm_remaining = __pm_linear;
        uint __pm_point0 = __pm_remaining % __pm_extent[0];
        __pm_remaining /= __pm_extent[0];
        uint __pm_point1 = __pm_remaining % __pm_extent[1];
        float __pm_local_value = 0.0f;
        for (uint __pm_loop_k = 1; __pm_loop_k <= 4; ++__pm_loop_k) {
            __pm_local_value += sin((float(__pm_point0) / __pm_loop_k));
        }
        __pm_out[__pm_linear] = ((__pm_in0[__pm_linear] < __pm_scalar_time) ? (-__pm_local_value) : __pm_extent[1]);
    }
}
";
    assert_eq!(kernel.to_msl(), expected);
    assert_eq!(kernel.clone().to_msl(), expected);
    assert_eq!(kernel.clone(), kernel);
}

#[test]
fn declares_each_scalar_type_under_its_metal_name() {
    let names = [
        (ScalarType::U8, "u8", "uchar"),
        (ScalarType::U16, "u16", "ushort"),
        (ScalarType::U32, "u32", "uint"),
        (ScalarType::U64, "u64", "ulong"),
        (ScalarType::I8, "i8", "char"),
        (ScalarType::I16, "i16", "short"),
        (ScalarType::I32, "i32", "int"),
        (ScalarType::I64, "i64", "long"),
        (ScalarType::F32, "f32", "float"),
    ];
    for (ty, rust, msl) in names {
        assert_eq!(ScalarType::from_rust_name(rust), Some(ty));
        assert_eq!(ty.msl_name(), msl);
    }
    assert_eq!(ScalarType::from_rust_name("usize"), None);
    assert_eq!(ScalarType::from_rust_name("u128"), None);
    assert_eq!(ScalarType::from_rust_name(""), None);
}

fn binary(op: BinaryOp) -> String {
    let mut text = String::new();
    Expr::Binary {
        op,
        left: Box::new(literal("1")),
        right: Box::new(literal("2")),
    }
    .write_msl(&mut text);
    text
}

#[test]
fn writes_every_operator() {
    let operators = [
        (BinaryOp::Add, "(1 + 2)"),
        (BinaryOp::Sub, "(1 - 2)"),
        (BinaryOp::Mul, "(1 * 2)"),
        (BinaryOp::Div, "(1 / 2)"),
        (BinaryOp::Rem, "(1 % 2)"),
        (BinaryOp::BitXor, "(1 ^ 2)"),
        (BinaryOp::BitAnd, "(1 & 2)"),
        (BinaryOp::BitOr, "(1 | 2)"),
        (BinaryOp::Shl, "(1 << 2)"),
        (BinaryOp::Shr, "(1 >> 2)"),
        (BinaryOp::Eq, "(1 == 2)"),
        (BinaryOp::Ne, "(1 != 2)"),
        (BinaryOp::Lt, "(1 < 2)"),
        (BinaryOp::Le, "(1 <= 2)"),
        (BinaryOp::Gt, "(1 > 2)"),
        (BinaryOp::Ge, "(1 >= 2)"),
        (BinaryOp::And, "(1 && 2)"),
        (BinaryOp::Or, "(1 || 2)"),
    ];
    for (op, text) in operators {
        assert_eq!(binary(op), text);
    }
}

#[test]
fn writes_every_statement() {
    let assignments = [
        (AssignOp::Assign, "x = 1;\n"),
        (AssignOp::Add, "x += 1;\n"),
        (AssignOp::Sub, "x -= 1;\n"),
        (AssignOp::Mul, "x *= 1;\n"),
        (AssignOp::Div, "x /= 1;\n"),
    ];
    for (op, text) in assignments {
        let mut written = String::new();
        let statement = Statement::Assign {
            name: "x".into(),
            op,
            value: literal("1"),
        };
        statement.write_msl(&mut written, 0);
        assert_eq!(written, text);
        assert_eq!(statement.clone(), statement);
    }
    let mut written = String::from("{\n");
    Statement::ForRange {
        variable: "i".into(),
        start: Bound::Literal(0),
        end: Bound::Literal(8),
        inclusive: false,
        body: vec![Statement::ForRange {
            variable: "j".into(),
            start: Bound::Literal(2),
            end: Bound::Literal(3),
            inclusive: true,
            body: vec![Statement::Let {
                name: "y".into(),
                ty: ScalarType::I16,
                value: Expr::Call {
                    function: "f".into(),
                    arguments: vec![literal("1"), local("j"), literal("3")],
                },
            }],
        }],
    }
    .write_msl(&mut written, 1);
    assert_eq!(
        written,
        "{
    for (uint i = 0; i < 8; ++i) {
        for (uint j = 2; j <= 3; ++j) {
            short y = f(1, j, 3);
        }
    }
"
    );
}

#[test]
fn captures_are_bound_behind_the_inputs() {
    let first = Capture { tensor: 3, element: ScalarType::F32 };
    let second = Capture { tensor: 0, element: ScalarType::U8 };
    let kernel = ElementKernel {
        name: "gather".into(),
        inputs: vec![ScalarType::U32],
        scalars: vec![ScalarParam { name: "__pm_scalar_bias".into(), ty: ScalarType::F32 }],
        output: ScalarType::F32,
        logical_rank: None,
        body: DeviceBlock {
            statements: vec![Statement::Sum {
                name: "__pm_local_total".into(),
                ty: ScalarType::F32,
                variable: "__pm_loop_k".into(),
                start: Bound::ExtentAxis(1),
                end: Bound::CapturedAxis { capture: first, axis: 2 },
                inclusive: false,
                term: Expr::Captured {
                    capture: first,
                    coordinates: vec![local("__pm_loop_k"), literal("1"), Expr::Input(0)],
                },
            }],
            result: Expr::Binary {
                op: BinaryOp::Add,
                left: Box::new(Expr::Captured {
                    capture: second,
                    coordinates: vec![Expr::Input(0)],
                }),
                right: Box::new(Expr::CapturedAxis { capture: second, axis: 0 }),
            },
        },
    };
    assert_eq!(kernel.body.captures(), vec![first, second]);
    assert_eq!(
        kernel.to_msl(),
        "#include <metal_stdlib>

using namespace metal;

kernel void gather(
    device float* __pm_out [[buffer(0)]],
    const device uint* __pm_in0 [[buffer(1)]],
    const device float* __pm_cap3 [[buffer(2)]],
    const device uchar* __pm_cap0 [[buffer(3)]],
    constant uint* __pm_cap3_extent [[buffer(4)]],
    constant uint* __pm_cap0_extent [[buffer(5)]],
    constant float& __pm_scalar_bias [[buffer(6)]],
    constant uint& __pm_count [[buffer(7)]],
    constant uint* __pm_extent [[buffer(8)]],
    uint __pm_linear [[thread_position_in_grid]])
{
    if (__pm_linear < __pm_count) {
        float __pm_local_total = 0;
        for (uint __pm_loop_k = __pm_extent[1]; __pm_loop_k < __pm_cap3_extent[2]; ++__pm_loop_k) {
            __pm_local_total += __pm_cap3[(__pm_loop_k + __pm_cap3_extent[0] * (1 + __pm_cap3_extent[1] * __pm_in0[__pm_linear]))];
        }
        __pm_out[__pm_linear] = (__pm_cap0[__pm_in0[__pm_linear]] + __pm_cap0_extent[0]);
    }
}
"
    );
}

#[test]
fn deeper_statements_are_the_same_lines() {
    let statement = Statement::ForRange {
        variable: "i".into(),
        start: Bound::Literal(0),
        end: Bound::Literal(2),
        inclusive: false,
        body: vec![Statement::Sum {
            name: "x".into(),
            ty: ScalarType::U8,
            variable: "k".into(),
            start: Bound::Literal(1),
            end: Bound::Literal(3),
            inclusive: true,
            term: local("k"),
        }],
    };
    let mut flush = String::new();
    statement.write_msl(&mut flush, 0);
    assert_eq!(
        flush,
        "for (uint i = 0; i < 2; ++i) {
    uchar x = 0;
    for (uint k = 1; k <= 3; ++k) {
        x += k;
    }
}
"
    );
    let mut deep = String::new();
    statement.write_msl(&mut deep, 3);
    let indented = flush.lines().map(|line| format!("            {line}\n")).collect::<String>();
    assert_eq!(deep, indented);
}
