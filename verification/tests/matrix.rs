use std::collections::HashMap;

use parallel_metal::expand::parallel;
use parallel_metal::host::HostStatement;
use parallel_metal::runtime::{plan_elementwise, BufferBinding, Resource};
use parallel_metal::source::{
    ExprKind, Ident, Literal, LiteralKind, PatternKind, RankExpr, SourceArgument, SourceBinaryOp,
    SourceBlock, SourceClosure, SourceExpr, SourceFunction, SourceInitializer, SourceLocal,
    SourceOutput, SourcePath, SourcePattern, SourceStatement, SourceType, Span, TypeArgument,
    TypeArguments, TypeKind, TypeSegment,
};
use parallel_metal::{BinaryOp, Bound, Expr, Extent, Point, Statement, Tensor};

fn at(index: usize) -> Span {
    Span { index }
}

fn ident(name: &str) -> Ident {
    Ident { name: name.into(), span: at(0) }
}

fn expr(kind: ExprKind) -> SourceExpr {
    SourceExpr { span: at(0), kind }
}

fn path(name: &str) -> SourceExpr {
    expr(ExprKind::Path(SourcePath { qualified: false, segments: vec![ident(name)] }))
}

fn digits(text: &str) -> SourceExpr {
    expr(ExprKind::Lit(Literal { span: at(0), kind: LiteralKind::Int(text.into()) }))
}

fn method(receiver: SourceExpr, name: &str, arguments: Vec<SourceExpr>) -> SourceExpr {
    expr(ExprKind::MethodCall {
        receiver: Box::new(receiver),
        method: name.into(),
        arguments,
        arguments_span: at(0),
    })
}

fn index(base: SourceExpr, place: SourceExpr) -> SourceExpr {
    expr(ExprKind::Index { base: Box::new(base), index: Box::new(place) })
}

fn element(tensor: &str, first: &str, second: &str) -> SourceExpr {
    index(path(tensor), expr(ExprKind::Tuple(vec![path(first), path(second)])))
}

fn pattern(kind: PatternKind) -> SourcePattern {
    SourcePattern { span: at(0), kind }
}

fn pat(name: &str) -> SourcePattern {
    pattern(PatternKind::Ident { ident: ident(name), mutable: false, subpattern: None })
}

fn closure(input: SourcePattern, body: SourceExpr) -> SourceExpr {
    expr(ExprKind::Closure(SourceClosure {
        inputs: vec![input],
        inputs_span: at(0),
        body: Box::new(body),
    }))
}

fn named(name: &str, arguments: TypeArguments) -> SourceType {
    SourceType {
        span: at(0),
        kind: TypeKind::Path {
            qualified: false,
            last: Some(Box::new(TypeSegment { span: at(0), name: name.into(), arguments })),
        },
    }
}

fn matrix() -> SourceType {
    named(
        "Tensor",
        TypeArguments::AngleBracketed {
            span: at(0),
            arguments: vec![
                TypeArgument::Type(named("f32", TypeArguments::Absent)),
                TypeArgument::Const(RankExpr { expression: digits("2"), text: "2".into() }),
            ],
        },
    )
}

fn parameter(name: &str) -> SourceArgument {
    SourceArgument::Typed {
        pattern: pat(name),
        ty: SourceType { span: at(0), kind: TypeKind::Reference(Box::new(matrix())) },
    }
}

fn local(span: usize, name: &str, value: SourceExpr) -> SourceStatement {
    SourceStatement::Local(SourceLocal {
        span: at(span),
        pattern: pat(name),
        initializer: Some(SourceInitializer { value, diverges: false }),
    })
}

/// The function
///
/// ```ignore
/// fn matmul(left: &Tensor<f32, 2>, right: &Tensor<f32, 2>) -> Tensor<f32, 2> {
///     let left_extent = left.extent();
///     let right_extent = right.extent();
///     assert_eq!(left_extent[0], right_extent[1], "incompatible matrices");
///     let output = Extent::new([right_extent[0], left_extent[1]]);
///     output
///         .parallel_iter()
///         .map(|(x, y)| {
///             (0..left.extent()[0])
///                 .map(|k| left[(k, y)] * right[(x, k)])
///                 .sum()
///         })
///         .collect()
/// }
/// ```
fn matmul() -> SourceFunction {
    let terms = expr(ExprKind::Paren(Box::new(expr(ExprKind::Range {
        start: Some(Box::new(digits("0"))),
        end: Some(Box::new(index(method(path("left"), "extent", vec![]), digits("0")))),
        closed: false,
    }))));
    let term = expr(ExprKind::Binary {
        op: SourceBinaryOp::Mul,
        op_span: at(0),
        left: Box::new(element("left", "k", "y")),
        right: Box::new(element("right", "x", "k")),
    });
    let sum = method(method(terms, "map", vec![closure(pat("k"), term)]), "sum", vec![]);
    let body = expr(ExprKind::Block(SourceBlock {
        span: at(0),
        statements: vec![SourceStatement::Expr { expression: sum, semicolon: false }],
    }));
    let point = pattern(PatternKind::Tuple(vec![pat("x"), pat("y")]));
    let points = method(path("output"), "parallel_iter", vec![]);
    let map = method(points, "map", vec![closure(point, body)]);
    SourceFunction {
        ident: ident("matmul"),
        constness: None,
        asyncness: None,
        signature_span: at(0),
        inputs: vec![parameter("left"), parameter("right")],
        output: SourceOutput::Type(matrix()),
        output_span: at(0),
        block: SourceBlock {
            span: at(0),
            statements: vec![
                local(1, "left_extent", method(path("left"), "extent", vec![])),
                local(2, "right_extent", method(path("right"), "extent", vec![])),
                SourceStatement::Macro(at(3)),
                local(4, "output", expr(ExprKind::Other)),
                SourceStatement::Expr {
                    expression: method(map, "collect", vec![]),
                    semicolon: false,
                },
            ],
        },
    }
}

#[test]
fn compiles_matrix_multiplication() {
    let function = matmul();
    let expansion = parallel(&function).unwrap();
    assert_eq!(
        expansion.source,
        "#include <metal_stdlib>

using namespace metal;

kernel void __pm_kernel_matmul(
    device float* __pm_out [[buffer(0)]],
    const device float* __pm_cap0 [[buffer(1)]],
    const device float* __pm_cap1 [[buffer(2)]],
    constant uint* __pm_cap0_extent [[buffer(3)]],
    constant uint* __pm_cap1_extent [[buffer(4)]],
    constant uint& __pm_count [[buffer(5)]],
    constant uint* __pm_extent [[buffer(6)]],
    uint __pm_linear [[thread_position_in_grid]])
{
    if (__pm_linear < __pm_count) {
        uint __pm_remaining = __pm_linear;
        uint __pm_point0 = __pm_remaining % __pm_extent[0];
        __pm_remaining /= __pm_extent[0];
        uint __pm_point1 = __pm_remaining % __pm_extent[1];
        float __pm_sum = 0;
        for (uint __pm_loop_k = 0; __pm_loop_k < __pm_cap0_extent[0]; ++__pm_loop_k) {
            __pm_sum += (__pm_cap0[(__pm_loop_k + __pm_cap0_extent[0] * __pm_point1)] * __pm_cap1[(__pm_point0 + __pm_cap1_extent[0] * __pm_loop_k)]);
        }
        __pm_out[__pm_linear] = __pm_sum;
    }
}
"
    );
    assert_eq!(
        expansion.host,
        (1..=4)
            .map(|span| HostStatement { span: at(span), semicolon: false })
            .collect::<Vec<_>>()
    );
    let domain = expansion.domain.extent.unwrap();
    assert_eq!(domain.ident.name, "output");
    assert_eq!(domain.rank.text, "2");
    let captures = expansion.captures.iter().map(|capture| capture.ident.name.as_str());
    assert_eq!(captures.collect::<Vec<_>>(), vec!["left", "right"]);
    assert!(expansion.domain.inputs.is_empty());
    assert!(expansion.scalars.is_empty());
}

/// What a thread at a point reads of the matrices.
struct Thread<'a> {
    point: Point<2>,
    tensors: [&'a Tensor<f32, 2>; 2],
    variables: HashMap<String, f32>,
}

impl Thread<'_> {
    fn value(&self, expression: &Expr) -> f32 {
        match expression {
            Expr::PointAxis(axis) => self.point[*axis] as f32,
            Expr::Local(name) => self.variables[name],
            Expr::Captured { capture, coordinates } => {
                let tensor = self.tensors[capture.tensor];
                let extent = tensor.extent();
                let mut position = 0;
                for axis in (0..coordinates.len()).rev() {
                    position = self.value(&coordinates[axis]) as usize + extent[axis] * position;
                }
                tensor.as_slice()[position]
            }
            Expr::Binary { op: BinaryOp::Mul, left, right } => {
                self.value(left) * self.value(right)
            }
            other => panic!("not in this kernel: {other:?}"),
        }
    }

    fn bound(&self, bound: Bound) -> usize {
        match bound {
            Bound::Literal(value) => value as usize,
            Bound::ExtentAxis(_) => panic!("not in this kernel"),
            Bound::CapturedAxis { capture, axis } => self.tensors[capture.tensor].extent()[axis],
        }
    }

    fn run(&mut self, statement: &Statement) {
        match statement {
            Statement::Sum { name, variable, start, end, inclusive: false, term, .. } => {
                let mut total = 0.0;
                for counter in self.bound(*start)..self.bound(*end) {
                    self.variables.insert(variable.clone(), counter as f32);
                    total += self.value(term);
                }
                self.variables.insert(name.clone(), total);
            }
            other => panic!("not in this kernel: {other:?}"),
        }
    }
}

#[test]
fn gpu_matrix_multiplication_matches_cpu() {
    let rows = 7;
    let inner = 11;
    let columns = 5;
    let left = Tensor::from_fn(Extent::new([inner, rows]), |point: Point<2>| {
        point[0] as f32 * 0.25 + point[1] as f32
    })
    .unwrap();
    let right = Tensor::from_fn(Extent::new([columns, inner]), |point: Point<2>| {
        point[0] as f32 - point[1] as f32 * 0.125
    })
    .unwrap();

    let function = matmul();
    let expansion = parallel(&function).unwrap();
    let body = &expansion.kernel.body;
    let domain = Extent::new([columns, rows]);
    let plan = plan_elementwise::<f32, 2>(
        domain,
        &[BufferBinding::capture(&left), BufferBinding::capture(&right)],
        &[],
    )
    .unwrap();
    assert_eq!(plan.count, 35);
    assert_eq!(plan.input_extents, vec![vec![11, 7], vec![5, 11]]);
    assert_eq!(
        plan.bindings,
        vec![
            Resource::Output,
            Resource::Input(0),
            Resource::Input(1),
            Resource::InputExtent(0),
            Resource::InputExtent(1),
            Resource::Count,
            Resource::Axes,
        ]
    );

    let output = Tensor::from_fn(domain, |point: Point<2>| {
        let mut thread = Thread { point, tensors: [&left, &right], variables: HashMap::new() };
        for statement in &body.statements {
            thread.run(statement);
        }
        thread.value(&body.result)
    })
    .unwrap();
    assert_eq!(output.extent(), Extent::new([columns, rows]));
    for y in 0..rows {
        for x in 0..columns {
            let expected = (0..inner)
                .map(|k| left.as_slice()[k + inner * y] * right.as_slice()[x + columns * k])
                .sum::<f32>();
            let actual = output.as_slice()[x + columns * y];
            assert!((actual - expected).abs() < 1e-5);
        }
    }
}
