use std::collections::HashMap;

use parallel_metal::expand::{parallel, Expansion};
use parallel_metal::runtime::{plan_elementwise, BufferBinding, Plan, ScalarBinding};
use parallel_metal::source::{
    ExprKind, Ident, Literal, LiteralKind, PatternKind, RankExpr, SourceArgument, SourceBinaryOp,
    SourceBlock, SourceClosure, SourceExpr, SourceFunction, SourceInitializer, SourceLocal,
    SourceOutput, SourcePath, SourcePattern, SourceStatement, SourceType, SourceUnaryOp, Span,
    TypeArgument, TypeArguments, TypeKind, TypeSegment,
};
use parallel_metal::{
    AssignOp, BinaryOp, Bound, DeviceBlock, Expr, Extent, Point, ScalarType, Statement, Tensor,
};

fn at() -> Span {
    Span { index: 0 }
}

fn ident(name: &str) -> Ident {
    Ident { name: name.into(), span: at() }
}

fn expr(kind: ExprKind) -> SourceExpr {
    SourceExpr { span: at(), kind }
}

fn path(name: &str) -> SourceExpr {
    expr(ExprKind::Path(SourcePath { qualified: false, segments: vec![ident(name)] }))
}

fn literal(kind: LiteralKind) -> SourceExpr {
    expr(ExprKind::Lit(Literal { span: at(), kind }))
}

fn digits(text: &str) -> SourceExpr {
    literal(LiteralKind::Int(text.into()))
}

fn method(receiver: SourceExpr, name: &str, arguments: Vec<SourceExpr>) -> SourceExpr {
    expr(ExprKind::MethodCall {
        receiver: Box::new(receiver),
        method: name.into(),
        arguments,
        arguments_span: at(),
    })
}

fn call(function: &str, argument: SourceExpr) -> SourceExpr {
    expr(ExprKind::Call { function: Box::new(path(function)), arguments: vec![argument] })
}

fn binary(op: SourceBinaryOp, left: SourceExpr, right: SourceExpr) -> SourceExpr {
    expr(ExprKind::Binary { op, op_span: at(), left: Box::new(left), right: Box::new(right) })
}

fn add(left: SourceExpr, right: SourceExpr) -> SourceExpr {
    binary(SourceBinaryOp::Add, left, right)
}

fn scaled(left: SourceExpr, right: SourceExpr) -> SourceExpr {
    binary(SourceBinaryOp::Mul, left, right)
}

fn deref(name: &str) -> SourceExpr {
    expr(ExprKind::Unary { op: SourceUnaryOp::Deref, operand: Box::new(path(name)) })
}

fn coordinate(axis: &str, ty_name: &str) -> SourceExpr {
    let point = expr(ExprKind::Index {
        base: Box::new(path("point")),
        index: Box::new(digits(axis)),
    });
    cast(point, ty_name)
}

fn cast(operand: SourceExpr, ty_name: &str) -> SourceExpr {
    expr(ExprKind::Cast { operand: Box::new(operand), ty: ty(ty_name) })
}

fn pattern(kind: PatternKind) -> SourcePattern {
    SourcePattern { span: at(), kind }
}

fn pat(name: &str, mutable: bool) -> SourcePattern {
    pattern(PatternKind::Ident { ident: ident(name), mutable, subpattern: None })
}

fn local(name: &str, mutable: bool, value: SourceExpr) -> SourceStatement {
    SourceStatement::Local(SourceLocal {
        span: at(),
        pattern: pattern(PatternKind::Typed {
            pattern: Box::new(pat(name, mutable)),
            ty: ty("f32"),
        }),
        initializer: Some(SourceInitializer { value, diverges: false }),
    })
}

fn named(name: &str, arguments: TypeArguments) -> SourceType {
    SourceType {
        span: at(),
        kind: TypeKind::Path {
            qualified: false,
            last: Some(Box::new(TypeSegment { span: at(), name: name.into(), arguments })),
        },
    }
}

fn ty(name: &str) -> SourceType {
    named(name, TypeArguments::Absent)
}

fn generic(name: &str, arguments: Vec<TypeArgument>) -> SourceType {
    named(name, TypeArguments::AngleBracketed { span: at(), arguments })
}

fn rank(text: &str) -> TypeArgument {
    TypeArgument::Const(RankExpr { expression: digits(text), text: text.into() })
}

fn tensor(element: &str, rank_text: &str) -> SourceType {
    generic("Tensor", vec![TypeArgument::Type(ty(element)), rank(rank_text)])
}

fn parameter(name: &str, ty: SourceType) -> SourceArgument {
    SourceArgument::Typed { pattern: pat(name, false), ty }
}

fn borrowed(name: &str, ty: SourceType) -> SourceArgument {
    parameter(name, SourceType { span: at(), kind: TypeKind::Reference(Box::new(ty)) })
}

fn iter(name: &str) -> SourceExpr {
    method(path(name), "parallel_iter", vec![])
}

fn function(
    name: &str,
    inputs: Vec<SourceArgument>,
    output: SourceType,
    source: SourceExpr,
    argument: SourcePattern,
    body: SourceExpr,
) -> SourceFunction {
    let closure = expr(ExprKind::Closure(SourceClosure {
        inputs: vec![argument],
        inputs_span: at(),
        body: Box::new(body),
    }));
    let chain = method(method(source, "map", vec![closure]), "collect", vec![]);
    SourceFunction {
        ident: ident(name),
        constness: None,
        asyncness: None,
        signature_span: at(),
        inputs,
        output: SourceOutput::Type(output),
        output_span: at(),
        block: SourceBlock {
            span: at(),
            statements: vec![SourceStatement::Expr { expression: chain, semicolon: false }],
        },
    }
}

/// `left.parallel_iter().zip(right.parallel_iter()).map(|(left, right)| *left ^ *right).collect()`
fn xor() -> SourceFunction {
    function(
        "xor",
        vec![borrowed("left", tensor("u64", "1")), borrowed("right", tensor("u64", "1"))],
        tensor("u64", "1"),
        method(iter("left"), "zip", vec![iter("right")]),
        pattern(PatternKind::Tuple(vec![pat("left", false), pat("right", false)])),
        binary(SourceBinaryOp::BitXor, deref("left"), deref("right")),
    )
}

/// `input.parallel_iter().map(|value| *value * scale + bias).collect()`
fn affine_4d() -> SourceFunction {
    function(
        "affine_4d",
        vec![
            borrowed("input", tensor("f32", "4")),
            parameter("scale", ty("f32")),
            parameter("bias", ty("f32")),
        ],
        tensor("f32", "4"),
        iter("input"),
        pat("value", false),
        add(scaled(deref("value"), path("scale")), path("bias")),
    )
}

/// `extent.parallel_iter().map(|point| { point[0] as u32 * 10_000 + ... }).collect()`
fn coordinates_5d() -> SourceFunction {
    let sum = add(
        add(
            add(
                add(
                    scaled(coordinate("0", "u32"), digits("10000")),
                    scaled(coordinate("1", "u32"), digits("1000")),
                ),
                scaled(coordinate("2", "u32"), digits("100")),
            ),
            scaled(coordinate("3", "u32"), digits("10")),
        ),
        coordinate("4", "u32"),
    );
    function(
        "coordinates_5d",
        vec![parameter("extent", generic("Extent", vec![rank("5")]))],
        tensor("u32", "5"),
        iter("extent"),
        pat("point", false),
        expr(ExprKind::Block(SourceBlock {
            span: at(),
            statements: vec![SourceStatement::Expr { expression: sum, semicolon: false }],
        })),
    )
}

/// ```ignore
/// extent.parallel_iter().map(|point| {
///     let mut value: f32 = 0.0;
///     for iteration in 1..=4 {
///         let divisor: f32 = iteration as f32;
///         value += sin(point[0] as f32 / divisor + time);
///     }
///     tanh(value)
/// }).collect()
/// ```
fn wave() -> SourceFunction {
    let step = binary(
        SourceBinaryOp::AddAssign,
        path("value"),
        call(
            "sin",
            add(
                binary(SourceBinaryOp::Div, coordinate("0", "f32"), path("divisor")),
                path("time"),
            ),
        ),
    );
    let body = SourceBlock {
        span: at(),
        statements: vec![
            local("divisor", false, cast(path("iteration"), "f32")),
            SourceStatement::Expr { expression: step, semicolon: true },
        ],
    };
    let looped = expr(ExprKind::ForLoop {
        pattern: pat("iteration", false),
        range: Box::new(expr(ExprKind::Range {
            start: Some(Box::new(digits("1"))),
            end: Some(Box::new(digits("4"))),
            closed: true,
        })),
        body,
    });
    function(
        "wave",
        vec![
            parameter("extent", generic("Extent", vec![rank("1")])),
            parameter("time", ty("f32")),
        ],
        tensor("f32", "1"),
        iter("extent"),
        pat("point", false),
        expr(ExprKind::Block(SourceBlock {
            span: at(),
            statements: vec![
                local("value", true, literal(LiteralKind::Float("0.0".into()))),
                SourceStatement::Expr { expression: looped, semicolon: false },
                SourceStatement::Expr {
                    expression: call("tanh", path("value")),
                    semicolon: false,
                },
            ],
        })),
    )
}

#[derive(Clone, Copy)]
enum Value {
    Int(u64),
    Float(f32),
}

impl Value {
    fn integer(self) -> u64 {
        match self {
            Value::Int(value) => value,
            Value::Float(value) => panic!("not an integer: {value}"),
        }
    }

    fn float(self) -> f32 {
        match self {
            Value::Int(value) => panic!("not a float: {value}"),
            Value::Float(value) => value,
        }
    }
}

fn combined(op: BinaryOp, left: Value, right: Value) -> Value {
    match (op, left, right) {
        (BinaryOp::Add, Value::Int(left), Value::Int(right)) => Value::Int(left + right),
        (BinaryOp::Mul, Value::Int(left), Value::Int(right)) => Value::Int(left * right),
        (BinaryOp::BitXor, Value::Int(left), Value::Int(right)) => Value::Int(left ^ right),
        (BinaryOp::Add, Value::Float(left), Value::Float(right)) => Value::Float(left + right),
        (BinaryOp::Mul, Value::Float(left), Value::Float(right)) => Value::Float(left * right),
        (BinaryOp::Div, Value::Float(left), Value::Float(right)) => Value::Float(left / right),
        _ => panic!("not in these kernels"),
    }
}

/// What one thread of a kernel reads.
struct Thread<'a> {
    inputs: &'a [Vec<Value>],
    scalars: &'a HashMap<String, Value>,
    linear: usize,
    point: Vec<u64>,
    variables: HashMap<String, Value>,
}

impl Thread<'_> {
    fn value(&self, expression: &Expr) -> Value {
        match expression {
            Expr::Input(index) => self.inputs[*index][self.linear],
            Expr::PointAxis(axis) => Value::Int(self.point[*axis]),
            Expr::Scalar(name) => self.scalars[name],
            Expr::Local(name) => self.variables[name],
            Expr::Literal(text) => match text.strip_suffix('f') {
                Some(digits) => Value::Float(digits.parse().unwrap()),
                None => Value::Int(text.parse().unwrap()),
            },
            Expr::Call { function, arguments } => {
                let argument = self.value(&arguments[0]).float();
                Value::Float(match function.as_str() {
                    "sin" => argument.sin(),
                    "tanh" => argument.tanh(),
                    other => panic!("not in these kernels: {other}"),
                })
            }
            Expr::Binary { op, left, right } => {
                combined(*op, self.value(left), self.value(right))
            }
            Expr::Cast { value, ty } => match (ty, self.value(value)) {
                (ScalarType::U32, Value::Int(value)) => Value::Int(value as u32 as u64),
                (ScalarType::F32, Value::Int(value)) => Value::Float(value as f32),
                _ => panic!("not in these kernels"),
            },
            other => panic!("not in these kernels: {other:?}"),
        }
    }

    fn run(&mut self, statement: &Statement) {
        match statement {
            Statement::Let { name, value, .. } => {
                let value = self.value(value);
                self.variables.insert(name.clone(), value);
            }
            Statement::Assign { name, op: AssignOp::Add, value } => {
                let value = combined(BinaryOp::Add, self.variables[name], self.value(value));
                self.variables.insert(name.clone(), value);
            }
            Statement::ForRange {
                variable,
                start: Bound::Literal(start),
                end: Bound::Literal(end),
                inclusive: true,
                body,
            } => {
                for counter in *start..=*end {
                    self.variables.insert(variable.clone(), Value::Int(counter as u64));
                    for statement in body {
                        self.run(statement);
                    }
                }
            }
            other => panic!("not in these kernels: {other:?}"),
        }
    }
}

/// What the threads of a planned dispatch write, one after the other.
fn dispatched(
    plan: &Plan,
    body: &DeviceBlock,
    inputs: &[Vec<Value>],
    scalars: &HashMap<String, Value>,
) -> Vec<Value> {
    (0..plan.count as usize)
        .map(|linear| {
            let mut remaining = linear as u64;
            let mut point = Vec::new();
            for &length in &plan.extent {
                point.push(remaining % length as u64);
                remaining /= length as u64;
            }
            let mut thread =
                Thread { inputs, scalars, linear, point, variables: HashMap::new() };
            for statement in &body.statements {
                thread.run(statement);
            }
            thread.value(&body.result)
        })
        .collect()
}

fn scalars_of(expansion: &Expansion<'_>, values: &[Value]) -> HashMap<String, Value> {
    let names = expansion.kernel.scalars.iter().map(|scalar| scalar.name.clone());
    names.zip(values.iter().copied()).collect()
}

#[test]
fn gpu_zip_xor_matches_cpu() {
    let extent = Extent::new([1_000_003]);
    let left = Tensor::from_fn(extent, |point: Point<1>| point[0] as u64 * 17).unwrap();
    let right = Tensor::from_fn(extent, |point: Point<1>| {
        (point[0] as u64).rotate_left(13) ^ 0xa5a5_a5a5_a5a5_a5a5
    })
    .unwrap();

    let function = xor();
    let expansion = parallel(&function).unwrap();
    let plan = plan_elementwise::<u64, 1>(
        extent,
        &[BufferBinding::source(&left), BufferBinding::source(&right)],
        &[],
    )
    .unwrap();
    let inputs = [&left, &right]
        .map(|input| input.as_slice().iter().map(|&value| Value::Int(value)).collect());
    let values = dispatched(&plan, &expansion.kernel.body, &inputs, &HashMap::new());
    let written = values.into_iter().map(Value::integer).collect::<Vec<_>>();
    let output = Tensor::from_slice(extent, &written).unwrap();

    for (index, &actual) in output.as_slice().iter().enumerate() {
        let expected =
            (index as u64 * 17) ^ ((index as u64).rotate_left(13) ^ 0xa5a5_a5a5_a5a5_a5a5);
        assert_eq!(actual, expected, "mismatch at element {index}");
    }
}

#[test]
fn cpu_write_then_gpu_map_preserves_four_dimensional_shape() {
    let extent = Extent::new([2, 3, 5, 7]);
    let mut input = Tensor::from_fn(extent, |point: Point<4>| {
        (point[0] * 1000 + point[1] * 100 + point[2] * 10 + point[3]) as f32
    })
    .unwrap();
    let address = input.as_slice().as_ptr();

    for value in input.as_mut_slice() {
        *value += 0.5;
    }

    let function = affine_4d();
    let expansion = parallel(&function).unwrap();
    let plan = plan_elementwise::<f32, 4>(
        extent,
        &[BufferBinding::source(&input)],
        &[ScalarBinding::new(&2.0f32), ScalarBinding::new(&-1.0f32)],
    )
    .unwrap();
    let scalars = scalars_of(&expansion, &[Value::Float(2.0), Value::Float(-1.0)]);
    let inputs = [input.as_slice().iter().map(|&value| Value::Float(value)).collect()];
    let values = dispatched(&plan, &expansion.kernel.body, &inputs, &scalars);
    let written = values.into_iter().map(Value::float).collect::<Vec<_>>();
    let output = Tensor::from_slice(extent, &written).unwrap();

    assert_eq!(input.as_slice().as_ptr(), address);
    assert_eq!(output.extent(), extent);
    for (input, output) in input.as_slice().iter().zip(output.as_slice()) {
        assert_eq!(*output, *input * 2.0 - 1.0);
    }
}

#[test]
fn extent_iterator_flattens_and_reconstructs_rank_five() {
    let extent = Extent::new([2, 3, 4, 5, 6]);
    let function = coordinates_5d();
    let expansion = parallel(&function).unwrap();
    let plan = plan_elementwise::<u32, 5>(extent, &[], &[]).unwrap();
    let values = dispatched(&plan, &expansion.kernel.body, &[], &HashMap::new());
    let written = values.into_iter().map(|value| value.integer() as u32).collect::<Vec<_>>();
    let output = Tensor::from_slice(extent, &written).unwrap();

    assert_eq!(output.extent(), extent);
    for (linear, &actual) in output.as_slice().iter().enumerate() {
        let point = extent.point_from_linear(linear);
        let expected = point[0] as u32 * 10_000
            + point[1] as u32 * 1_000
            + point[2] as u32 * 100
            + point[3] as u32 * 10
            + point[4] as u32;
        assert_eq!(actual, expected, "mismatch at point {point:?}");
    }
}

#[test]
fn device_locals_loop_and_math_intrinsics_match_cpu() {
    let extent = Extent::new([257]);
    let time = 0.75f32;
    let function = wave();
    let expansion = parallel(&function).unwrap();
    let plan = plan_elementwise::<f32, 1>(extent, &[], &[ScalarBinding::new(&time)]).unwrap();
    let scalars = scalars_of(&expansion, &[Value::Float(time)]);
    let values = dispatched(&plan, &expansion.kernel.body, &[], &scalars);
    let written = values.into_iter().map(Value::float).collect::<Vec<_>>();
    let output = Tensor::from_slice(extent, &written).unwrap();

    for (index, &actual) in output.as_slice().iter().enumerate() {
        let mut expected = 0.0f32;
        for iteration in 1..=4 {
            expected += (index as f32 / iteration as f32 + time).sin();
        }
        expected = expected.tanh();
        assert!(
            (actual - expected).abs() < 1e-5,
            "mismatch at {index}: GPU={actual}, CPU={expected}"
        );
    }
}
