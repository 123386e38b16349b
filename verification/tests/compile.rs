use parallel_metal::diagnostic::{ChainMethod, Diagnostic, Problem};
use parallel_metal::expand::{check_options, parallel, Expansion};
use parallel_metal::host::HostStatement;
use parallel_metal::lower::{lower_loop_closure_body, lower_unit_block, DeviceContext, LocalInfo};
use parallel_metal::names::NameMap;
use parallel_metal::source::{
    ExprKind, Ident, Literal, LiteralKind, PatternKind, RankExpr, SourceArgument, SourceBinaryOp,
    SourceBlock, SourceClosure, SourceExpr, SourceFunction, SourceInitializer, SourceLocal,
    SourceOutput, SourcePath, SourcePattern, SourceStatement, SourceType, SourceUnaryOp, Span,
    TypeArgument, TypeArguments, TypeKind, TypeSegment,
};
use parallel_metal::syntax::{closure_bindings, ClosureMode};
use parallel_metal::text::NumberError;
use parallel_metal::ScalarType;

fn at(index: usize) -> Span {
    Span { index }
}

fn ident(name: &str) -> Ident {
    Ident { name: name.into(), span: at(0) }
}

fn expr(kind: ExprKind) -> SourceExpr {
    SourceExpr { span: at(0), kind }
}

fn marked(mut expression: SourceExpr, index: usize) -> SourceExpr {
    expression.span = at(index);
    expression
}

fn segments(names: &[&str]) -> SourceExpr {
    expr(ExprKind::Path(SourcePath {
        qualified: false,
        segments: names.iter().map(|name| ident(name)).collect(),
    }))
}

fn path(name: &str) -> SourceExpr {
    segments(&[name])
}

fn literal(kind: LiteralKind) -> SourceExpr {
    expr(ExprKind::Lit(Literal { span: at(77), kind }))
}

fn digits(text: &str) -> SourceExpr {
    literal(LiteralKind::Int(text.into()))
}

fn float(digits: &str) -> SourceExpr {
    literal(LiteralKind::Float(digits.into()))
}

fn method(receiver: SourceExpr, name: &str, arguments: Vec<SourceExpr>) -> SourceExpr {
    expr(ExprKind::MethodCall {
        receiver: Box::new(receiver),
        method: name.into(),
        arguments,
        arguments_span: at(66),
    })
}

fn call(function: &str, arguments: Vec<SourceExpr>) -> SourceExpr {
    expr(ExprKind::Call { function: Box::new(path(function)), arguments })
}

fn binary(op: SourceBinaryOp, left: SourceExpr, right: SourceExpr) -> SourceExpr {
    expr(ExprKind::Binary { op, op_span: at(55), left: Box::new(left), right: Box::new(right) })
}

fn deref(operand: SourceExpr) -> SourceExpr {
    expr(ExprKind::Unary { op: SourceUnaryOp::Deref, operand: Box::new(operand) })
}

fn index(base: SourceExpr, axis: SourceExpr) -> SourceExpr {
    expr(ExprKind::Index { base: Box::new(base), index: Box::new(axis) })
}

fn axis(base: &str, number: &str) -> SourceExpr {
    index(path(base), digits(number))
}

fn cast(operand: SourceExpr, name: &str) -> SourceExpr {
    expr(ExprKind::Cast { operand: Box::new(operand), ty: ty(name) })
}

fn range(start: &str, end: &str, closed: bool) -> SourceExpr {
    expr(ExprKind::Range {
        start: Some(Box::new(digits(start))),
        end: Some(Box::new(digits(end))),
        closed,
    })
}

fn for_loop(variable: &str, range: SourceExpr, statements: Vec<SourceStatement>) -> SourceExpr {
    expr(ExprKind::ForLoop {
        pattern: pat(variable),
        range: Box::new(range),
        body: SourceBlock { span: at(0), statements },
    })
}

fn assign(left: SourceExpr, right: SourceExpr) -> SourceExpr {
    expr(ExprKind::Assign { left: Box::new(left), right: Box::new(right) })
}

fn if_else(condition: SourceExpr, yes: SourceExpr, no: Option<SourceExpr>) -> SourceExpr {
    expr(ExprKind::If {
        condition: Box::new(condition),
        then_branch: SourceBlock { span: at(0), statements: vec![tail(yes)] },
        else_branch: no.map(Box::new),
    })
}

fn block(statements: Vec<SourceStatement>) -> SourceExpr {
    expr(ExprKind::Block(SourceBlock { span: at(44), statements }))
}

fn tail(expression: SourceExpr) -> SourceStatement {
    SourceStatement::Expr { expression, semicolon: false }
}

fn statement(expression: SourceExpr) -> SourceStatement {
    SourceStatement::Expr { expression, semicolon: true }
}

fn pattern(kind: PatternKind) -> SourcePattern {
    SourcePattern { span: at(0), kind }
}

fn pat(name: &str) -> SourcePattern {
    pattern(PatternKind::Ident { ident: ident(name), mutable: false, subpattern: None })
}

fn tuple(patterns: Vec<SourcePattern>) -> SourcePattern {
    pattern(PatternKind::Tuple(patterns))
}

fn local(name: &str, mutable: bool, ty_name: &str, value: SourceExpr) -> SourceStatement {
    SourceStatement::Local(SourceLocal {
        span: at(33),
        pattern: pattern(PatternKind::Typed {
            pattern: Box::new(pattern(PatternKind::Ident {
                ident: Ident { name: name.into(), span: at(34) },
                mutable,
                subpattern: None,
            })),
            ty: ty(ty_name),
        }),
        initializer: Some(SourceInitializer { value, diverges: false }),
    })
}

fn named(name: &str, arguments: TypeArguments) -> SourceType {
    SourceType {
        span: at(22),
        kind: TypeKind::Path {
            qualified: false,
            last: Some(Box::new(TypeSegment { span: at(23), name: name.into(), arguments })),
        },
    }
}

fn ty(name: &str) -> SourceType {
    named(name, TypeArguments::Absent)
}

fn generic(name: &str, arguments: Vec<TypeArgument>) -> SourceType {
    named(name, TypeArguments::AngleBracketed { span: at(24), arguments })
}

fn rank(text: &str) -> TypeArgument {
    TypeArgument::Const(RankExpr { expression: digits(text), text: text.into() })
}

fn tensor(element: &str, rank_text: &str) -> SourceType {
    generic("Tensor", vec![TypeArgument::Type(ty(element)), rank(rank_text)])
}

fn extent(rank_text: &str) -> SourceType {
    generic("Extent", vec![rank(rank_text)])
}

fn reference(inner: SourceType) -> SourceType {
    SourceType { span: at(0), kind: TypeKind::Reference(Box::new(inner)) }
}

fn parameter(name: &str, ty: SourceType) -> SourceArgument {
    SourceArgument::Typed { pattern: pat(name), ty }
}

fn closure(inputs: Vec<SourcePattern>, body: SourceExpr) -> SourceExpr {
    expr(ExprKind::Closure(SourceClosure { inputs, inputs_span: at(88), body: Box::new(body) }))
}

fn iter(name: &str) -> SourceExpr {
    method(path(name), "parallel_iter", vec![])
}

fn collect(source: SourceExpr, argument: SourcePattern, body: SourceExpr) -> SourceExpr {
    method(method(marked(source, 99), "map", vec![closure(vec![argument], body)]), "collect", vec![])
}

fn function(
    name: &str,
    inputs: Vec<SourceArgument>,
    output: SourceType,
    chain: SourceExpr,
) -> SourceFunction {
    SourceFunction {
        ident: ident(name),
        constness: None,
        asyncness: None,
        signature_span: at(11),
        inputs,
        output: SourceOutput::Type(output),
        output_span: at(12),
        block: SourceBlock { span: at(13), statements: vec![tail(chain)] },
    }
}

fn xor() -> SourceFunction {
    function(
        "xor",
        vec![
            parameter("left", reference(tensor("u64", "1"))),
            parameter("right", reference(tensor("u64", "1"))),
        ],
        tensor("u64", "1"),
        collect(
            method(iter("left"), "zip", vec![iter("right")]),
            tuple(vec![pat("left"), pat("right")]),
            binary(SourceBinaryOp::BitXor, deref(path("left")), deref(path("right"))),
        ),
    )
}

/// A function over the points of a rank-two extent with a scalar, whose closure has that body.
fn shaded(argument: SourcePattern, body: SourceExpr) -> SourceFunction {
    function(
        "shade",
        vec![parameter("extent", extent("2")), parameter("time", ty("f32"))],
        tensor("u32", "2"),
        collect(iter("extent"), argument, body),
    )
}

/// A function over the elements of one tensor with a scalar, whose closure has that body.
fn mapped(body: SourceExpr) -> SourceFunction {
    function(
        "mapped",
        vec![parameter("input", reference(tensor("u32", "3"))), parameter("scale", ty("u32"))],
        tensor("u32", "3"),
        collect(iter("input"), pat("value"), body),
    )
}

fn compiled(function: &SourceFunction) -> Expansion<'_> {
    match parallel(function) {
        Ok(expansion) => expansion,
        Err(diagnostic) => panic!("{:?}: {}", diagnostic, diagnostic.problem.message()),
    }
}

/// The lines between the guard of the kernel and its end.
fn body_of(function: &SourceFunction) -> String {
    let source = compiled(function).source;
    let start = source.find("__pm_count) {\n").unwrap() + "__pm_count) {\n".len();
    let end = source.rfind("    }\n}\n").unwrap();
    source[start..end].to_owned()
}

fn refused(function: &SourceFunction, index: usize, problem: Problem) {
    assert_eq!(
        parallel(function).err(),
        Some(Diagnostic { span: at(index), problem }),
    );
}

#[test]
fn compiles_a_zip_of_two_tensors() {
    let function = xor();
    let expansion = compiled(&function);
    assert_eq!(
        expansion.source,
        "#include <metal_stdlib>

using namespace metal;

kernel void __pm_kernel_xor(
    device ulong* __pm_out [[buffer(0)]],
    const device ulong* __pm_in0 [[buffer(1)]],
    const device ulong* __pm_in1 [[buffer(2)]],
    constant uint& __pm_count [[buffer(3)]],
    constant uint* __pm_extent [[buffer(4)]],
    uint __pm_linear [[thread_position_in_grid]])
{
    if (__pm_linear < __pm_count) {
        __pm_out[__pm_linear] = (__pm_in0[__pm_linear] ^ __pm_in1[__pm_linear]);
    }
}
"
    );
    assert_eq!(expansion.kernel.name, "__pm_kernel_xor");
    assert_eq!(expansion.kernel.logical_rank, None);
    assert_eq!(expansion.domain.inputs.len(), 2);
    assert_eq!(expansion.domain.inputs[0].ident.name, "left");
    assert_eq!(expansion.domain.inputs[1].ident.name, "right");
    assert!(expansion.domain.extent.is_none());
    assert_eq!(expansion.output.element, ScalarType::U64);
    assert_eq!(expansion.output.rank.text, "1");
}

#[test]
fn compiles_scalars_in_the_order_of_the_signature() {
    let function = function(
        "affine_4d",
        vec![
            parameter("scale", ty("f32")),
            parameter("input", reference(tensor("f32", "4"))),
            parameter("bias", ty("f32")),
        ],
        tensor("f32", "4"),
        collect(
            method(iter("input"), "copied", vec![]),
            pat("value"),
            binary(
                SourceBinaryOp::Add,
                binary(SourceBinaryOp::Mul, path("value"), path("scale")),
                path("bias"),
            ),
        ),
    );
    let source = compiled(&function).source;
    assert!(source.contains("constant float& __pm_scalar_scale [[buffer(2)]]"));
    assert!(source.contains("constant float& __pm_scalar_bias [[buffer(3)]]"));
    assert!(source.contains("constant uint& __pm_count [[buffer(4)]]"));
    assert_eq!(
        body_of(&function),
        "        __pm_out[__pm_linear] = ((__pm_in0[__pm_linear] * __pm_scalar_scale) + __pm_scalar_bias);\n"
    );
    assert_eq!(compiled(&function).scalars[1].ident.name, "bias");
}

#[test]
fn compiles_points_of_an_extent() {
    let whole = shaded(
        pat("point"),
        binary(
            SourceBinaryOp::Add,
            binary(SourceBinaryOp::Mul, cast(axis("point", "0"), "u32"), digits("10000")),
            cast(axis("point", "1"), "u32"),
        ),
    );
    let expected = "        uint __pm_remaining = __pm_linear;
        uint __pm_point0 = __pm_remaining % __pm_extent[0];
        __pm_remaining /= __pm_extent[0];
        uint __pm_point1 = __pm_remaining % __pm_extent[1];
        __pm_out[__pm_linear] = ((uint(__pm_point0) * 10000) + uint(__pm_point1));
";
    assert_eq!(body_of(&whole), expected);
    assert_eq!(compiled(&whole).kernel.logical_rank, Some(2));
    assert_eq!(compiled(&whole).domain.extent.unwrap().ident.name, "extent");
    assert_eq!(compiled(&whole).domain.inputs.len(), 0);

    let destructured = shaded(
        tuple(vec![pat("x"), pat("y")]),
        binary(
            SourceBinaryOp::Add,
            binary(SourceBinaryOp::Mul, cast(path("x"), "u32"), digits("10000")),
            cast(path("y"), "u32"),
        ),
    );
    assert_eq!(body_of(&destructured), expected);
}

#[test]
fn compiles_points_of_any_rank() {
    let function = function(
        "deep",
        vec![parameter("extent", extent("5"))],
        tensor("u32", "5"),
        collect(iter("extent"), pat("point"), axis("point", "4")),
    );
    let body = body_of(&function);
    assert!(body.contains("__pm_remaining /= __pm_extent[3];\n        uint __pm_point4"));
    assert!(!body.contains("__pm_remaining /= __pm_extent[4]"));
    assert!(body.ends_with("__pm_out[__pm_linear] = __pm_point4;\n"));
}

#[test]
fn compiles_elements_with_their_points() {
    let indexed = |point: SourcePattern, body: SourceExpr| {
        function(
            "indexed_3d",
            vec![parameter("input", reference(tensor("u32", "3"))), parameter("scale", ty("u32"))],
            tensor("u32", "3"),
            collect(
                method(path("input"), "indexed_parallel_iter", vec![]),
                tuple(vec![point, pat("value")]),
                body,
            ),
        )
    };
    let whole = indexed(
        pat("point"),
        binary(
            SourceBinaryOp::Add,
            deref(path("value")),
            binary(SourceBinaryOp::Mul, cast(axis("point", "2"), "u32"), path("scale")),
        ),
    );
    assert!(body_of(&whole).ends_with(
        "__pm_out[__pm_linear] = (__pm_in0[__pm_linear] + (uint(__pm_point2) * __pm_scalar_scale));\n"
    ));
    let destructured = indexed(
        tuple(vec![pattern(PatternKind::Wild), pat("y"), pat("z")]),
        binary(SourceBinaryOp::Sub, path("z"), path("y")),
    );
    assert!(body_of(&destructured).ends_with("__pm_out[__pm_linear] = (__pm_point2 - __pm_point1);\n"));
}

#[test]
fn copied_changes_nothing() {
    let mapped_over = |source: SourceExpr| {
        let mut function = mapped(digits("1"));
        function.block.statements = vec![tail(collect(source, pat("v"), path("v")))];
        compiled(&function).source
    };
    assert_eq!(
        mapped_over(iter("input")),
        mapped_over(method(iter("input"), "copied", vec![])),
    );
}

#[test]
fn a_counter_gives_its_name_back() {
    let function = shaded(
        pat("point"),
        block(vec![
            local("k", true, "u32", digits("5")),
            local("sum", true, "u32", digits("0")),
            statement(for_loop(
                "k",
                range("0", "3", false),
                vec![statement(binary(SourceBinaryOp::AddAssign, path("sum"), path("k")))],
            )),
            statement(binary(SourceBinaryOp::AddAssign, path("k"), path("sum"))),
            tail(path("k")),
        ]),
    );
    assert!(body_of(&function).ends_with(
        "        for (uint __pm_loop_k = 0; __pm_loop_k < 3; ++__pm_loop_k) {
            __pm_local_sum += __pm_loop_k;
        }
        __pm_local_k += __pm_local_sum;
        __pm_out[__pm_linear] = __pm_local_k;
"
    ));
}

#[test]
fn each_loop_declares_its_own_variables() {
    let inner = || vec![local("t", false, "u32", path("i"))];
    let function = shaded(
        pat("point"),
        block(vec![
            statement(for_loop("i", range("0", "2", false), inner())),
            statement(for_loop("i", range("0", "2", false), inner())),
            tail(digits("1")),
        ]),
    );
    assert_eq!(body_of(&function).matches("uint __pm_local_t = __pm_loop_i;").count(), 2);
}

fn summed(looped: SourceStatement) -> SourceFunction {
    shaded(
        pat("point"),
        block(vec![
            local("value", true, "f32", float("0.0")),
            looped,
            tail(call("tanh", vec![path("value")])),
        ]),
    )
}

fn loop_body() -> Vec<SourceStatement> {
    vec![
        local("divisor", false, "f32", cast(path("iteration"), "f32")),
        statement(binary(
            SourceBinaryOp::AddAssign,
            path("value"),
            call(
                "sin",
                vec![binary(
                    SourceBinaryOp::Add,
                    binary(SourceBinaryOp::Div, cast(axis("point", "0"), "f32"), path("divisor")),
                    path("time"),
                )],
            ),
        )),
    ]
}

#[test]
fn compiles_locals_loops_and_intrinsics() {
    let looped = summed(statement(for_loop("iteration", range("1", "4", true), loop_body())));
    let expected = "        float __pm_local_value = 0.0f;
        for (uint __pm_loop_iteration = 1; __pm_loop_iteration <= 4; ++__pm_loop_iteration) {
            float __pm_local_divisor = float(__pm_loop_iteration);
            __pm_local_value += sin(((float(__pm_point0) / __pm_local_divisor) + __pm_scalar_time));
        }
        __pm_out[__pm_linear] = tanh(__pm_local_value);
";
    assert!(body_of(&looped).ends_with(expected));
}

#[test]
fn for_each_is_the_same_loop_as_for() {
    let with_for = summed(statement(for_loop("iteration", range("0", "8", false), loop_body())));
    let with_for_each = summed(statement(method(
        expr(ExprKind::Paren(Box::new(range("0", "8", false)))),
        "for_each",
        vec![closure(vec![pat("iteration")], block(loop_body()))],
    )));
    assert_eq!(body_of(&with_for), body_of(&with_for_each));

    let single = summed(statement(method(
        range("0", "8", false),
        "for_each",
        vec![closure(
            vec![pat("_k")],
            binary(SourceBinaryOp::MulAssign, path("value"), float("2.0")),
        )],
    )));
    assert!(body_of(&single).contains("            __pm_local_value *= 2.0f;\n"));
}

#[test]
fn a_trailing_for_loop_is_a_statement() {
    let function = shaded(
        pat("point"),
        block(vec![
            local("value", true, "f32", float("0.0")),
            tail(for_loop("i", range("0", "2", false), vec![])),
        ]),
    );
    refused(&function, 44, Problem::MapBlockWithoutResult);
}

#[test]
fn compiles_every_assignment() {
    let assigned = |expression: SourceExpr| {
        shaded(
            pat("point"),
            block(vec![
                local("v", true, "u32", digits("7")),
                statement(expression),
                tail(path("v")),
            ]),
        )
    };
    let texts = [
        (assign(path("v"), digits("1")), "__pm_local_v = 1;"),
        (binary(SourceBinaryOp::SubAssign, path("v"), digits("1")), "__pm_local_v -= 1;"),
        (binary(SourceBinaryOp::DivAssign, path("v"), digits("1")), "__pm_local_v /= 1;"),
    ];
    for (expression, text) in texts {
        assert!(body_of(&assigned(expression)).contains(text));
    }
}

#[test]
fn compiles_conditions_literals_and_groups() {
    let function = mapped(if_else(
        binary(
            SourceBinaryOp::And,
            binary(SourceBinaryOp::Ge, path("value"), path("scale")),
            literal(LiteralKind::Bool(true)),
        ),
        expr(ExprKind::Unary {
            op: SourceUnaryOp::Neg,
            operand: Box::new(expr(ExprKind::Group(Box::new(path("value"))))),
        }),
        Some(block(vec![tail(expr(ExprKind::Paren(Box::new(literal(LiteralKind::Bool(false))))))])),
    ));
    assert_eq!(
        body_of(&function),
        "        __pm_out[__pm_linear] = (((__pm_in0[__pm_linear] >= __pm_scalar_scale) && true) ? (-__pm_in0[__pm_linear]) : false);\n"
    );
}

#[test]
fn compiles_the_extent_that_is_iterated() {
    let function = shaded(pat("point"), binary(SourceBinaryOp::Sub, axis("extent", "1"), digits("1")));
    assert!(body_of(&function).ends_with("__pm_out[__pm_linear] = (__pm_extent[1] - 1);\n"));
}

#[test]
fn inputs_come_before_variables_of_the_same_name() {
    let function = mapped(block(vec![
        local("value", false, "u32", digits("1")),
        local("scale", false, "u32", digits("2")),
        tail(binary(SourceBinaryOp::Add, path("value"), path("scale"))),
    ]));
    assert!(body_of(&function)
        .ends_with("__pm_out[__pm_linear] = (__pm_in0[__pm_linear] + __pm_scalar_scale);\n"));
}

#[test]
fn raw_and_foreign_names_become_identifiers() {
    let function = function(
        "r#move",
        vec![parameter("r#in", reference(tensor("u8", "1"))), parameter("größe", ty("u8"))],
        tensor("u8", "1"),
        collect(
            iter("r#in"),
            pat("x"),
            block(vec![
                local("é", false, "u8", path("größe")),
                tail(binary(SourceBinaryOp::BitAnd, path("x"), path("é"))),
            ]),
        ),
    );
    assert_eq!(compiled(&function).kernel.name, "__pm_kernel_move");
    assert_eq!(
        body_of(&function),
        "        uchar __pm_local__ = __pm_scalar_gr__e;
        __pm_out[__pm_linear] = (__pm_in0[__pm_linear] & __pm_local__);
"
    );
}

#[test]
fn the_deprecated_container_name_is_a_tensor() {
    let unified = |element: &str| {
        generic("UnifiedTensor", vec![TypeArgument::Type(ty(element)), rank("1")])
    };
    let function = function(
        "old",
        vec![parameter("input", unified("i8"))],
        unified("i64"),
        collect(iter("input"), pat("x"), path("x")),
    );
    let expansion = compiled(&function);
    assert_eq!(expansion.kernel.inputs, vec![ScalarType::I8]);
    assert_eq!(expansion.kernel.output, ScalarType::I64);
}

#[test]
fn the_last_of_two_parameters_of_one_name_counts() {
    let function = function(
        "twice",
        vec![parameter("x", tensor("u8", "1")), parameter("x", tensor("u16", "1"))],
        tensor("u8", "1"),
        collect(iter("x"), pat("v"), path("v")),
    );
    assert_eq!(compiled(&function).kernel.inputs, vec![ScalarType::U16]);
}

#[test]
fn refuses_options() {
    assert_eq!(check_options(true, at(3)), Ok(()));
    assert_eq!(
        check_options(false, at(3)),
        Err(Diagnostic { span: at(3), problem: Problem::Options })
    );
}

#[test]
fn refuses_signatures() {
    let mut function = xor();
    function.constness = Some(at(1));
    function.asyncness = Some(at(2));
    refused(&function, 1, Problem::ConstFunction);
    function.constness = None;
    refused(&function, 2, Problem::AsyncFunction);

    let mut function = xor();
    function.inputs[1] = SourceArgument::Receiver(at(4));
    refused(&function, 4, Problem::NotFreeFunction);

    let mut function = xor();
    function.inputs[0] = SourceArgument::Typed {
        pattern: SourcePattern { span: at(5), kind: PatternKind::Other(vec![]) },
        ty: tensor("u64", "1"),
    };
    refused(&function, 5, Problem::NotSimplePattern);

    let mut function = xor();
    function.inputs.push(parameter("flag", ty("bool")));
    refused(&function, 22, Problem::UnsupportedParameter);

    let mut function = xor();
    function.output = SourceOutput::Type(ty("u64"));
    refused(&function, 22, Problem::OutputNotTensor);
    function.output = SourceOutput::Unit;
    refused(&function, 11, Problem::OutputNotTensor);
}

#[test]
fn refuses_tensor_and_extent_types() {
    let with = |ty: SourceType| {
        let mut function = xor();
        function.inputs[0] = parameter("left", ty);
        function
    };
    let element = |name: &str| TypeArgument::Type(ty(name));
    refused(&with(ty("Tensor")), 23, Problem::TensorWithoutArguments);
    refused(&with(generic("Tensor", vec![])), 24, Problem::TensorWithoutElement);
    refused(&with(generic("Tensor", vec![rank("1")])), 24, Problem::TensorWithoutElement);
    refused(
        &with(generic("Tensor", vec![element("usize"), rank("1")])),
        22,
        Problem::TensorElementNotScalar,
    );
    refused(&with(generic("Tensor", vec![element("u8")])), 24, Problem::TensorWithoutRank);
    refused(
        &with(generic("Tensor", vec![element("u8"), element("u8")])),
        24,
        Problem::TensorWithoutRank,
    );
    refused(
        &with(generic("Tensor", vec![element("u8"), rank("1"), TypeArgument::Other])),
        24,
        Problem::TensorArguments,
    );
    refused(&with(ty("Extent")), 23, Problem::ExtentWithoutRank);
    refused(&with(generic("Extent", vec![element("u8")])), 24, Problem::ExtentWithoutRank);
    refused(&with(generic("Extent", vec![rank("1"), rank("1")])), 24, Problem::ExtentArguments);
    refused(&with(reference(extent("1"))), 0, Problem::UnsupportedParameter);
}

fn chained(chain: SourceExpr) -> SourceFunction {
    let mut function = xor();
    function.block.statements = vec![tail(chain)];
    function
}

#[test]
fn refuses_chains() {
    let mut function = xor();
    function.block.statements.push(statement(digits("1")));
    refused(&function, 13, Problem::NotOneChain);
    function.block.statements.push(SourceStatement::Macro(at(1)));
    refused(&function, 13, Problem::NotOneChain);
    function.block.statements.clear();
    refused(&function, 13, Problem::NotOneChain);

    refused(&chained(marked(digits("1"), 7)), 7, Problem::ExpectedMethod(ChainMethod::Collecting));
    refused(
        &chained(marked(method(iter("left"), "sum", vec![]), 7)),
        7,
        Problem::ExpectedArguments(ChainMethod::Collecting),
    );
    refused(
        &chained(method(marked(path("left"), 8), "collect", vec![])),
        8,
        Problem::ExpectedMethod(ChainMethod::Mapping),
    );
    refused(
        &chained(method(marked(method(iter("left"), "map", vec![]), 8), "collect", vec![])),
        8,
        Problem::ExpectedArguments(ChainMethod::Mapping),
    );
    refused(
        &chained(method(
            method(iter("left"), "map", vec![marked(path("f"), 9)]),
            "collect",
            vec![],
        )),
        9,
        Problem::MapNotClosure,
    );
}

#[test]
fn refuses_sources() {
    let sourced = |source: SourceExpr| chained(collect(source, pat("x"), path("x")));
    refused(&sourced(path("left")), 99, Problem::SourceNotCall);
    refused(
        &sourced(method(iter("left"), "enumerate", vec![])),
        99,
        Problem::UnsupportedAdapter,
    );
    refused(
        &sourced(method(path("left"), "parallel_iter", vec![digits("1")])),
        99,
        Problem::UnsupportedAdapter,
    );
    refused(
        &sourced(method(marked(digits("1"), 6), "parallel_iter", vec![])),
        6,
        Problem::ReceiverNotParameter,
    );
    refused(
        &sourced(method(marked(segments(&["a", "b"]), 6), "parallel_iter", vec![])),
        6,
        Problem::ReceiverNotSimple,
    );
    refused(&sourced(iter("middle")), 0, Problem::UnknownSource);
    let three = method(method(iter("left"), "zip", vec![iter("right")]), "zip", vec![iter("left")]);
    refused(&sourced(three), 99, Problem::SourceCount);
    let indexed = method(path("right"), "indexed_parallel_iter", vec![]);
    refused(
        &sourced(method(iter("left"), "zip", vec![indexed])),
        99,
        Problem::IndexedZip,
    );

    let mut function = shaded(pat("point"), axis("point", "0"));
    function.block.statements = vec![tail(collect(
        method(path("extent"), "indexed_parallel_iter", vec![]),
        pat("point"),
        axis("point", "0"),
    ))];
    refused(&function, 0, Problem::ExtentNotDirect);
    function.block.statements = vec![tail(collect(
        method(iter("extent"), "zip", vec![iter("extent")]),
        pat("point"),
        axis("point", "0"),
    ))];
    refused(&function, 0, Problem::ExtentNotDirect);
}

#[test]
fn refuses_ranks() {
    let mut function = xor();
    function.output = SourceOutput::Type(tensor("u64", "2"));
    refused(&function, 12, Problem::OutputRank);

    let mut function = xor();
    function.inputs[1] = parameter("right", tensor("u64", "2"));
    refused(&function, 0, Problem::ZipRank);

    let named_rank = || {
        TypeArgument::Const(RankExpr { expression: marked(path("D"), 21), text: "D".into() })
    };
    let symbolic = |source: SourceExpr, argument: SourcePattern| {
        function_over(generic("Extent", vec![named_rank()]), named_rank(), source, argument)
    };
    refused(&symbolic(iter("x"), pat("p")), 21, Problem::RankNotLiteral);
    let long = "99999999999999999999999";
    let mut function = shaded(pat("point"), axis("point", "0"));
    function.inputs[0] = parameter("extent", extent(long));
    function.output = SourceOutput::Type(tensor("u32", long));
    refused(&function, 77, Problem::Number(NumberError::TooLarge));
}

fn function_over(
    ty_of_source: SourceType,
    output_rank: TypeArgument,
    source: SourceExpr,
    argument: SourcePattern,
) -> SourceFunction {
    function(
        "over",
        vec![parameter("x", ty_of_source)],
        generic("Tensor", vec![TypeArgument::Type(ty("u8")), output_rank]),
        collect(source, argument, digits("1")),
    )
}

#[test]
fn refuses_closures() {
    let with = |inputs: Vec<SourcePattern>| {
        chained(method(
            method(
                method(iter("left"), "zip", vec![iter("right")]),
                "map",
                vec![closure(inputs, digits("1"))],
            ),
            "collect",
            vec![],
        ))
    };
    let mark = |mut pattern: SourcePattern| {
        pattern.span = at(31);
        pattern
    };
    refused(&with(vec![]), 88, Problem::MapInputs);
    refused(&with(vec![mark(pat("x"))]), 31, Problem::ZipPatternNotTuple);
    refused(&with(vec![mark(tuple(vec![pat("x")]))]), 31, Problem::ZipPatternInputs);

    let indexed = |pattern: SourcePattern| {
        let mut function = mapped(digits("1"));
        function.block.statements = vec![tail(collect(
            method(path("input"), "indexed_parallel_iter", vec![]),
            pattern,
            digits("1"),
        ))];
        function
    };
    refused(&indexed(mark(pat("x"))), 31, Problem::IndexedPattern);
    refused(&indexed(mark(tuple(vec![pat("x")]))), 31, Problem::IndexedPattern);

    refused(&shaded(mark(pattern(PatternKind::Other(vec![]))), digits("1")), 31, Problem::PointPattern);
    refused(
        &shaded(mark(tuple(vec![pat("x")])), digits("1")),
        31,
        Problem::PointPatternRank { axes: 1, rank: 2 },
    );
    let twice = pattern(PatternKind::Ident {
        ident: Ident { name: "x".into(), span: at(32) },
        mutable: false,
        subpattern: None,
    });
    refused(&shaded(tuple(vec![pat("x"), twice]), digits("1")), 32, Problem::PointNameTwice);
}

fn shaded_block(statements: Vec<SourceStatement>) -> SourceFunction {
    shaded(pat("point"), block(statements))
}

#[test]
fn refuses_statements() {
    let before = |statement: SourceStatement| shaded_block(vec![statement, tail(digits("1"))]);
    refused(&before(SourceStatement::Item(at(2))), 2, Problem::ItemInMapBlock);
    refused(&before(SourceStatement::Macro(at(3))), 3, Problem::MacroInMapBlock);
    refused(&shaded_block(vec![statement(assign(path("v"), digits("1")))]), 0, Problem::TargetUnknown);
    refused(&shaded_block(vec![local("v", false, "u8", digits("1"))]), 44, Problem::MapBlockWithoutResult);
    refused(
        &before(statement(marked(binary(SourceBinaryOp::Add, digits("1"), digits("2")), 5))),
        5,
        Problem::BinaryStatement,
    );
    refused(&before(statement(marked(call("sin", vec![]), 6))), 6, Problem::UnsupportedStatement);
    refused(
        &before(statement(marked(method(digits("1"), "push", vec![]), 6))),
        6,
        Problem::UnsupportedStatement,
    );
}

#[test]
fn refuses_locals() {
    let with = |locals: Vec<SourceLocal>| {
        let mut statements: Vec<SourceStatement> =
            locals.into_iter().map(SourceStatement::Local).collect();
        statements.push(tail(digits("1")));
        shaded_block(statements)
    };
    let typed = |ty_name: &str, initializer: Option<SourceInitializer>| SourceLocal {
        span: at(33),
        pattern: pattern(PatternKind::Typed { pattern: Box::new(pat("v")), ty: ty(ty_name) }),
        initializer,
    };
    let value = |diverges: bool| Some(SourceInitializer { value: marked(digits("1"), 35), diverges });
    let untyped = SourceLocal {
        span: at(33),
        pattern: SourcePattern { span: at(36), kind: PatternKind::Wild },
        initializer: value(false),
    };
    refused(&with(vec![untyped]), 36, Problem::UntypedLocal);
    refused(&with(vec![typed("String", value(false))]), 22, Problem::LocalNotScalar);
    refused(&with(vec![typed("u8", None)]), 33, Problem::LocalWithoutInitializer);
    refused(&with(vec![typed("u8", value(true))]), 35, Problem::LetElse);
    refused(
        &with(vec![typed("u8", value(false)), typed("u8", value(false))]),
        0,
        Problem::ShadowedLocal,
    );
}

#[test]
fn refuses_assignments() {
    let with = |mutable: bool, expression: SourceExpr| {
        shaded_block(vec![
            local("v", mutable, "u8", digits("1")),
            statement(expression),
            tail(path("v")),
        ])
    };
    refused(
        &with(true, assign(marked(axis("point", "0"), 7), digits("1"))),
        7,
        Problem::TargetNotLocal,
    );
    refused(
        &with(true, assign(marked(segments(&["a", "v"]), 7), digits("1"))),
        7,
        Problem::TargetNotLocal,
    );
    refused(&with(true, assign(marked(path("time"), 7), digits("1"))), 7, Problem::TargetUnknown);
    refused(&with(false, assign(marked(path("v"), 7), digits("1"))), 7, Problem::TargetImmutable);
    let counter = for_loop(
        "i",
        range("0", "4", false),
        vec![statement(assign(marked(path("i"), 7), digits("1")))],
    );
    refused(&with(true, counter), 7, Problem::TargetImmutable);
}

#[test]
fn refuses_loops() {
    let with = |expression: SourceExpr| shaded_block(vec![statement(expression), tail(digits("1"))]);
    let over = |source: SourceExpr| with(for_loop("i", marked(source, 41), vec![]));
    let open = expr(ExprKind::Range { start: Some(Box::new(digits("0"))), end: None, closed: false });
    refused(&over(open), 41, Problem::UnboundedRange);
    refused(&over(path("point")), 41, Problem::UnboundedRange);
    refused(
        &over(range("0", "4294967295", true)),
        41,
        Problem::InclusiveRangeAtMaximum,
    );
    assert!(parallel(&over(range("0", "4294967295", false))).is_ok());
    assert!(parallel(&over(range("0", "4294967294", true))).is_ok());
    refused(
        &over(range("0", "4294967296", false)),
        77,
        Problem::Number(NumberError::TooLarge),
    );
    let symbolic = expr(ExprKind::Range {
        start: Some(Box::new(digits("0"))),
        end: Some(Box::new(marked(path("n"), 42))),
        closed: false,
    });
    refused(&over(symbolic), 42, Problem::LoopBoundNotLiteral);
    let inside = |statement: SourceStatement| {
        with(for_loop("i", range("0", "1", false), vec![statement]))
    };
    refused(&inside(SourceStatement::Item(at(43))), 43, Problem::ItemInLoop);
    refused(&inside(SourceStatement::Macro(at(43))), 43, Problem::MacroInLoop);

    let each = |arguments: Vec<SourceExpr>| with(method(range("0", "1", false), "for_each", arguments));
    refused(&each(vec![]), 66, Problem::ForEachArguments);
    refused(&each(vec![marked(path("f"), 45)]), 45, Problem::ForEachNotClosure);
    refused(&each(vec![closure(vec![], digits("1"))]), 88, Problem::ForEachInputs);
}

/// A host statement `let name = 1;`.
fn host_local(bound: SourcePattern) -> SourceStatement {
    SourceStatement::Local(SourceLocal {
        span: at(35),
        pattern: bound,
        initializer: Some(SourceInitializer { value: digits("1"), diverges: false }),
    })
}

fn coordinates(base: &str, indices: Vec<SourceExpr>) -> SourceExpr {
    index(path(base), marked(expr(ExprKind::Tuple(indices)), 57))
}

fn length(base: &str, number: &str) -> SourceExpr {
    index(method(path(base), "extent", vec![]), marked(digits(number), 58))
}

fn spanning(start: SourceExpr, end: SourceExpr, closed: bool) -> SourceExpr {
    expr(ExprKind::Range {
        start: Some(Box::new(start)),
        end: Some(Box::new(end)),
        closed,
    })
}

fn sum(range: SourceExpr, variable: &str, term: SourceExpr) -> SourceExpr {
    method(marked(method(range, "map", vec![closure(vec![pat(variable)], term)]), 59), "sum", vec![])
}

/// A function over the points of a rank-two extent that may read a rank-two tensor.
fn gathering(body: SourceExpr) -> SourceFunction {
    let mut function = shaded(tuple(vec![pat("x"), pat("y")]), body);
    function.inputs.push(parameter("table", reference(tensor("i16", "2"))));
    function
}

#[test]
fn a_closure_is_refused_before_its_point_is_needed() {
    let refused_by = |inputs: Vec<SourcePattern>, mode: ClosureMode| {
        let closure = SourceClosure { inputs, inputs_span: at(71), body: Box::new(digits("1")) };
        closure_bindings(&closure, mode, None).err()
    };
    let arguments = Some(Diagnostic { span: at(71), problem: Problem::MapInputs });
    assert_eq!(refused_by(vec![], ClosureMode::Values(0)), arguments);
    assert_eq!(refused_by(vec![pat("a"), pat("b")], ClosureMode::Points), arguments);
    assert_eq!(refused_by(vec![], ClosureMode::Indexed), arguments);
    let pair = Some(Diagnostic { span: at(0), problem: Problem::IndexedPattern });
    assert_eq!(refused_by(vec![pat("a")], ClosureMode::Indexed), pair);
    assert_eq!(refused_by(vec![tuple(vec![pat("a")])], ClosureMode::Indexed), pair);
}

#[test]
fn loop_bodies_leave_their_variables() {
    let numbers: NameMap<usize> = NameMap::new();
    let types = NameMap::new();
    let tensors = NameMap::new();
    let extents = Vec::new();
    let context = DeviceContext {
        bindings: &numbers,
        point_binding: None,
        point_axes: &numbers,
        extent_names: &extents,
        logical_rank: None,
        scalars: &types,
        tensors: &tensors,
        output: ScalarType::U32,
    };
    let counter = LocalInfo { looped: true, mutable: false };
    let entered = || {
        let mut locals: NameMap<LocalInfo> = NameMap::new();
        locals.insert("i".into(), counter);
        locals
    };
    let declared = LocalInfo { looped: false, mutable: true };
    let body = vec![local("a", true, "u32", path("i")), statement(assign(path("a"), digits("1")))];

    let mut locals = entered();
    assert_eq!(lower_unit_block(&body, &context, &mut locals).unwrap().len(), 2);
    assert_eq!(locals.get("i"), Some(counter));
    assert_eq!(locals.get("a"), Some(declared));

    let mut locals = entered();
    let lowered = lower_loop_closure_body(&block(body), &context, &mut locals);
    assert_eq!(lowered.unwrap().len(), 2);
    assert_eq!(locals.get("a"), Some(declared));

    let mut locals = entered();
    let failing = vec![local("a", true, "u32", digits("1")), local("a", true, "u32", digits("2"))];
    assert!(lower_unit_block(&failing, &context, &mut locals).is_err());
    assert_eq!(locals.get("a"), Some(declared));
}

#[test]
fn keeps_the_statements_before_the_chain() {
    let mut function = xor();
    function.block.statements.splice(
        0..0,
        vec![
            host_local(pat("other")),
            statement(marked(digits("1"), 36)),
            tail(marked(digits("2"), 37)),
            SourceStatement::Item(at(38)),
            SourceStatement::Macro(at(39)),
        ],
    );
    assert_eq!(
        compiled(&function).host,
        vec![
            HostStatement { span: at(35), semicolon: false },
            HostStatement { span: at(36), semicolon: true },
            HostStatement { span: at(37), semicolon: false },
            HostStatement { span: at(38), semicolon: false },
            HostStatement { span: at(39), semicolon: false },
        ]
    );
    assert_eq!(compiled(&function).source, compiled(&xor()).source);
    assert!(compiled(&xor()).host.is_empty());
}

#[test]
fn host_locals_hide_parameters() {
    let hiding = |bound: SourcePattern| {
        let mut function = gathering(binary(
            SourceBinaryOp::Add,
            path("time"),
            coordinates("table", vec![path("x"), path("y")]),
        ));
        function.block.statements.insert(0, host_local(bound));
        function
    };
    assert!(parallel(&hiding(pat("free"))).is_ok());
    refused(&hiding(pat("time")), 0, Problem::UnknownValue);
    refused(
        &hiding(tuple(vec![pattern(PatternKind::Wild), pat("time")])),
        0,
        Problem::UnknownValue,
    );
    let deep = pattern(PatternKind::Other(vec![pattern(PatternKind::Reference(Box::new(
        pattern(PatternKind::Ident {
            ident: ident("outer"),
            mutable: true,
            subpattern: Some(Box::new(pattern(PatternKind::Paren(Box::new(pat("time")))))),
        }),
    )))]));
    refused(&hiding(deep), 0, Problem::UnknownValue);
    refused(&hiding(pat("table")), 57, Problem::AxisNotLiteral);
    let hidden = hiding(pat("other"));
    assert_eq!(compiled(&hidden).scalars.len(), 1);

    let mut unused = gathering(digits("1"));
    unused.block.statements.insert(0, host_local(pat("time")));
    assert!(compiled(&unused).scalars.is_empty());
}

#[test]
fn a_host_local_is_an_extent() {
    let mut function = gathering(axis("extent", "1"));
    function.block.statements.insert(0, host_local(pat("extent")));
    function.inputs.remove(0);
    let expansion = compiled(&function);
    let domain = expansion.domain.extent.unwrap();
    assert_eq!(domain.ident.name, "extent");
    assert_eq!(domain.rank.text, "2");
    assert_eq!(expansion.kernel.logical_rank, Some(2));
    assert!(expansion.domain.inputs.is_empty());

    function.inputs.push(parameter("extent", extent("5")));
    assert_eq!(compiled(&function).domain.extent.unwrap().rank.text, "2");

    let over = |source: SourceExpr| {
        let mut function = xor();
        let chain = collect(source, tuple(vec![pat("a"), pat("b")]), path("a"));
        function.block.statements = vec![host_local(pat("left")), tail(chain)];
        function
    };
    refused(
        &over(method(iter("left"), "zip", vec![iter("right")])),
        0,
        Problem::ExtentNotDirect,
    );
    refused(
        &over(method(path("left"), "indexed_parallel_iter", vec![])),
        0,
        Problem::ExtentNotDirect,
    );
}

#[test]
fn compiles_captured_elements_and_axes() {
    let function = gathering(binary(
        SourceBinaryOp::Mul,
        coordinates("table", vec![path("y"), length("table", "1")]),
        length("table", "0"),
    ));
    let expansion = compiled(&function);
    assert_eq!(
        body_of(&function).lines().last().unwrap(),
        "        __pm_out[__pm_linear] = (__pm_cap0[(__pm_point1 + __pm_cap0_extent[0] * __pm_cap0_extent[1])] * __pm_cap0_extent[0]);"
    );
    assert!(expansion.source.contains("const device short* __pm_cap0 [[buffer(1)]]"));
    assert!(expansion.source.contains("constant uint* __pm_cap0_extent [[buffer(2)]]"));
    assert!(expansion.source.contains("constant float& __pm_scalar_time [[buffer(3)]]"));
    assert_eq!(expansion.captures.len(), 1);
    assert_eq!(expansion.captures[0].ident.name, "table");

    let mut beside = mapped(coordinates("other", vec![path("value")]));
    beside.inputs.push(parameter("other", reference(tensor("u32", "1"))));
    let expansion = compiled(&beside);
    assert_eq!(expansion.captures[0].ident.name, "other");
    assert!(expansion.source.contains("const device uint* __pm_cap1 [[buffer(2)]]"));
    assert_eq!(
        body_of(&beside),
        "        __pm_out[__pm_linear] = __pm_cap1[__pm_in0[__pm_linear]];\n"
    );
}

#[test]
fn compiles_sums_and_symbolic_bounds() {
    let terms = || sum(
        spanning(digits("1"), length("table", "1"), false),
        "k",
        coordinates("table", vec![path("x"), path("k")]),
    );
    let in_local = gathering(block(vec![
        local("total", true, "i16", terms()),
        statement(for_loop(
            "i",
            spanning(axis("extent", "0"), length("table", "0"), false),
            vec![statement(assign(path("total"), path("i")))],
        )),
        tail(path("total")),
    ]));
    assert_eq!(
        body_of(&in_local).lines().skip(4).collect::<Vec<_>>().join("\n"),
        "        short __pm_local_total = 0;
        for (uint __pm_loop_k = 1; __pm_loop_k < __pm_cap0_extent[1]; ++__pm_loop_k) {
            __pm_local_total += __pm_cap0[(__pm_point0 + __pm_cap0_extent[0] * __pm_loop_k)];
        }
        for (uint __pm_loop_i = __pm_extent[0]; __pm_loop_i < __pm_cap0_extent[0]; ++__pm_loop_i) {
            __pm_local_total = __pm_loop_i;
        }
        __pm_out[__pm_linear] = __pm_local_total;"
    );
    let whole = gathering(terms());
    assert_eq!(
        body_of(&whole).lines().skip(4).collect::<Vec<_>>().join("\n"),
        "        uint __pm_sum = 0;
        for (uint __pm_loop_k = 1; __pm_loop_k < __pm_cap0_extent[1]; ++__pm_loop_k) {
            __pm_sum += __pm_cap0[(__pm_point0 + __pm_cap0_extent[0] * __pm_loop_k)];
        }
        __pm_out[__pm_linear] = __pm_sum;"
    );
    assert_eq!(body_of(&gathering(block(vec![tail(terms())]))), body_of(&whole));
    let inclusive = gathering(sum(range("0", "3", true), "k", path("k")));
    assert!(body_of(&inclusive).contains("for (uint __pm_loop_k = 0; __pm_loop_k <= 3; ++__pm_loop_k)"));
}

#[test]
fn refuses_captures_and_sums() {
    refused(
        &gathering(coordinates("table", vec![path("x")])),
        57,
        Problem::CoordinateCount { coordinates: 1, rank: 2 },
    );
    refused(
        &gathering(coordinates("table", vec![path("x"), marked(path("no"), 60)])),
        60,
        Problem::UnknownValue,
    );
    refused(
        &gathering(length("table", "2")),
        58,
        Problem::AxisOutOfBounds { axis: 2, rank: 2 },
    );
    refused(&gathering(marked(length("time", "0"), 61)), 61, Problem::IndexedNotPath);
    refused(&gathering(coordinates("extent", vec![path("x")])), 57, Problem::AxisNotLiteral);

    let symbolic = |body: SourceExpr| {
        let mut function = gathering(marked(body, 62));
        let rank = TypeArgument::Const(RankExpr { expression: path("D"), text: "D".into() });
        let ty = generic("Tensor", vec![TypeArgument::Type(ty("i16")), rank]);
        function.inputs[2] = parameter("table", ty);
        function
    };
    refused(&symbolic(coordinates("table", vec![path("x")])), 62, Problem::RankNotLiteral);
    refused(&symbolic(length("table", "0")), 62, Problem::RankNotLiteral);

    let terms = |end: SourceExpr, closed: bool| {
        gathering(sum(marked(spanning(digits("0"), end, closed), 63), "k", path("k")))
    };
    refused(&terms(length("table", "0"), true), 63, Problem::InclusiveRangeNotLiteral);
    refused(&terms(digits("4294967295"), true), 63, Problem::InclusiveRangeAtMaximum);
    refused(&terms(marked(axis("missing", "0"), 64), false), 64, Problem::LoopBoundNotLiteral);
    refused(&terms(marked(path("x"), 64), false), 64, Problem::LoopBoundNotLiteral);

    let nested = marked(sum(range("0", "1", false), "k", path("k")), 65);
    refused(
        &gathering(binary(SourceBinaryOp::Add, digits("1"), nested)),
        65,
        Problem::SumPosition,
    );
    refused(&gathering(method(marked(path("x"), 67), "sum", vec![])), 67, Problem::SumChain);
    let mapped_by = |arguments: Vec<SourceExpr>| {
        let map = marked(method(range("0", "1", false), "map", arguments), 68);
        gathering(method(map, "sum", vec![]))
    };
    refused(&mapped_by(vec![]), 68, Problem::SumChain);
    refused(&mapped_by(vec![path("f")]), 68, Problem::SumChain);
    refused(&mapped_by(vec![closure(vec![], digits("1"))]), 88, Problem::SumChain);
    assert_eq!(
        Problem::CoordinateCount { coordinates: 1, rank: 20 }.message(),
        "tensor index has 1 coordinates but the tensor has rank 20"
    );
}

#[test]
fn refuses_expressions() {
    let with = |body: SourceExpr| shaded(pat("point"), marked(body, 51));
    refused(&with(index(digits("1"), digits("0"))), 51, Problem::IndexedNotPath);
    refused(
        &with(index(marked(segments(&["a", "b"]), 52), digits("0"))),
        52,
        Problem::IndexedNotSimple,
    );
    refused(&with(index(path("point"), marked(path("k"), 53))), 53, Problem::AxisNotLiteral);
    refused(&with(index(path("point"), marked(float("1.0"), 53))), 53, Problem::AxisNotLiteral);
    refused(
        &with(index(path("point"), marked(digits("2"), 53))),
        53,
        Problem::AxisOutOfBounds { axis: 2, rank: 2 },
    );
    refused(&with(axis("time", "0")), 51, Problem::IndexedUnknown);
    refused(&mapped(marked(axis("value", "0"), 51)), 51, Problem::NoLogicalPoints);
    refused(&with(path("missing")), 51, Problem::UnknownValue);
    refused(&with(path("point")), 51, Problem::UnknownValue);
    refused(&with(segments(&["a", "b"])), 51, Problem::UnsupportedExpression);
    refused(&with(expr(ExprKind::Other)), 51, Problem::UnsupportedExpression);
    refused(&with(assign(path("a"), digits("1"))), 51, Problem::UnsupportedExpression);
    refused(
        &with(expr(ExprKind::Call { function: Box::new(marked(digits("1"), 54)), arguments: vec![] })),
        54,
        Problem::IntrinsicNotSimple,
    );
    refused(&with(call("sqrt", vec![digits("1")])), 51, Problem::UnknownIntrinsic);
    refused(&with(call("exp", vec![])), 51, Problem::IntrinsicArguments);
    refused(&with(call("exp", vec![path("nope"), digits("1")])), 0, Problem::UnknownValue);
    refused(&with(literal(LiteralKind::Other)), 77, Problem::UnsupportedLiteral);
    refused(
        &with(expr(ExprKind::Unary { op: SourceUnaryOp::Other, operand: Box::new(digits("1")) })),
        51,
        Problem::UnsupportedUnary,
    );
    refused(&with(cast(digits("1"), "usize")), 22, Problem::UnsupportedCast);
    refused(&with(if_else(digits("1"), digits("2"), None)), 51, Problem::IfWithoutElse);
    refused(
        &with(binary(SourceBinaryOp::AddAssign, digits("1"), digits("2"))),
        55,
        Problem::AssignmentOperator,
    );
    refused(
        &with(binary(SourceBinaryOp::Other, digits("1"), digits("2"))),
        55,
        Problem::AssignmentOperator,
    );
}

#[test]
fn describes_problems() {
    assert_eq!(
        Problem::AxisOutOfBounds { axis: 12, rank: 3 }.message(),
        "axis 12 is out of bounds for rank 3"
    );
    assert_eq!(
        Problem::PointPatternRank { axes: 1, rank: 20 }.message(),
        "point pattern has 1 axes but this iterator has rank 20"
    );
    assert_eq!(
        Problem::ExpectedMethod(ChainMethod::Mapping).message(),
        "expected .map() in the parallel iterator chain"
    );
    assert_eq!(
        Problem::ExpectedArguments(ChainMethod::Collecting).message(),
        "expected .collect() with 0 argument(s)"
    );
    assert_eq!(
        Problem::Number(NumberError::TooLarge).message(),
        "number too large to fit in target type"
    );
    assert_eq!(
        Problem::TargetImmutable.message(),
        "device assignment requires a `let mut` local"
    );
    assert_eq!(
        Problem::Options.message(),
        "#[parallel] does not accept options in the first implementation slice"
    );
}
