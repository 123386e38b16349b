//! Why a function cannot be compiled for the device.
use vstd::prelude::*;
use vstd::string::*;

use crate::source::Span;
use crate::text::{decimal, push_decimal, tells_both, tells_first, wordy, NumberError};

verus! {

/// A method that closes a parallel iterator chain.
#[derive(Debug, Clone, Copy, PartialEq, Eq, Structural)]
pub enum ChainMethod {
    Collecting,
    Mapping,
}

impl ChainMethod {
    pub open spec fn name_text(self) -> Seq<char> {
        match self {
            ChainMethod::Collecting => "collect"@,
            ChainMethod::Mapping => "map"@,
        }
    }

    /// How many arguments the method takes.
    pub open spec fn arity(self) -> usize {
        match self {
            ChainMethod::Collecting => 0,
            ChainMethod::Mapping => 1,
        }
    }

    pub fn name(self) -> (name: &'static str)
        ensures
            name@ == self.name_text(),
    {
        match self {
            ChainMethod::Collecting => "collect",
            ChainMethod::Mapping => "map",
        }
    }

    pub fn argument_count(self) -> (count: usize)
        ensures
            count == self.arity(),
    {
        match self {
            ChainMethod::Collecting => 0,
            ChainMethod::Mapping => 1,
        }
    }
}

/// What is wrong with a function.
#[derive(Debug, Clone, Copy, PartialEq, Eq, Structural)]
pub enum Problem {
    MapBlockWithoutResult,
    ItemInMapBlock,
    MacroInMapBlock,
    UntypedLocal,
    ShadowedLocal,
    LocalNotScalar,
    LocalWithoutInitializer,
    LetElse,
    BinaryStatement,
    UnsupportedStatement,
    ForEachArguments,
    ForEachNotClosure,
    ForEachInputs,
    ItemInLoop,
    MacroInLoop,
    UnboundedRange,
    InclusiveRangeAtMaximum,
    InclusiveRangeNotLiteral,
    SumPosition,
    SumChain,
    CoordinateCount { coordinates: usize, rank: usize },
    TargetNotLocal,
    TargetUnknown,
    TargetImmutable,
    IndexedNotPath,
    IndexedNotSimple,
    NoLogicalPoints,
    AxisOutOfBounds { axis: usize, rank: usize },
    IndexedUnknown,
    UnknownValue,
    IntrinsicNotSimple,
    UnknownIntrinsic,
    IntrinsicArguments,
    UnsupportedLiteral,
    UnsupportedUnary,
    UnsupportedCast,
    IfWithoutElse,
    UnsupportedExpression,
    AxisNotLiteral,
    LoopBoundNotLiteral,
    AssignmentOperator,
    Number(NumberError),
    NotOneChain,
    ExpectedMethod(ChainMethod),
    ExpectedArguments(ChainMethod),
    SourceNotCall,
    ReceiverNotParameter,
    ReceiverNotSimple,
    UnsupportedAdapter,
    MapInputs,
    ZipPatternNotTuple,
    ZipPatternInputs,
    IndexedPattern,
    PointPattern,
    PointPatternRank { axes: usize, rank: usize },
    PointNameTwice,
    NotSimplePattern,
    TensorWithoutArguments,
    TensorWithoutElement,
    TensorElementNotScalar,
    TensorWithoutRank,
    TensorArguments,
    ExtentWithoutRank,
    ExtentArguments,
    RankNotLiteral,
    Options,
    ConstFunction,
    AsyncFunction,
    NotFreeFunction,
    UnsupportedParameter,
    OutputNotTensor,
    MapNotClosure,
    SourceCount,
    ExtentNotDirect,
    UnknownSource,
    IndexedZip,
    OutputRank,
    ZipRank,
}

/// A problem and the tokens that it is about.
#[derive(Debug, Clone, Copy, PartialEq, Eq, Structural)]
pub struct Diagnostic {
    pub span: Span,
    pub problem: Problem,
}

impl Problem {
    /// The sentence that describes the problem.
    pub open spec fn text(self) -> Seq<char> {
        match self {
            Problem::MapBlockWithoutResult => "a device map block must end with its output expression"@,
            Problem::ItemInMapBlock => "items are not supported inside a device map block"@,
            Problem::MacroInMapBlock => "macros are not supported inside a device map block"@,
            Problem::UntypedLocal => "device local variables require an explicit scalar type, e.g. let mut x: f32"@,
            Problem::ShadowedLocal => "shadowing device local variables is not supported yet"@,
            Problem::LocalNotScalar => "device locals currently require a primitive scalar type"@,
            Problem::LocalWithoutInitializer => "device local variables require an initializer"@,
            Problem::LetElse => "let-else is not supported in device code"@,
            Problem::BinaryStatement => "only assignment expressions and bounded device loops may be statements"@,
            Problem::UnsupportedStatement => "only local assignment and bounded for/for_each loops are device statements"@,
            Problem::ForEachArguments => "device range for_each expects exactly one closure"@,
            Problem::ForEachNotClosure => "device range for_each requires an inline closure"@,
            Problem::ForEachInputs => "device range for_each closure must have exactly one argument"@,
            Problem::ItemInLoop => "items are not supported inside a device loop"@,
            Problem::MacroInLoop => "macros are not supported inside a device loop"@,
            Problem::UnboundedRange => "device loops require a bounded literal range such as 0..8 or 1..=8"@,
            Problem::InclusiveRangeAtMaximum => "an inclusive device loop cannot end at u32::MAX"@,
            Problem::SumPosition => "a device sum must be the value of a typed `let` or the output expression"@,
            Problem::SumChain => "a device sum must be written as (start..end).map(|index| ...).sum()"@,
            Problem::InclusiveRangeNotLiteral => "an inclusive device loop requires a literal end"@,
            Problem::CoordinateCount { coordinates, rank } => "tensor index has "@ + decimal(
                coordinates as nat,
            ) + " coordinates but the tensor has rank "@ + decimal(rank as nat),
            Problem::TargetNotLocal => "device assignment target must be a local variable"@,
            Problem::TargetUnknown => "device assignment target is not a local variable"@,
            Problem::TargetImmutable => "device assignment requires a `let mut` local"@,
            Problem::IndexedNotPath => "device indexing currently supports Point and Extent values"@,
            Problem::IndexedNotSimple => "device Point/Extent indexing requires a simple identifier"@,
            Problem::NoLogicalPoints => "this iterator does not expose logical points"@,
            Problem::AxisOutOfBounds { axis, rank } => "axis "@ + decimal(axis as nat)
                + " is out of bounds for rank "@ + decimal(rank as nat),
            Problem::IndexedUnknown => "device indexing currently supports only the iterator Point or source Extent"@,
            Problem::UnknownValue => "device expression references an unknown value"@,
            Problem::IntrinsicNotSimple => "device intrinsic must be a simple function call"@,
            Problem::UnknownIntrinsic => "supported device math intrinsics are sin, cos, abs, exp, and tanh"@,
            Problem::IntrinsicArguments => "this device math intrinsic expects one argument"@,
            Problem::UnsupportedLiteral => "this literal is not supported in a device expression"@,
            Problem::UnsupportedUnary => "only dereference and numeric negation are supported unary operators"@,
            Problem::UnsupportedCast => "unsupported device cast target"@,
            Problem::IfWithoutElse => "device if expressions require an else branch"@,
            Problem::UnsupportedExpression => "unsupported device expression in #[parallel] map"@,
            Problem::AxisNotLiteral => "Point/Extent axis must be an integer literal"@,
            Problem::LoopBoundNotLiteral => "device loop bounds must be integer literals"@,
            Problem::AssignmentOperator => "assignment operators are valid only as device statements"@,
            Problem::Number(error) => error.text(),
            Problem::NotOneChain => "the first #[parallel] slice requires the function body to be one iterator chain"@,
            Problem::ExpectedMethod(method) => "expected ."@ + method.name_text()
                + "() in the parallel iterator chain"@,
            Problem::ExpectedArguments(method) => "expected ."@ + method.name_text()
                + "() with "@ + decimal(method.arity() as nat) + " argument(s)"@,
            Problem::SourceNotCall => "expected parallel_iter(), copied(), or zip()"@,
            Problem::ReceiverNotParameter => "parallel_iter() receiver must be a function parameter"@,
            Problem::ReceiverNotSimple => "parallel_iter() receiver must be a simple function parameter"@,
            Problem::UnsupportedAdapter => "supported source adapters are parallel_iter(), indexed_parallel_iter(), copied(), and one zip()"@,
            Problem::MapInputs => "map closure must have exactly one argument"@,
            Problem::ZipPatternNotTuple => "map after zip must destructure its argument as |(left, right)|"@,
            Problem::ZipPatternInputs => "zip tuple pattern does not match the number of inputs"@,
            Problem::IndexedPattern => "indexed_parallel_iter() map must use |(point, value)|"@,
            Problem::PointPattern => "point must be bound as `point` or destructured as `(axis0, axis1, ...)`"@,
            Problem::PointPatternRank { axes, rank } => "point pattern has "@ + decimal(axes as nat)
                + " axes but this iterator has rank "@ + decimal(rank as nat),
            Problem::PointNameTwice => "a point destructuring pattern cannot bind the same name twice"@,
            Problem::NotSimplePattern => "expected a simple identifier pattern"@,
            Problem::TensorWithoutArguments => "Tensor requires element and rank arguments"@,
            Problem::TensorWithoutElement => "Tensor's first argument must be an element type"@,
            Problem::TensorElementNotScalar => "the first implementation slice supports primitive Metal scalar elements"@,
            Problem::TensorWithoutRank => "Tensor's second argument must be a const rank"@,
            Problem::TensorArguments => "Tensor expects exactly two generic arguments"@,
            Problem::ExtentWithoutRank => "Extent requires one const rank argument"@,
            Problem::ExtentArguments => "Extent expects exactly one const rank argument"@,
            Problem::RankNotLiteral => "coordinate-aware iteration currently requires a literal tensor rank"@,
            Problem::Options => "#[parallel] does not accept options in the first implementation slice"@,
            Problem::ConstFunction => "GPU entry points cannot be const fn"@,
            Problem::AsyncFunction => "async #[parallel] functions are not implemented yet"@,
            Problem::NotFreeFunction => "#[parallel] is supported only on free functions"@,
            Problem::UnsupportedParameter => "only Tensor, Extent, and primitive Metal scalar parameters are supported"@,
            Problem::OutputNotTensor => "#[parallel] currently requires a Tensor<T, D> return type"@,
            Problem::MapNotClosure => "map currently requires an inline closure"@,
            Problem::SourceCount => "the first implementation slice supports one input or one zip of two inputs"@,
            Problem::ExtentNotDirect => "Extent supports only a direct parallel_iter() source"@,
            Problem::UnknownSource => "parallel iteration must start from a Tensor or Extent function parameter"@,
            Problem::IndexedZip => "indexed_parallel_iter() currently supports one tensor source without zip"@,
            Problem::OutputRank => "shape-preserving collect must return the same tensor rank as its input"@,
            Problem::ZipRank => "zip inputs must have the same tensor rank"@,
        }
    }

    /// Describes the problem in one sentence.
    pub fn message(self) -> (message: String)
        ensures
            message@ == self.text(),
    {
        let mut message = String::new();
        match self {
            Problem::MapBlockWithoutResult => message.append("a device map block must end with its output expression"),
            Problem::ItemInMapBlock => message.append("items are not supported inside a device map block"),
            Problem::MacroInMapBlock => message.append("macros are not supported inside a device map block"),
            Problem::UntypedLocal => message.append("device local variables require an explicit scalar type, e.g. let mut x: f32"),
            Problem::ShadowedLocal => message.append("shadowing device local variables is not supported yet"),
            Problem::LocalNotScalar => message.append("device locals currently require a primitive scalar type"),
            Problem::LocalWithoutInitializer => message.append("device local variables require an initializer"),
            Problem::LetElse => message.append("let-else is not supported in device code"),
            Problem::BinaryStatement => message.append("only assignment expressions and bounded device loops may be statements"),
            Problem::UnsupportedStatement => message.append("only local assignment and bounded for/for_each loops are device statements"),
            Problem::ForEachArguments => message.append("device range for_each expects exactly one closure"),
            Problem::ForEachNotClosure => message.append("device range for_each requires an inline closure"),
            Problem::ForEachInputs => message.append("device range for_each closure must have exactly one argument"),
            Problem::ItemInLoop => message.append("items are not supported inside a device loop"),
            Problem::MacroInLoop => message.append("macros are not supported inside a device loop"),
            Problem::UnboundedRange => message.append("device loops require a bounded literal range such as 0..8 or 1..=8"),
            Problem::InclusiveRangeAtMaximum => message.append("an inclusive device loop cannot end at u32::MAX"),
            Problem::SumPosition => message.append("a device sum must be the value of a typed `let` or the output expression"),
            Problem::SumChain => message.append("a device sum must be written as (start..end).map(|index| ...).sum()"),
            Problem::InclusiveRangeNotLiteral => message.append("an inclusive device loop requires a literal end"),
            Problem::CoordinateCount { coordinates, rank } => {
                message.append("tensor index has ");
                push_decimal(&mut message, coordinates as u128);
                message.append(" coordinates but the tensor has rank ");
                push_decimal(&mut message, rank as u128);
            },
            Problem::TargetNotLocal => message.append("device assignment target must be a local variable"),
            Problem::TargetUnknown => message.append("device assignment target is not a local variable"),
            Problem::TargetImmutable => message.append("device assignment requires a `let mut` local"),
            Problem::IndexedNotPath => message.append("device indexing currently supports Point and Extent values"),
            Problem::IndexedNotSimple => message.append("device Point/Extent indexing requires a simple identifier"),
            Problem::NoLogicalPoints => message.append("this iterator does not expose logical points"),
            Problem::AxisOutOfBounds { axis, rank } => {
                message.append("axis ");
                push_decimal(&mut message, axis as u128);
                message.append(" is out of bounds for rank ");
                push_decimal(&mut message, rank as u128);
            },
            Problem::IndexedUnknown => message.append("device indexing currently supports only the iterator Point or source Extent"),
            Problem::UnknownValue => message.append("device expression references an unknown value"),
            Problem::IntrinsicNotSimple => message.append("device intrinsic must be a simple function call"),
            Problem::UnknownIntrinsic => message.append("supported device math intrinsics are sin, cos, abs, exp, and tanh"),
            Problem::IntrinsicArguments => message.append("this device math intrinsic expects one argument"),
            Problem::UnsupportedLiteral => message.append("this literal is not supported in a device expression"),
            Problem::UnsupportedUnary => message.append("only dereference and numeric negation are supported unary operators"),
            Problem::UnsupportedCast => message.append("unsupported device cast target"),
            Problem::IfWithoutElse => message.append("device if expressions require an else branch"),
            Problem::UnsupportedExpression => message.append("unsupported device expression in #[parallel] map"),
            Problem::AxisNotLiteral => message.append("Point/Extent axis must be an integer literal"),
            Problem::LoopBoundNotLiteral => message.append("device loop bounds must be integer literals"),
            Problem::AssignmentOperator => message.append("assignment operators are valid only as device statements"),
            Problem::Number(error) => message.append(error.message()),
            Problem::NotOneChain => message.append("the first #[parallel] slice requires the function body to be one iterator chain"),
            Problem::ExpectedMethod(method) => {
                message.append("expected .");
                message.append(method.name());
                message.append("() in the parallel iterator chain");
            },
            Problem::ExpectedArguments(method) => {
                message.append("expected .");
                message.append(method.name());
                message.append("() with ");
                push_decimal(&mut message, method.argument_count() as u128);
                message.append(" argument(s)");
            },
            Problem::SourceNotCall => message.append("expected parallel_iter(), copied(), or zip()"),
            Problem::ReceiverNotParameter => message.append("parallel_iter() receiver must be a function parameter"),
            Problem::ReceiverNotSimple => message.append("parallel_iter() receiver must be a simple function parameter"),
            Problem::UnsupportedAdapter => message.append("supported source adapters are parallel_iter(), indexed_parallel_iter(), copied(), and one zip()"),
            Problem::MapInputs => message.append("map closure must have exactly one argument"),
            Problem::ZipPatternNotTuple => message.append("map after zip must destructure its argument as |(left, right)|"),
            Problem::ZipPatternInputs => message.append("zip tuple pattern does not match the number of inputs"),
            Problem::IndexedPattern => message.append("indexed_parallel_iter() map must use |(point, value)|"),
            Problem::PointPattern => message.append("point must be bound as `point` or destructured as `(axis0, axis1, ...)`"),
            Problem::PointPatternRank { axes, rank } => {
                message.append("point pattern has ");
                push_decimal(&mut message, axes as u128);
                message.append(" axes but this iterator has rank ");
                push_decimal(&mut message, rank as u128);
            },
            Problem::PointNameTwice => message.append("a point destructuring pattern cannot bind the same name twice"),
            Problem::NotSimplePattern => message.append("expected a simple identifier pattern"),
            Problem::TensorWithoutArguments => message.append("Tensor requires element and rank arguments"),
            Problem::TensorWithoutElement => message.append("Tensor's first argument must be an element type"),
            Problem::TensorElementNotScalar => message.append("the first implementation slice supports primitive Metal scalar elements"),
            Problem::TensorWithoutRank => message.append("Tensor's second argument must be a const rank"),
            Problem::TensorArguments => message.append("Tensor expects exactly two generic arguments"),
            Problem::ExtentWithoutRank => message.append("Extent requires one const rank argument"),
            Problem::ExtentArguments => message.append("Extent expects exactly one const rank argument"),
            Problem::RankNotLiteral => message.append("coordinate-aware iteration currently requires a literal tensor rank"),
            Problem::Options => message.append("#[parallel] does not accept options in the first implementation slice"),
            Problem::ConstFunction => message.append("GPU entry points cannot be const fn"),
            Problem::AsyncFunction => message.append("async #[parallel] functions are not implemented yet"),
            Problem::NotFreeFunction => message.append("#[parallel] is supported only on free functions"),
            Problem::UnsupportedParameter => message.append("only Tensor, Extent, and primitive Metal scalar parameters are supported"),
            Problem::OutputNotTensor => message.append("#[parallel] currently requires a Tensor<T, D> return type"),
            Problem::MapNotClosure => message.append("map currently requires an inline closure"),
            Problem::SourceCount => message.append("the first implementation slice supports one input or one zip of two inputs"),
            Problem::ExtentNotDirect => message.append("Extent supports only a direct parallel_iter() source"),
            Problem::UnknownSource => message.append("parallel iteration must start from a Tensor or Extent function parameter"),
            Problem::IndexedZip => message.append("indexed_parallel_iter() currently supports one tensor source without zip"),
            Problem::OutputRank => message.append("shape-preserving collect must return the same tensor rank as its input"),
            Problem::ZipRank => message.append("zip inputs must have the same tensor rank"),
        }
        assert(message@ =~= self.text());
        message
    }
}

/// A problem that has numbers tells them, one behind the other: what was found, and then the rank.
pub proof fn law_problems_tell_their_numbers(found: usize, rank: usize)
    ensures
        tells_both(
            Problem::CoordinateCount { coordinates: found, rank }.text(),
            found as nat,
            rank as nat,
        ),
        tells_both(
            Problem::AxisOutOfBounds { axis: found, rank }.text(),
            found as nat,
            rank as nat,
        ),
        tells_both(
            Problem::PointPatternRank { axes: found, rank }.text(),
            found as nat,
            rank as nat,
        ),
{
    let none = Seq::<char>::empty();
    reveal_strlit("tensor index has ");
    reveal_strlit(" coordinates but the tensor has rank ");
    assert(wordy("tensor index has "@));
    assert(wordy(" coordinates but the tensor has rank "@));
    assert("tensor index has "@ + decimal(found as nat) + " coordinates but the tensor has rank "@
        + decimal(rank as nat) + none =~= Problem::CoordinateCount {
        coordinates: found,
        rank,
    }.text());
    reveal_strlit("axis ");
    reveal_strlit(" is out of bounds for rank ");
    assert(wordy("axis "@));
    assert(wordy(" is out of bounds for rank "@));
    assert("axis "@ + decimal(found as nat) + " is out of bounds for rank "@ + decimal(rank as nat)
        + none =~= Problem::AxisOutOfBounds { axis: found, rank }.text());
    reveal_strlit("point pattern has ");
    reveal_strlit(" axes but this iterator has rank ");
    assert(wordy("point pattern has "@));
    assert(wordy(" axes but this iterator has rank "@));
    assert("point pattern has "@ + decimal(found as nat) + " axes but this iterator has rank "@
        + decimal(rank as nat) + none =~= Problem::PointPatternRank { axes: found, rank }.text());
}

/// The method that a chain lacks, as it is called.
pub open spec fn called(method: ChainMethod) -> Seq<char> {
    match method {
        ChainMethod::Collecting => ".collect()"@,
        ChainMethod::Mapping => ".map()"@,
    }
}

/// Whether a text holds another.
pub open spec fn holds_text(text: Seq<char>, part: Seq<char>) -> bool {
    exists|before: Seq<char>, after: Seq<char>| #[trigger] (before + part + after) == text
}

/// A problem with a method of the chain names the method, and tells how many arguments it takes:
/// none for `collect`, and one for `map`.
pub proof fn law_problems_name_their_method(method: ChainMethod)
    ensures
        holds_text(Problem::ExpectedMethod(method).text(), called(method)),
        holds_text(Problem::ExpectedArguments(method).text(), called(method)),
        tells_first(
            Problem::ExpectedArguments(method).text(),
            if method is Collecting {
                0
            } else {
                1
            },
        ),
{
    reveal_strlit("expected .");
    reveal_strlit("expected ");
    reveal_strlit("collect");
    reveal_strlit(".collect()");
    reveal_strlit("map");
    reveal_strlit(".map()");
    reveal_strlit("() in the parallel iterator chain");
    reveal_strlit(" in the parallel iterator chain");
    reveal_strlit("() with ");
    reveal_strlit(" with ");
    reveal_strlit(" argument(s)");
    let count = decimal(method.arity() as nat);
    let last = " argument(s)"@;
    assert("expected "@ + called(method) + " in the parallel iterator chain"@
        =~= Problem::ExpectedMethod(method).text());
    assert("expected "@ + called(method) + (" with "@ + count + last)
        =~= Problem::ExpectedArguments(method).text());
    let before = "expected ."@ + method.name_text() + "() with "@;
    assert(wordy(before));
    assert(last[0] == ' ');
    assert(before + count + last == Problem::ExpectedArguments(method).text());
}

} // verus!
