//! What the sentences that describe problems and errors speak of.
use vstd::prelude::*;

use crate::diagnostic::Problem;
use crate::error::Error;
use crate::text::NumberError;

verus! {

/// Whether a text holds another.
pub open spec fn mentions(text: Seq<char>, part: Seq<char>) -> bool {
    exists|place: int|
        0 <= place <= text.len() - part.len() && #[trigger] text.subrange(
            place,
            place + part.len(),
        ) == part
}

/// The words that tell a problem from every other: what it is about, and what is asked for.
pub open spec fn subject(problem: Problem) -> Seq<Seq<char>> {
    match problem {
        Problem::MapBlockWithoutResult => seq!["map block must end with its output expression"@],
        Problem::ItemInMapBlock => seq!["items are not supported"@, "map block"@],
        Problem::MacroInMapBlock => seq!["macros are not supported"@, "map block"@],
        Problem::UntypedLocal => seq!["explicit scalar type"@],
        Problem::ShadowedLocal => seq!["shadowing"@],
        Problem::LocalNotScalar => seq!["device locals"@, "scalar type"@],
        Problem::LocalWithoutInitializer => seq!["require an initializer"@],
        Problem::LetElse => seq!["let-else"@],
        Problem::BinaryStatement => seq!["only assignment expressions"@, "statements"@],
        Problem::UnsupportedStatement => seq!["for/for_each loops"@],
        Problem::ForEachArguments => seq!["for_each expects exactly one closure"@],
        Problem::ForEachNotClosure => seq!["for_each requires an inline closure"@],
        Problem::ForEachInputs => seq!["for_each closure must have exactly one argument"@],
        Problem::ItemInLoop => seq!["items are not supported"@, "device loop"@],
        Problem::MacroInLoop => seq!["macros are not supported"@, "device loop"@],
        Problem::UnboundedRange => seq!["bounded literal range"@],
        Problem::InclusiveRangeAtMaximum => seq!["inclusive"@, "cannot end at u32::MAX"@],
        Problem::SumPosition => seq!["device sum"@, "typed `let` or the output expression"@],
        Problem::SumChain => seq!["(start..end).map(|index| ...).sum()"@],
        Problem::InclusiveRangeNotLiteral => seq!["inclusive"@, "literal end"@],
        Problem::TargetNotLocal => seq!["target must be a local variable"@],
        Problem::TargetUnknown => seq!["target is not a local variable"@],
        Problem::TargetImmutable => seq!["`let mut` local"@],
        Problem::IndexedNotPath => seq!["Point and Extent values"@],
        Problem::IndexedNotSimple => seq!["indexing requires a simple identifier"@],
        Problem::NoLogicalPoints => seq!["does not expose logical points"@],
        Problem::IndexedUnknown => seq!["only the iterator Point or source Extent"@],
        Problem::UnknownValue => seq!["unknown value"@],
        Problem::IntrinsicNotSimple => seq!["simple function call"@],
        Problem::UnknownIntrinsic => seq!["sin, cos, abs, exp, and tanh"@],
        Problem::IntrinsicArguments => seq!["intrinsic expects one argument"@],
        Problem::UnsupportedLiteral => seq!["this literal is not supported"@],
        Problem::UnsupportedUnary => seq!["dereference and numeric negation"@],
        Problem::UnsupportedCast => seq!["unsupported device cast target"@],
        Problem::IfWithoutElse => seq!["require an else branch"@],
        Problem::UnsupportedExpression => seq!["unsupported device expression"@],
        Problem::AxisNotLiteral => seq!["axis must be an integer literal"@],
        Problem::LoopBoundNotLiteral => seq!["loop bounds must be integer literals"@],
        Problem::AssignmentOperator => seq!["assignment operators"@],
        Problem::NotOneChain => seq!["one iterator chain"@],
        Problem::SourceNotCall => seq!["expected parallel_iter()"@],
        Problem::ReceiverNotParameter => seq!["receiver must be a function parameter"@],
        Problem::ReceiverNotSimple => seq!["receiver must be a simple function parameter"@],
        Problem::UnsupportedAdapter => seq!["source adapters"@],
        Problem::MapInputs => seq!["map closure must have exactly one argument"@],
        Problem::ZipPatternNotTuple => seq!["|(left, right)|"@],
        Problem::ZipPatternInputs => seq!["does not match the number of inputs"@],
        Problem::IndexedPattern => seq!["|(point, value)|"@],
        Problem::PointPattern => seq!["`(axis0, axis1, ...)`"@],
        Problem::PointNameTwice => seq!["same name twice"@],
        Problem::NotSimplePattern => seq!["simple identifier pattern"@],
        Problem::TensorWithoutArguments => seq!["element and rank arguments"@],
        Problem::TensorWithoutElement => seq!["first argument must be an element type"@],
        Problem::TensorElementNotScalar => seq!["scalar elements"@],
        Problem::TensorWithoutRank => seq!["second argument must be a const rank"@],
        Problem::TensorArguments => seq!["exactly two generic arguments"@],
        Problem::ExtentWithoutRank => seq!["Extent requires one const rank"@],
        Problem::ExtentArguments => seq!["Extent expects exactly one const rank"@],
        Problem::RankNotLiteral => seq!["requires a literal tensor rank"@],
        Problem::Options => seq!["does not accept options"@],
        Problem::ConstFunction => seq!["cannot be const fn"@],
        Problem::AsyncFunction => seq!["async"@],
        Problem::NotFreeFunction => seq!["only on free functions"@],
        Problem::UnsupportedParameter => seq!["scalar parameters are supported"@],
        Problem::OutputNotTensor => seq!["return type"@],
        Problem::MapNotClosure => seq!["map currently requires an inline closure"@],
        Problem::SourceCount => seq!["one input or one zip of two inputs"@],
        Problem::ExtentNotDirect => seq!["only a direct parallel_iter()"@],
        Problem::UnknownSource => seq!["must start from a Tensor or Extent"@],
        Problem::IndexedZip => seq!["one tensor source without zip"@],
        Problem::OutputRank => seq!["collect must return the same tensor rank"@],
        Problem::ZipRank => seq!["zip inputs must have the same tensor rank"@],
        _ => Seq::empty(),
    }
}

/// Whether the sentence of a problem speaks of its subject.
pub open spec fn speaks_of_its_subject(problem: Problem) -> bool {
    forall|i: int|
        0 <= i < subject(problem).len() ==> mentions(
            problem.text(),
            #[trigger] subject(problem)[i],
        )
}

proof fn lemma_mentions(text: Seq<char>, part: Seq<char>, place: int)
    requires
        0 <= place <= text.len() - part.len(),
        text.subrange(place, place + part.len()) == part,
    ensures
        mentions(text, part),
{
}

proof fn lemma_first_subjects(problem: Problem)
    requires
        ({
            ||| problem is MapBlockWithoutResult
            ||| problem is ItemInMapBlock
            ||| problem is MacroInMapBlock
            ||| problem is UntypedLocal
            ||| problem is ShadowedLocal
            ||| problem is LocalNotScalar
            ||| problem is LocalWithoutInitializer
            ||| problem is LetElse
            ||| problem is BinaryStatement
            ||| problem is UnsupportedStatement
            ||| problem is ForEachArguments
            ||| problem is ForEachNotClosure
        }),
    ensures
        speaks_of_its_subject(problem),
{
    let text = problem.text();
    match problem {
        Problem::MapBlockWithoutResult => {
            reveal_strlit("a device map block must end with its output expression");
            reveal_strlit("map block must end with its output expression");
            assert(text.subrange(9, 54) =~= "map block must end with its output expression"@);
            lemma_mentions(text, "map block must end with its output expression"@, 9);
        },
        Problem::ItemInMapBlock => {
            reveal_strlit("items are not supported inside a device map block");
            reveal_strlit("items are not supported");
            reveal_strlit("map block");
            assert(text.subrange(0, 23) =~= "items are not supported"@);
            lemma_mentions(text, "items are not supported"@, 0);
            assert(text.subrange(40, 49) =~= "map block"@);
            lemma_mentions(text, "map block"@, 40);
        },
        Problem::MacroInMapBlock => {
            reveal_strlit("macros are not supported inside a device map block");
            reveal_strlit("macros are not supported");
            reveal_strlit("map block");
            assert(text.subrange(0, 24) =~= "macros are not supported"@);
            lemma_mentions(text, "macros are not supported"@, 0);
            assert(text.subrange(41, 50) =~= "map block"@);
            lemma_mentions(text, "map block"@, 41);
        },
        Problem::UntypedLocal => {
            reveal_strlit(
                "device local variables require an explicit scalar type, e.g. let mut x: f32",
            );
            reveal_strlit("explicit scalar type");
            assert(text.subrange(34, 54) =~= "explicit scalar type"@);
            lemma_mentions(text, "explicit scalar type"@, 34);
        },
        Problem::ShadowedLocal => {
            reveal_strlit("shadowing device local variables is not supported yet");
            reveal_strlit("shadowing");
            assert(text.subrange(0, 9) =~= "shadowing"@);
            lemma_mentions(text, "shadowing"@, 0);
        },
        Problem::LocalNotScalar => {
            reveal_strlit("device locals currently require a primitive scalar type");
            reveal_strlit("device locals");
            reveal_strlit("scalar type");
            assert(text.subrange(0, 13) =~= "device locals"@);
            lemma_mentions(text, "device locals"@, 0);
            assert(text.subrange(44, 55) =~= "scalar type"@);
            lemma_mentions(text, "scalar type"@, 44);
        },
        Problem::LocalWithoutInitializer => {
            reveal_strlit("device local variables require an initializer");
            reveal_strlit("require an initializer");
            assert(text.subrange(23, 45) =~= "require an initializer"@);
            lemma_mentions(text, "require an initializer"@, 23);
        },
        Problem::LetElse => {
            reveal_strlit("let-else is not supported in device code");
            reveal_strlit("let-else");
            assert(text.subrange(0, 8) =~= "let-else"@);
            lemma_mentions(text, "let-else"@, 0);
        },
        Problem::BinaryStatement => {
            reveal_strlit("only assignment expressions and bounded device loops may be statements");
            reveal_strlit("only assignment expressions");
            reveal_strlit("statements");
            assert(text.subrange(0, 27) =~= "only assignment expressions"@);
            lemma_mentions(text, "only assignment expressions"@, 0);
            assert(text.subrange(60, 70) =~= "statements"@);
            lemma_mentions(text, "statements"@, 60);
        },
        Problem::UnsupportedStatement => {
            reveal_strlit(
                "only local assignment and bounded for/for_each loops are device statements",
            );
            reveal_strlit("for/for_each loops");
            assert(text.subrange(34, 52) =~= "for/for_each loops"@);
            lemma_mentions(text, "for/for_each loops"@, 34);
        },
        Problem::ForEachArguments => {
            reveal_strlit("device range for_each expects exactly one closure");
            reveal_strlit("for_each expects exactly one closure");
            assert(text.subrange(13, 49) =~= "for_each expects exactly one closure"@);
            lemma_mentions(text, "for_each expects exactly one closure"@, 13);
        },
        Problem::ForEachNotClosure => {
            reveal_strlit("device range for_each requires an inline closure");
            reveal_strlit("for_each requires an inline closure");
            assert(text.subrange(13, 48) =~= "for_each requires an inline closure"@);
            lemma_mentions(text, "for_each requires an inline closure"@, 13);
        },
        _ => {},
    }
}

proof fn lemma_second_subjects(problem: Problem)
    requires
        ({
            ||| problem is ForEachInputs
            ||| problem is ItemInLoop
            ||| problem is MacroInLoop
            ||| problem is UnboundedRange
            ||| problem is InclusiveRangeAtMaximum
            ||| problem is SumPosition
            ||| problem is SumChain
            ||| problem is InclusiveRangeNotLiteral
            ||| problem is TargetNotLocal
            ||| problem is TargetUnknown
            ||| problem is TargetImmutable
            ||| problem is IndexedNotPath
        }),
    ensures
        speaks_of_its_subject(problem),
{
    let text = problem.text();
    match problem {
        Problem::ForEachInputs => {
            reveal_strlit("device range for_each closure must have exactly one argument");
            reveal_strlit("for_each closure must have exactly one argument");
            assert(text.subrange(13, 60) =~= "for_each closure must have exactly one argument"@);
            lemma_mentions(text, "for_each closure must have exactly one argument"@, 13);
        },
        Problem::ItemInLoop => {
            reveal_strlit("items are not supported inside a device loop");
            reveal_strlit("items are not supported");
            reveal_strlit("device loop");
            assert(text.subrange(0, 23) =~= "items are not supported"@);
            lemma_mentions(text, "items are not supported"@, 0);
            assert(text.subrange(33, 44) =~= "device loop"@);
            lemma_mentions(text, "device loop"@, 33);
        },
        Problem::MacroInLoop => {
            reveal_strlit("macros are not supported inside a device loop");
            reveal_strlit("macros are not supported");
            reveal_strlit("device loop");
            assert(text.subrange(0, 24) =~= "macros are not supported"@);
            lemma_mentions(text, "macros are not supported"@, 0);
            assert(text.subrange(34, 45) =~= "device loop"@);
            lemma_mentions(text, "device loop"@, 34);
        },
        Problem::UnboundedRange => {
            reveal_strlit("device loops require a bounded literal range such as 0..8 or 1..=8");
            reveal_strlit("bounded literal range");
            assert(text.subrange(23, 44) =~= "bounded literal range"@);
            lemma_mentions(text, "bounded literal range"@, 23);
        },
        Problem::InclusiveRangeAtMaximum => {
            reveal_strlit("an inclusive device loop cannot end at u32::MAX");
            reveal_strlit("inclusive");
            reveal_strlit("cannot end at u32::MAX");
            assert(text.subrange(3, 12) =~= "inclusive"@);
            lemma_mentions(text, "inclusive"@, 3);
            assert(text.subrange(25, 47) =~= "cannot end at u32::MAX"@);
            lemma_mentions(text, "cannot end at u32::MAX"@, 25);
        },
        Problem::SumPosition => {
            reveal_strlit(
                "a device sum must be the value of a typed `let` or the output expression",
            );
            reveal_strlit("device sum");
            reveal_strlit("typed `let` or the output expression");
            assert(text.subrange(2, 12) =~= "device sum"@);
            lemma_mentions(text, "device sum"@, 2);
            assert(text.subrange(36, 72) =~= "typed `let` or the output expression"@);
            lemma_mentions(text, "typed `let` or the output expression"@, 36);
        },
        Problem::SumChain => {
            reveal_strlit("a device sum must be written as (start..end).map(|index| ...).sum()");
            reveal_strlit("(start..end).map(|index| ...).sum()");
            assert(text.subrange(32, 67) =~= "(start..end).map(|index| ...).sum()"@);
            lemma_mentions(text, "(start..end).map(|index| ...).sum()"@, 32);
        },
        Problem::InclusiveRangeNotLiteral => {
            reveal_strlit("an inclusive device loop requires a literal end");
            reveal_strlit("inclusive");
            reveal_strlit("literal end");
            assert(text.subrange(3, 12) =~= "inclusive"@);
            lemma_mentions(text, "inclusive"@, 3);
            assert(text.subrange(36, 47) =~= "literal end"@);
            lemma_mentions(text, "literal end"@, 36);
        },
        Problem::TargetNotLocal => {
            reveal_strlit("device assignment target must be a local variable");
            reveal_strlit("target must be a local variable");
            assert(text.subrange(18, 49) =~= "target must be a local variable"@);
            lemma_mentions(text, "target must be a local variable"@, 18);
        },
        Problem::TargetUnknown => {
            reveal_strlit("device assignment target is not a local variable");
            reveal_strlit("target is not a local variable");
            assert(text.subrange(18, 48) =~= "target is not a local variable"@);
            lemma_mentions(text, "target is not a local variable"@, 18);
        },
        Problem::TargetImmutable => {
            reveal_strlit("device assignment requires a `let mut` local");
            reveal_strlit("`let mut` local");
            assert(text.subrange(29, 44) =~= "`let mut` local"@);
            lemma_mentions(text, "`let mut` local"@, 29);
        },
        Problem::IndexedNotPath => {
            reveal_strlit("device indexing currently supports Point and Extent values");
            reveal_strlit("Point and Extent values");
            assert(text.subrange(35, 58) =~= "Point and Extent values"@);
            lemma_mentions(text, "Point and Extent values"@, 35);
        },
        _ => {},
    }
}

proof fn lemma_third_subjects(problem: Problem)
    requires
        ({
            ||| problem is IndexedNotSimple
            ||| problem is NoLogicalPoints
            ||| problem is IndexedUnknown
            ||| problem is UnknownValue
            ||| problem is IntrinsicNotSimple
            ||| problem is UnknownIntrinsic
            ||| problem is IntrinsicArguments
            ||| problem is UnsupportedLiteral
            ||| problem is UnsupportedUnary
            ||| problem is UnsupportedCast
            ||| problem is IfWithoutElse
            ||| problem is UnsupportedExpression
        }),
    ensures
        speaks_of_its_subject(problem),
{
    let text = problem.text();
    match problem {
        Problem::IndexedNotSimple => {
            reveal_strlit("device Point/Extent indexing requires a simple identifier");
            reveal_strlit("indexing requires a simple identifier");
            assert(text.subrange(20, 57) =~= "indexing requires a simple identifier"@);
            lemma_mentions(text, "indexing requires a simple identifier"@, 20);
        },
        Problem::NoLogicalPoints => {
            reveal_strlit("this iterator does not expose logical points");
            reveal_strlit("does not expose logical points");
            assert(text.subrange(14, 44) =~= "does not expose logical points"@);
            lemma_mentions(text, "does not expose logical points"@, 14);
        },
        Problem::IndexedUnknown => {
            reveal_strlit(
                "device indexing currently supports only the iterator Point or source Extent",
            );
            reveal_strlit("only the iterator Point or source Extent");
            assert(text.subrange(35, 75) =~= "only the iterator Point or source Extent"@);
            lemma_mentions(text, "only the iterator Point or source Extent"@, 35);
        },
        Problem::UnknownValue => {
            reveal_strlit("device expression references an unknown value");
            reveal_strlit("unknown value");
            assert(text.subrange(32, 45) =~= "unknown value"@);
            lemma_mentions(text, "unknown value"@, 32);
        },
        Problem::IntrinsicNotSimple => {
            reveal_strlit("device intrinsic must be a simple function call");
            reveal_strlit("simple function call");
            assert(text.subrange(27, 47) =~= "simple function call"@);
            lemma_mentions(text, "simple function call"@, 27);
        },
        Problem::UnknownIntrinsic => {
            reveal_strlit("supported device math intrinsics are sin, cos, abs, exp, and tanh");
            reveal_strlit("sin, cos, abs, exp, and tanh");
            assert(text.subrange(37, 65) =~= "sin, cos, abs, exp, and tanh"@);
            lemma_mentions(text, "sin, cos, abs, exp, and tanh"@, 37);
        },
        Problem::IntrinsicArguments => {
            reveal_strlit("this device math intrinsic expects one argument");
            reveal_strlit("intrinsic expects one argument");
            assert(text.subrange(17, 47) =~= "intrinsic expects one argument"@);
            lemma_mentions(text, "intrinsic expects one argument"@, 17);
        },
        Problem::UnsupportedLiteral => {
            reveal_strlit("this literal is not supported in a device expression");
            reveal_strlit("this literal is not supported");
            assert(text.subrange(0, 29) =~= "this literal is not supported"@);
            lemma_mentions(text, "this literal is not supported"@, 0);
        },
        Problem::UnsupportedUnary => {
            reveal_strlit("only dereference and numeric negation are supported unary operators");
            reveal_strlit("dereference and numeric negation");
            assert(text.subrange(5, 37) =~= "dereference and numeric negation"@);
            lemma_mentions(text, "dereference and numeric negation"@, 5);
        },
        Problem::UnsupportedCast => {
            reveal_strlit("unsupported device cast target");
            reveal_strlit("unsupported device cast target");
            assert(text.subrange(0, 30) =~= "unsupported device cast target"@);
            lemma_mentions(text, "unsupported device cast target"@, 0);
        },
        Problem::IfWithoutElse => {
            reveal_strlit("device if expressions require an else branch");
            reveal_strlit("require an else branch");
            assert(text.subrange(22, 44) =~= "require an else branch"@);
            lemma_mentions(text, "require an else branch"@, 22);
        },
        Problem::UnsupportedExpression => {
            reveal_strlit("unsupported device expression in #[parallel] map");
            reveal_strlit("unsupported device expression");
            assert(text.subrange(0, 29) =~= "unsupported device expression"@);
            lemma_mentions(text, "unsupported device expression"@, 0);
        },
        _ => {},
    }
}

proof fn lemma_fourth_subjects(problem: Problem)
    requires
        ({
            ||| problem is AxisNotLiteral
            ||| problem is LoopBoundNotLiteral
            ||| problem is AssignmentOperator
            ||| problem is NotOneChain
            ||| problem is SourceNotCall
            ||| problem is ReceiverNotParameter
            ||| problem is ReceiverNotSimple
            ||| problem is UnsupportedAdapter
            ||| problem is MapInputs
            ||| problem is ZipPatternNotTuple
            ||| problem is ZipPatternInputs
            ||| problem is IndexedPattern
        }),
    ensures
        speaks_of_its_subject(problem),
{
    let text = problem.text();
    match problem {
        Problem::AxisNotLiteral => {
            reveal_strlit("Point/Extent axis must be an integer literal");
            reveal_strlit("axis must be an integer literal");
            assert(text.subrange(13, 44) =~= "axis must be an integer literal"@);
            lemma_mentions(text, "axis must be an integer literal"@, 13);
        },
        Problem::LoopBoundNotLiteral => {
            reveal_strlit("device loop bounds must be integer literals");
            reveal_strlit("loop bounds must be integer literals");
            assert(text.subrange(7, 43) =~= "loop bounds must be integer literals"@);
            lemma_mentions(text, "loop bounds must be integer literals"@, 7);
        },
        Problem::AssignmentOperator => {
            reveal_strlit("assignment operators are valid only as device statements");
            reveal_strlit("assignment operators");
            assert(text.subrange(0, 20) =~= "assignment operators"@);
            lemma_mentions(text, "assignment operators"@, 0);
        },
        Problem::NotOneChain => {
            reveal_strlit(
                "the first #[parallel] slice requires the function body to be one iterator chain",
            );
            reveal_strlit("one iterator chain");
            assert(text.subrange(61, 79) =~= "one iterator chain"@);
            lemma_mentions(text, "one iterator chain"@, 61);
        },
        Problem::SourceNotCall => {
            reveal_strlit("expected parallel_iter(), copied(), or zip()");
            reveal_strlit("expected parallel_iter()");
            assert(text.subrange(0, 24) =~= "expected parallel_iter()"@);
            lemma_mentions(text, "expected parallel_iter()"@, 0);
        },
        Problem::ReceiverNotParameter => {
            reveal_strlit("parallel_iter() receiver must be a function parameter");
            reveal_strlit("receiver must be a function parameter");
            assert(text.subrange(16, 53) =~= "receiver must be a function parameter"@);
            lemma_mentions(text, "receiver must be a function parameter"@, 16);
        },
        Problem::ReceiverNotSimple => {
            reveal_strlit("parallel_iter() receiver must be a simple function parameter");
            reveal_strlit("receiver must be a simple function parameter");
            assert(text.subrange(16, 60) =~= "receiver must be a simple function parameter"@);
            lemma_mentions(text, "receiver must be a simple function parameter"@, 16);
        },
        Problem::UnsupportedAdapter => {
            reveal_strlit(
                "supported source adapters are parallel_iter(), indexed_parallel_iter(), copied(), and one zip()",
            );
            reveal_strlit("source adapters");
            assert(text.subrange(10, 25) =~= "source adapters"@);
            lemma_mentions(text, "source adapters"@, 10);
        },
        Problem::MapInputs => {
            reveal_strlit("map closure must have exactly one argument");
            reveal_strlit("map closure must have exactly one argument");
            assert(text.subrange(0, 42) =~= "map closure must have exactly one argument"@);
            lemma_mentions(text, "map closure must have exactly one argument"@, 0);
        },
        Problem::ZipPatternNotTuple => {
            reveal_strlit("map after zip must destructure its argument as |(left, right)|");
            reveal_strlit("|(left, right)|");
            assert(text.subrange(47, 62) =~= "|(left, right)|"@);
            lemma_mentions(text, "|(left, right)|"@, 47);
        },
        Problem::ZipPatternInputs => {
            reveal_strlit("zip tuple pattern does not match the number of inputs");
            reveal_strlit("does not match the number of inputs");
            assert(text.subrange(18, 53) =~= "does not match the number of inputs"@);
            lemma_mentions(text, "does not match the number of inputs"@, 18);
        },
        Problem::IndexedPattern => {
            reveal_strlit("indexed_parallel_iter() map must use |(point, value)|");
            reveal_strlit("|(point, value)|");
            assert(text.subrange(37, 53) =~= "|(point, value)|"@);
            lemma_mentions(text, "|(point, value)|"@, 37);
        },
        _ => {},
    }
}

proof fn lemma_fifth_subjects(problem: Problem)
    requires
        ({
            ||| problem is PointPattern
            ||| problem is PointNameTwice
            ||| problem is NotSimplePattern
            ||| problem is TensorWithoutArguments
            ||| problem is TensorWithoutElement
            ||| problem is TensorElementNotScalar
            ||| problem is TensorWithoutRank
            ||| problem is TensorArguments
            ||| problem is ExtentWithoutRank
            ||| problem is ExtentArguments
            ||| problem is RankNotLiteral
            ||| problem is Options
        }),
    ensures
        speaks_of_its_subject(problem),
{
    let text = problem.text();
    match problem {
        Problem::PointPattern => {
            reveal_strlit(
                "point must be bound as `point` or destructured as `(axis0, axis1, ...)`",
            );
            reveal_strlit("`(axis0, axis1, ...)`");
            assert(text.subrange(50, 71) =~= "`(axis0, axis1, ...)`"@);
            lemma_mentions(text, "`(axis0, axis1, ...)`"@, 50);
        },
        Problem::PointNameTwice => {
            reveal_strlit("a point destructuring pattern cannot bind the same name twice");
            reveal_strlit("same name twice");
            assert(text.subrange(46, 61) =~= "same name twice"@);
            lemma_mentions(text, "same name twice"@, 46);
        },
        Problem::NotSimplePattern => {
            reveal_strlit("expected a simple identifier pattern");
            reveal_strlit("simple identifier pattern");
            assert(text.subrange(11, 36) =~= "simple identifier pattern"@);
            lemma_mentions(text, "simple identifier pattern"@, 11);
        },
        Problem::TensorWithoutArguments => {
            reveal_strlit("Tensor requires element and rank arguments");
            reveal_strlit("element and rank arguments");
            assert(text.subrange(16, 42) =~= "element and rank arguments"@);
            lemma_mentions(text, "element and rank arguments"@, 16);
        },
        Problem::TensorWithoutElement => {
            reveal_strlit("Tensor's first argument must be an element type");
            reveal_strlit("first argument must be an element type");
            assert(text.subrange(9, 47) =~= "first argument must be an element type"@);
            lemma_mentions(text, "first argument must be an element type"@, 9);
        },
        Problem::TensorElementNotScalar => {
            reveal_strlit(
                "the first implementation slice supports primitive Metal scalar elements",
            );
            reveal_strlit("scalar elements");
            assert(text.subrange(56, 71) =~= "scalar elements"@);
            lemma_mentions(text, "scalar elements"@, 56);
        },
        Problem::TensorWithoutRank => {
            reveal_strlit("Tensor's second argument must be a const rank");
            reveal_strlit("second argument must be a const rank");
            assert(text.subrange(9, 45) =~= "second argument must be a const rank"@);
            lemma_mentions(text, "second argument must be a const rank"@, 9);
        },
        Problem::TensorArguments => {
            reveal_strlit("Tensor expects exactly two generic arguments");
            reveal_strlit("exactly two generic arguments");
            assert(text.subrange(15, 44) =~= "exactly two generic arguments"@);
            lemma_mentions(text, "exactly two generic arguments"@, 15);
        },
        Problem::ExtentWithoutRank => {
            reveal_strlit("Extent requires one const rank argument");
            reveal_strlit("Extent requires one const rank");
            assert(text.subrange(0, 30) =~= "Extent requires one const rank"@);
            lemma_mentions(text, "Extent requires one const rank"@, 0);
        },
        Problem::ExtentArguments => {
            reveal_strlit("Extent expects exactly one const rank argument");
            reveal_strlit("Extent expects exactly one const rank");
            assert(text.subrange(0, 37) =~= "Extent expects exactly one const rank"@);
            lemma_mentions(text, "Extent expects exactly one const rank"@, 0);
        },
        Problem::RankNotLiteral => {
            reveal_strlit("coordinate-aware iteration currently requires a literal tensor rank");
            reveal_strlit("requires a literal tensor rank");
            assert(text.subrange(37, 67) =~= "requires a literal tensor rank"@);
            lemma_mentions(text, "requires a literal tensor rank"@, 37);
        },
        Problem::Options => {
            reveal_strlit("#[parallel] does not accept options in the first implementation slice");
            reveal_strlit("does not accept options");
            assert(text.subrange(12, 35) =~= "does not accept options"@);
            lemma_mentions(text, "does not accept options"@, 12);
        },
        _ => {},
    }
}

proof fn lemma_sixth_subjects(problem: Problem)
    requires
        ({
            ||| problem is ConstFunction
            ||| problem is AsyncFunction
            ||| problem is NotFreeFunction
            ||| problem is UnsupportedParameter
            ||| problem is OutputNotTensor
            ||| problem is MapNotClosure
            ||| problem is SourceCount
            ||| problem is ExtentNotDirect
            ||| problem is UnknownSource
            ||| problem is IndexedZip
            ||| problem is OutputRank
            ||| problem is ZipRank
        }),
    ensures
        speaks_of_its_subject(problem),
{
    let text = problem.text();
    match problem {
        Problem::ConstFunction => {
            reveal_strlit("GPU entry points cannot be const fn");
            reveal_strlit("cannot be const fn");
            assert(text.subrange(17, 35) =~= "cannot be const fn"@);
            lemma_mentions(text, "cannot be const fn"@, 17);
        },
        Problem::AsyncFunction => {
            reveal_strlit("async #[parallel] functions are not implemented yet");
            reveal_strlit("async");
            assert(text.subrange(0, 5) =~= "async"@);
            lemma_mentions(text, "async"@, 0);
        },
        Problem::NotFreeFunction => {
            reveal_strlit("#[parallel] is supported only on free functions");
            reveal_strlit("only on free functions");
            assert(text.subrange(25, 47) =~= "only on free functions"@);
            lemma_mentions(text, "only on free functions"@, 25);
        },
        Problem::UnsupportedParameter => {
            reveal_strlit(
                "only Tensor, Extent, and primitive Metal scalar parameters are supported",
            );
            reveal_strlit("scalar parameters are supported");
            assert(text.subrange(41, 72) =~= "scalar parameters are supported"@);
            lemma_mentions(text, "scalar parameters are supported"@, 41);
        },
        Problem::OutputNotTensor => {
            reveal_strlit("#[parallel] currently requires a Tensor<T, D> return type");
            reveal_strlit("return type");
            assert(text.subrange(46, 57) =~= "return type"@);
            lemma_mentions(text, "return type"@, 46);
        },
        Problem::MapNotClosure => {
            reveal_strlit("map currently requires an inline closure");
            reveal_strlit("map currently requires an inline closure");
            assert(text.subrange(0, 40) =~= "map currently requires an inline closure"@);
            lemma_mentions(text, "map currently requires an inline closure"@, 0);
        },
        Problem::SourceCount => {
            reveal_strlit(
                "the first implementation slice supports one input or one zip of two inputs",
            );
            reveal_strlit("one input or one zip of two inputs");
            assert(text.subrange(40, 74) =~= "one input or one zip of two inputs"@);
            lemma_mentions(text, "one input or one zip of two inputs"@, 40);
        },
        Problem::ExtentNotDirect => {
            reveal_strlit("Extent supports only a direct parallel_iter() source");
            reveal_strlit("only a direct parallel_iter()");
            assert(text.subrange(16, 45) =~= "only a direct parallel_iter()"@);
            lemma_mentions(text, "only a direct parallel_iter()"@, 16);
        },
        Problem::UnknownSource => {
            reveal_strlit(
                "parallel iteration must start from a Tensor or Extent function parameter",
            );
            reveal_strlit("must start from a Tensor or Extent");
            assert(text.subrange(19, 53) =~= "must start from a Tensor or Extent"@);
            lemma_mentions(text, "must start from a Tensor or Extent"@, 19);
        },
        Problem::IndexedZip => {
            reveal_strlit(
                "indexed_parallel_iter() currently supports one tensor source without zip",
            );
            reveal_strlit("one tensor source without zip");
            assert(text.subrange(43, 72) =~= "one tensor source without zip"@);
            lemma_mentions(text, "one tensor source without zip"@, 43);
        },
        Problem::OutputRank => {
            reveal_strlit("shape-preserving collect must return the same tensor rank as its input");
            reveal_strlit("collect must return the same tensor rank");
            assert(text.subrange(17, 57) =~= "collect must return the same tensor rank"@);
            lemma_mentions(text, "collect must return the same tensor rank"@, 17);
        },
        Problem::ZipRank => {
            reveal_strlit("zip inputs must have the same tensor rank");
            reveal_strlit("zip inputs must have the same tensor rank");
            assert(text.subrange(0, 41) =~= "zip inputs must have the same tensor rank"@);
            lemma_mentions(text, "zip inputs must have the same tensor rank"@, 0);
        },
        _ => {},
    }
}

/// The sentence of a problem speaks of what the problem is about.
pub proof fn law_sentences_speak_of_their_problem(problem: Problem)
    ensures
        speaks_of_its_subject(problem),
{
    match problem {
        Problem::MapBlockWithoutResult
        | Problem::ItemInMapBlock
        | Problem::MacroInMapBlock
        | Problem::UntypedLocal
        | Problem::ShadowedLocal
        | Problem::LocalNotScalar
        | Problem::LocalWithoutInitializer
        | Problem::LetElse
        | Problem::BinaryStatement
        | Problem::UnsupportedStatement
        | Problem::ForEachArguments
        | Problem::ForEachNotClosure => lemma_first_subjects(problem),
        Problem::ForEachInputs
        | Problem::ItemInLoop
        | Problem::MacroInLoop
        | Problem::UnboundedRange
        | Problem::InclusiveRangeAtMaximum
        | Problem::SumPosition
        | Problem::SumChain
        | Problem::InclusiveRangeNotLiteral
        | Problem::TargetNotLocal
        | Problem::TargetUnknown
        | Problem::TargetImmutable
        | Problem::IndexedNotPath => lemma_second_subjects(problem),
        Problem::IndexedNotSimple
        | Problem::NoLogicalPoints
        | Problem::IndexedUnknown
        | Problem::UnknownValue
        | Problem::IntrinsicNotSimple
        | Problem::UnknownIntrinsic
        | Problem::IntrinsicArguments
        | Problem::UnsupportedLiteral
        | Problem::UnsupportedUnary
        | Problem::UnsupportedCast
        | Problem::IfWithoutElse
        | Problem::UnsupportedExpression => lemma_third_subjects(problem),
        Problem::AxisNotLiteral
        | Problem::LoopBoundNotLiteral
        | Problem::AssignmentOperator
        | Problem::NotOneChain
        | Problem::SourceNotCall
        | Problem::ReceiverNotParameter
        | Problem::ReceiverNotSimple
        | Problem::UnsupportedAdapter
        | Problem::MapInputs
        | Problem::ZipPatternNotTuple
        | Problem::ZipPatternInputs
        | Problem::IndexedPattern => lemma_fourth_subjects(problem),
        Problem::PointPattern
        | Problem::PointNameTwice
        | Problem::NotSimplePattern
        | Problem::TensorWithoutArguments
        | Problem::TensorWithoutElement
        | Problem::TensorElementNotScalar
        | Problem::TensorWithoutRank
        | Problem::TensorArguments
        | Problem::ExtentWithoutRank
        | Problem::ExtentArguments
        | Problem::RankNotLiteral
        | Problem::Options => lemma_fifth_subjects(problem),
        Problem::ConstFunction
        | Problem::AsyncFunction
        | Problem::NotFreeFunction
        | Problem::UnsupportedParameter
        | Problem::OutputNotTensor
        | Problem::MapNotClosure
        | Problem::SourceCount
        | Problem::ExtentNotDirect
        | Problem::UnknownSource
        | Problem::IndexedZip
        | Problem::OutputRank
        | Problem::ZipRank => lemma_sixth_subjects(problem),
        _ => {},
    }
}

/// The sentence of an error speaks of what the error is about.
pub proof fn law_sentences_speak_of_their_error(error: Error)
    ensures
        error is NoMetalDevice ==> mentions(error.text(), "no Metal device"@),
        error is EmptyExtent ==> mentions(error.text(), "zero-sized tensors"@),
        error is ExtentOverflow ==> mentions(error.text(), "overflowed"@),
{
    let text = error.text();
    match error {
        Error::NoMetalDevice => {
            reveal_strlit("no Metal device is available");
            reveal_strlit("no Metal device");
            assert(text.subrange(0, 15) =~= "no Metal device"@);
            lemma_mentions(text, "no Metal device"@, 0);
        },
        Error::EmptyExtent => {
            reveal_strlit("zero-sized tensors are not supported yet");
            reveal_strlit("zero-sized tensors");
            assert(text.subrange(0, 18) =~= "zero-sized tensors"@);
            lemma_mentions(text, "zero-sized tensors"@, 0);
        },
        Error::ExtentOverflow => {
            reveal_strlit("tensor extent or byte size overflowed");
            reveal_strlit("overflowed");
            assert(text.subrange(27, 37) =~= "overflowed"@);
            lemma_mentions(text, "overflowed"@, 27);
        },
        _ => {},
    }
}

/// The sentence of a number that cannot be read speaks of why.
pub proof fn law_sentences_speak_of_their_number(error: NumberError)
    ensures
        error is Empty ==> mentions(error.text(), "empty string"@),
        error is InvalidDigit ==> mentions(error.text(), "invalid digit"@),
        error is TooLarge ==> mentions(error.text(), "too large"@),
        Problem::Number(error).text() == error.text(),
{
    let text = error.text();
    match error {
        NumberError::Empty => {
            reveal_strlit("cannot parse integer from empty string");
            reveal_strlit("empty string");
            assert(text.subrange(26, 38) =~= "empty string"@);
            lemma_mentions(text, "empty string"@, 26);
        },
        NumberError::InvalidDigit => {
            reveal_strlit("invalid digit found in string");
            reveal_strlit("invalid digit");
            assert(text.subrange(0, 13) =~= "invalid digit"@);
            lemma_mentions(text, "invalid digit"@, 0);
        },
        NumberError::TooLarge => {
            reveal_strlit("number too large to fit in target type");
            reveal_strlit("too large");
            assert(text.subrange(7, 16) =~= "too large"@);
            lemma_mentions(text, "too large"@, 7);
        },
    }
}

} // verus!
