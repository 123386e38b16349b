//! Errors of tensors and of their execution.
use vstd::prelude::*;
use vstd::string::*;

use crate::text::{decimal, push_decimal, tells_both, tells_first, wordy};

verus! {

/// Why a tensor could not be made, or a kernel could not be run.
#[derive(Debug)]
pub enum Error {
    NoMetalDevice,
    EmptyExtent,
    ExtentOverflow,
    TensorTooLarge { elements: usize },
    ShapeMismatch { expected: usize, actual: usize },
    ShaderCompile(String),
    FunctionLookup(String),
    PipelineCreation(String),
    CommandFailed(String),
}

impl Error {
    /// The sentence that describes the error.
    pub open spec fn text(self) -> Seq<char> {
        match self {
            Error::NoMetalDevice => "no Metal device is available"@,
            Error::EmptyExtent => "zero-sized tensors are not supported yet"@,
            Error::ExtentOverflow => "tensor extent or byte size overflowed"@,
            Error::TensorTooLarge { elements } => "tensor has "@ + decimal(elements as nat)
                + " elements; the first runtime slice supports at most u32::MAX"@,
            Error::ShapeMismatch { expected, actual } => "shape mismatch: expected "@
                + decimal(expected as nat) + " elements, got "@ + decimal(actual as nat),
            Error::ShaderCompile(error) => "Metal shader compilation failed: "@ + error@,
            Error::FunctionLookup(error) => "Metal kernel lookup failed: "@ + error@,
            Error::PipelineCreation(error) => "Metal pipeline creation failed: "@ + error@,
            Error::CommandFailed(status) => "Metal command failed: "@ + status@,
        }
    }

    /// Describes the error in one sentence.
    pub fn message(&self) -> (message: String)
        ensures
            message@ == self.text(),
    {
        let mut message = String::new();
        match self {
            Error::NoMetalDevice => message.append("no Metal device is available"),
            Error::EmptyExtent => message.append("zero-sized tensors are not supported yet"),
            Error::ExtentOverflow => message.append("tensor extent or byte size overflowed"),
            Error::TensorTooLarge { elements } => {
                message.append("tensor has ");
                push_decimal(&mut message, *elements as u128);
                message.append(" elements; the first runtime slice supports at most u32::MAX");
            },
            Error::ShapeMismatch { expected, actual } => {
                message.append("shape mismatch: expected ");
                push_decimal(&mut message, *expected as u128);
                message.append(" elements, got ");
                push_decimal(&mut message, *actual as u128);
            },
            Error::ShaderCompile(error) => {
                message.append("Metal shader compilation failed: ");
                message.append(error.as_str());
            },
            Error::FunctionLookup(error) => {
                message.append("Metal kernel lookup failed: ");
                message.append(error.as_str());
            },
            Error::PipelineCreation(error) => {
                message.append("Metal pipeline creation failed: ");
                message.append(error.as_str());
            },
            Error::CommandFailed(status) => {
                message.append("Metal command failed: ");
                message.append(status.as_str());
            },
        }
        assert(message@ =~= self.text());
        message
    }
}

/// An error that has numbers tells them: how many elements there are, and how many were expected
/// before how many there are.
pub proof fn law_errors_tell_their_numbers(elements: usize, expected: usize, actual: usize)
    ensures
        tells_first(Error::TensorTooLarge { elements }.text(), elements as nat),
        tells_both(
            Error::ShapeMismatch { expected, actual }.text(),
            expected as nat,
            actual as nat,
        ),
{
    reveal_strlit("tensor has ");
    reveal_strlit(" elements; the first runtime slice supports at most u32::MAX");
    reveal_strlit("shape mismatch: expected ");
    reveal_strlit(" elements, got ");
    let after = " elements; the first runtime slice supports at most u32::MAX"@;
    assert(wordy("tensor has "@));
    assert(after[0] == ' ');
    assert("tensor has "@ + decimal(elements as nat) + after == Error::TensorTooLarge {
        elements,
    }.text());
    assert(wordy("shape mismatch: expected "@));
    assert(wordy(" elements, got "@));
    let none = Seq::<char>::empty();
    let text = Error::ShapeMismatch { expected, actual }.text();
    assert("shape mismatch: expected "@ + decimal(expected as nat) + " elements, got "@ + decimal(
        actual as nat,
    ) + none =~= text);
}

} // verus!
