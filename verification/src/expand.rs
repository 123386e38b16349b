//! Compiling a `#[parallel]` function to a kernel and what its dispatch needs.
use vstd::prelude::*;

use crate::captures::captures_of;
use crate::diagnostic::{ChainMethod, Diagnostic, Problem};
use crate::expr::Capture;
use crate::host::{
    chain_expression, collect_host_statements, host_declares, host_statements, is_host_local,
    parse_chain_expression, HostStatement,
};
use crate::kernel::{
    scalar_views, ElementKernel, ElementKernelView, ScalarParam, ScalarParamView,
};
use crate::lower::{
    lower_device_body, lowered_body, CapturedTensor, DeviceContext, Scope,
};
use crate::names::{
    kernel_msl_identifier, kernel_text, scalar_msl_identifier, scalar_text, NameMap,
};
use crate::scoping::lemma_chain_is_closed;
use crate::source::{
    ExprKind, Ident, RankExpr, SourceArgument, SourceBlock, SourceClosure, SourceFunction,
    SourceOutput, Span,
};
use crate::statement::DeviceBlockView;
use crate::syntax::{
    bindings_of, closure_bindings, expect_method, extent_of, literal_rank, method_call_of,
    parse_extent_type, parse_scalar_type, parse_sources, parse_tensor_type, pattern_ident,
    problem_at, rank_literal, report, scalar_of, simple_pat_ident, sources_of, tensor_of,
    ClosureBindingsView, ClosureMode, IteratorSource, TensorType,
};
use crate::text::same_text;
use crate::types::ScalarType;

verus! {

/// What is said of the arguments of a `#[parallel]` attribute, which takes none.
pub open spec fn checked_options(are_empty: bool, call_site: Span) -> Result<(), Diagnostic> {
    if are_empty {
        Ok(())
    } else {
        problem_at(call_site, Problem::Options)
    }
}

/// An attribute is refused exactly where it has arguments, at the place where it stands.
pub proof fn law_attributes_take_no_arguments(are_empty: bool, call_site: Span)
    ensures
        checked_options(are_empty, call_site) is Ok <==> are_empty,
        checked_options(are_empty, call_site) matches Err(diagnostic) ==> diagnostic.span
            == call_site && diagnostic.problem is Options,
{
}

/// Refuses the arguments of a `#[parallel]` attribute, which takes none.
pub fn check_options(are_empty: bool, call_site: Span) -> (checked: Result<(), Diagnostic>)
    ensures
        checked == if are_empty {
            Ok(())
        } else {
            problem_at(call_site, Problem::Options)
        },
        checked == checked_options(are_empty, call_site),
{
    if are_empty {
        Ok(())
    } else {
        report(call_site, Problem::Options)
    }
}

/// A parameter that is a tensor.
#[derive(Debug, Clone, Copy)]
pub struct TensorParameter<'a> {
    pub ident: &'a Ident,
    pub ty: TensorType<'a>,
}

/// A parameter that is an extent.
#[derive(Debug, Clone, Copy)]
pub struct ExtentParameter<'a> {
    pub ident: &'a Ident,
    pub rank: &'a RankExpr,
}

/// A parameter that is a scalar.
#[derive(Debug, Clone, Copy)]
pub struct ScalarParameter<'a> {
    pub ident: &'a Ident,
    pub ty: ScalarType,
}

/// A parameter of a `#[parallel]` function.
#[derive(Debug, Clone, Copy)]
pub enum Parameter<'a> {
    Tensor(TensorParameter<'a>),
    Extent(ExtentParameter<'a>),
    Scalar(ScalarParameter<'a>),
}

/// The parameter that an argument of the signature declares.
pub open spec fn parameter_of<'a>(argument: &'a SourceArgument) -> Result<
    Parameter<'a>,
    Diagnostic,
> {
    match argument {
        SourceArgument::Receiver(span) => problem_at(*span, Problem::NotFreeFunction),
        SourceArgument::Typed { pattern, ty } => match pattern_ident(pattern) {
            Ok(ident) => match tensor_of(ty) {
                Ok(Some(tensor)) => Ok(Parameter::Tensor(TensorParameter { ident, ty: tensor })),
                Ok(None) => match extent_of(ty) {
                    Ok(Some(rank)) => Ok(Parameter::Extent(ExtentParameter { ident, rank })),
                    Ok(None) => match scalar_of(*ty) {
                        Some(scalar) => Ok(
                            Parameter::Scalar(ScalarParameter { ident, ty: scalar }),
                        ),
                        None => problem_at(ty.span, Problem::UnsupportedParameter),
                    },
                    Err(diagnostic) => Err(diagnostic),
                },
                Err(diagnostic) => Err(diagnostic),
            },
            Err(diagnostic) => Err(diagnostic),
        },
    }
}

/// The parameter that an argument of the signature declares.
pub fn parse_parameter<'a>(argument: &'a SourceArgument) -> (parameter: Result<
    Parameter<'a>,
    Diagnostic,
>)
    ensures
        parameter == parameter_of(argument),
{
    match argument {
        SourceArgument::Receiver(span) => report(*span, Problem::NotFreeFunction),
        SourceArgument::Typed { pattern, ty } => {
            let ident = match simple_pat_ident(pattern) {
                Ok(ident) => ident,
                Err(diagnostic) => return Err(diagnostic),
            };
            match parse_tensor_type(ty) {
                Ok(Some(tensor)) => {
                    return Ok(Parameter::Tensor(TensorParameter { ident, ty: tensor }));
                },
                Ok(None) => {},
                Err(diagnostic) => return Err(diagnostic),
            }
            match parse_extent_type(ty) {
                Ok(Some(rank)) => {
                    return Ok(Parameter::Extent(ExtentParameter { ident, rank }));
                },
                Ok(None) => {},
                Err(diagnostic) => return Err(diagnostic),
            }
            match parse_scalar_type(ty) {
                Some(scalar) => Ok(Parameter::Scalar(ScalarParameter { ident, ty: scalar })),
                None => report(ty.span, Problem::UnsupportedParameter),
            }
        },
    }
}

/// The parameters that the first `count` arguments of the signature declare.
pub open spec fn parameters_of<'a>(arguments: Seq<SourceArgument>, count: nat) -> Result<
    Seq<Parameter<'a>>,
    Diagnostic,
>
    decreases count,
{
    if count == 0 {
        Ok(Seq::empty())
    } else {
        match parameters_of(arguments, (count - 1) as nat) {
            Ok(parameters) => match parameter_of(&arguments[count - 1]) {
                Ok(parameter) => Ok(parameters.push(parameter)),
                Err(diagnostic) => Err(diagnostic),
            },
            Err(diagnostic) => Err(diagnostic),
        }
    }
}

proof fn lemma_parameters_fail(arguments: Seq<SourceArgument>, count: nat, total: nat)
    requires
        count <= total,
        parameters_of(arguments, count) is Err,
    ensures
        parameters_of(arguments, total) == parameters_of(arguments, count),
    decreases total,
{
    if count < total {
        lemma_parameters_fail(arguments, count, (total - 1) as nat);
    }
}

/// The parameters that a signature declares.
pub fn parse_parameters<'a>(arguments: &'a Vec<SourceArgument>) -> (parameters: Result<
    Vec<Parameter<'a>>,
    Diagnostic,
>)
    ensures
        match (parameters, parameters_of(arguments@, arguments@.len())) {
            (Ok(parameters), Ok(expected)) => parameters@ == expected,
            (Err(diagnostic), Err(expected)) => diagnostic == expected,
            _ => false,
        },
{
    let mut parameters: Vec<Parameter<'a>> = Vec::new();
    let mut index: usize = 0;
    while index < arguments.len()
        invariant
            index <= arguments@.len(),
            parameters_of(arguments@, index as nat) == Ok::<Seq<Parameter<'a>>, Diagnostic>(
                parameters@,
            ),
        decreases arguments@.len() - index,
    {
        match parse_parameter(&arguments[index]) {
            Ok(parameter) => parameters.push(parameter),
            Err(diagnostic) => {
                proof {
                    lemma_parameters_fail(arguments@, (index + 1) as nat, arguments@.len());
                }
                return Err(diagnostic);
            },
        }
        index += 1;
    }
    Ok(parameters)
}

/// The name of a parameter.
pub open spec fn parameter_name<'a>(parameter: Parameter<'a>) -> Seq<char> {
    match parameter {
        Parameter::Tensor(tensor) => tensor.ident.name@,
        Parameter::Extent(extent) => extent.ident.name@,
        Parameter::Scalar(scalar) => scalar.ident.name@,
    }
}

/// The parameters that the chain of a body sees: those that no host local hides.
pub open spec fn visible_parameters<'a>(
    parameters: Seq<Parameter<'a>>,
    block: SourceBlock,
) -> Seq<Parameter<'a>>
    decreases parameters.len(),
{
    if parameters.len() == 0 {
        Seq::empty()
    } else {
        let visible = visible_parameters(parameters.drop_last(), block);
        if is_host_local(block, parameter_name(parameters.last())) {
            visible
        } else {
            visible.push(parameters.last())
        }
    }
}

/// The parameters that the chain of a body sees.
pub fn keep_visible<'a>(parameters: &Vec<Parameter<'a>>, block: &SourceBlock) -> (visible: Vec<
    Parameter<'a>,
>)
    ensures
        visible@ == visible_parameters(parameters@, *block),
{
    let mut visible: Vec<Parameter<'a>> = Vec::new();
    let mut index: usize = 0;
    while index < parameters.len()
        invariant
            index <= parameters@.len(),
            visible@ == visible_parameters(parameters@.take(index as int), *block),
        decreases parameters@.len() - index,
    {
        assert(parameters@.take(index + 1).drop_last() =~= parameters@.take(index as int));
        let parameter = parameters[index];
        let name: &str = match parameter {
            Parameter::Tensor(tensor) => tensor.ident.name.as_str(),
            Parameter::Extent(extent) => extent.ident.name.as_str(),
            Parameter::Scalar(scalar) => scalar.ident.name.as_str(),
        };
        if !host_declares(block, name) {
            visible.push(parameter);
        }
        index += 1;
    }
    assert(parameters@.take(parameters@.len() as int) =~= parameters@);
    visible
}

/// The tensor parameter of a name, the last one where there are more.
pub open spec fn tensor_named<'a>(parameters: Seq<Parameter<'a>>, name: Seq<char>) -> Option<
    TensorParameter<'a>,
>
    decreases parameters.len(),
{
    if parameters.len() == 0 {
        None
    } else {
        match parameters.last() {
            Parameter::Tensor(tensor) => if tensor.ident.name@ == name {
                Some(tensor)
            } else {
                tensor_named(parameters.drop_last(), name)
            },
            _ => tensor_named(parameters.drop_last(), name),
        }
    }
}

/// The extent parameter of a name, the last one where there are more.
pub open spec fn extent_named<'a>(parameters: Seq<Parameter<'a>>, name: Seq<char>) -> Option<
    ExtentParameter<'a>,
>
    decreases parameters.len(),
{
    if parameters.len() == 0 {
        None
    } else {
        match parameters.last() {
            Parameter::Extent(extent) => if extent.ident.name@ == name {
                Some(extent)
            } else {
                extent_named(parameters.drop_last(), name)
            },
            _ => extent_named(parameters.drop_last(), name),
        }
    }
}

/// The scalar parameters, in the order of the signature.
pub open spec fn scalars_of<'a>(parameters: Seq<Parameter<'a>>) -> Seq<ScalarParameter<'a>>
    decreases parameters.len(),
{
    if parameters.len() == 0 {
        Seq::empty()
    } else {
        match parameters.last() {
            Parameter::Scalar(scalar) => scalars_of(parameters.drop_last()).push(scalar),
            _ => scalars_of(parameters.drop_last()),
        }
    }
}

/// The tensor parameters, in the order of the signature.
pub open spec fn tensors_of<'a>(parameters: Seq<Parameter<'a>>) -> Seq<TensorParameter<'a>>
    decreases parameters.len(),
{
    if parameters.len() == 0 {
        Seq::empty()
    } else {
        match parameters.last() {
            Parameter::Tensor(tensor) => tensors_of(parameters.drop_last()).push(tensor),
            _ => tensors_of(parameters.drop_last()),
        }
    }
}

fn find_tensor<'a>(parameters: &Vec<Parameter<'a>>, name: &str) -> (found: Option<
    TensorParameter<'a>,
>)
    ensures
        found == tensor_named(parameters@, name@),
{
    let mut count: usize = parameters.len();
    assert(parameters@.take(count as int) =~= parameters@);
    while count > 0
        invariant
            count <= parameters@.len(),
            tensor_named(parameters@, name@) == tensor_named(parameters@.take(count as int), name@),
        decreases count,
    {
        assert(parameters@.take(count as int).drop_last() =~= parameters@.take(count - 1));
        count -= 1;
        if let Parameter::Tensor(tensor) = parameters[count] {
            if same_text(tensor.ident.name.as_str(), name) {
                return Some(tensor);
            }
        }
    }
    None
}

fn find_extent<'a>(parameters: &Vec<Parameter<'a>>, name: &str) -> (found: Option<
    ExtentParameter<'a>,
>)
    ensures
        found == extent_named(parameters@, name@),
{
    let mut count: usize = parameters.len();
    assert(parameters@.take(count as int) =~= parameters@);
    while count > 0
        invariant
            count <= parameters@.len(),
            extent_named(parameters@, name@) == extent_named(parameters@.take(count as int), name@),
        decreases count,
    {
        assert(parameters@.take(count as int).drop_last() =~= parameters@.take(count - 1));
        count -= 1;
        if let Parameter::Extent(extent) = parameters[count] {
            if same_text(extent.ident.name.as_str(), name) {
                return Some(extent);
            }
        }
    }
    None
}

fn collect_scalars<'a>(parameters: &Vec<Parameter<'a>>) -> (scalars: Vec<ScalarParameter<'a>>)
    ensures
        scalars@ == scalars_of(parameters@),
{
    let mut scalars: Vec<ScalarParameter<'a>> = Vec::new();
    let mut index: usize = 0;
    while index < parameters.len()
        invariant
            index <= parameters@.len(),
            scalars@ == scalars_of(parameters@.take(index as int)),
        decreases parameters@.len() - index,
    {
        assert(parameters@.take(index + 1).drop_last() =~= parameters@.take(index as int));
        if let Parameter::Scalar(scalar) = parameters[index] {
            scalars.push(scalar);
        }
        index += 1;
    }
    assert(parameters@.take(parameters@.len() as int) =~= parameters@);
    scalars
}

fn collect_tensors<'a>(parameters: &Vec<Parameter<'a>>) -> (tensors: Vec<TensorParameter<'a>>)
    ensures
        tensors@ == tensors_of(parameters@),
{
    let mut tensors: Vec<TensorParameter<'a>> = Vec::new();
    let mut index: usize = 0;
    while index < parameters.len()
        invariant
            index <= parameters@.len(),
            tensors@ == tensors_of(parameters@.take(index as int)),
        decreases parameters@.len() - index,
    {
        assert(parameters@.take(index + 1).drop_last() =~= parameters@.take(index as int));
        if let Parameter::Tensor(tensor) = parameters[index] {
            tensors.push(tensor);
        }
        index += 1;
    }
    assert(parameters@.take(parameters@.len() as int) =~= parameters@);
    tensors
}

/// The tensor type that a function returns.
pub open spec fn output_of<'a>(function: &'a SourceFunction) -> Result<TensorType<'a>, Diagnostic> {
    match &function.output {
        SourceOutput::Type(ty) => match tensor_of(ty) {
            Ok(Some(tensor)) => Ok(tensor),
            Ok(None) => problem_at(ty.span, Problem::OutputNotTensor),
            Err(diagnostic) => Err(diagnostic),
        },
        SourceOutput::Unit => problem_at(function.signature_span, Problem::OutputNotTensor),
    }
}

/// The tensor type that a function returns.
pub fn parse_output<'a>(function: &'a SourceFunction) -> (output: Result<
    TensorType<'a>,
    Diagnostic,
>)
    ensures
        output == output_of(function),
{
    match &function.output {
        SourceOutput::Type(ty) => match parse_tensor_type(ty) {
            Ok(Some(tensor)) => Ok(tensor),
            Ok(None) => report(ty.span, Problem::OutputNotTensor),
            Err(diagnostic) => Err(diagnostic),
        },
        SourceOutput::Unit => report(function.signature_span, Problem::OutputNotTensor),
    }
}

/// What the parallel iterator chain of a body says.
#[derive(Debug)]
pub struct Chain<'a> {
    pub sources: Vec<IteratorSource<'a>>,
    /// The tokens of the sources.
    pub sources_span: Span,
    pub closure: &'a SourceClosure,
}

/// What a chain is, with its sources as a sequence.
#[verifier::ext_equal]
pub ghost struct ChainView<'a> {
    pub sources: Seq<IteratorSource<'a>>,
    pub sources_span: Span,
    pub closure: &'a SourceClosure,
}

impl<'a> View for Chain<'a> {
    type V = ChainView<'a>;

    open spec fn view(&self) -> ChainView<'a> {
        ChainView {
            sources: self.sources@,
            sources_span: self.sources_span,
            closure: self.closure,
        }
    }
}

/// The chain of one or two sources, a map and a collect that a body ends in.
pub open spec fn chain_of<'a>(block: &'a SourceBlock) -> Result<ChainView<'a>, Diagnostic> {
    match chain_expression(block) {
        Ok(tail) => match method_call_of(tail, ChainMethod::Collecting) {
            Ok(collect) => match method_call_of(collect.receiver, ChainMethod::Mapping) {
                Ok(map) => match &map.arguments@[0].kind {
                    ExprKind::Closure(closure) => match sources_of(map.receiver) {
                        Ok(sources) => if 1 <= sources.len() <= 2 {
                            Ok(ChainView { sources, sources_span: map.receiver.span, closure })
                        } else {
                            problem_at(map.receiver.span, Problem::SourceCount)
                        },
                        Err(diagnostic) => Err(diagnostic),
                    },
                    _ => problem_at(map.arguments@[0].span, Problem::MapNotClosure),
                },
                Err(diagnostic) => Err(diagnostic),
            },
            Err(diagnostic) => Err(diagnostic),
        },
        Err(diagnostic) => Err(diagnostic),
    }
}

/// The chain of one or two sources, a map and a collect that a body ends in.
pub fn parse_chain<'a>(block: &'a SourceBlock) -> (chain: Result<Chain<'a>, Diagnostic>)
    ensures
        match (chain, chain_of(block)) {
            (Ok(chain), Ok(expected)) => chain@ == expected,
            (Err(diagnostic), Err(expected)) => diagnostic == expected,
            _ => false,
        },
{
    let tail = match parse_chain_expression(block) {
        Ok(tail) => tail,
        Err(diagnostic) => return Err(diagnostic),
    };
    let collect = match expect_method(tail, ChainMethod::Collecting) {
        Ok(collect) => collect,
        Err(diagnostic) => return Err(diagnostic),
    };
    let map = match expect_method(collect.receiver, ChainMethod::Mapping) {
        Ok(map) => map,
        Err(diagnostic) => return Err(diagnostic),
    };
    let closure = match &map.arguments[0].kind {
        ExprKind::Closure(closure) => closure,
        _ => return report(map.arguments[0].span, Problem::MapNotClosure),
    };
    let sources: Vec<IteratorSource<'a>> = match parse_sources(map.receiver) {
        Ok(sources) => sources,
        Err(diagnostic) => return Err(diagnostic),
    };
    if sources.len() == 0 || sources.len() > 2 {
        return report(map.receiver.span, Problem::SourceCount);
    }
    Ok(Chain { sources, sources_span: map.receiver.span, closure })
}

/// What a kernel runs over: the elements of tensors, or the points of an extent.
#[derive(Debug)]
pub struct Domain<'a> {
    pub inputs: Vec<TensorParameter<'a>>,
    pub extent: Option<ExtentParameter<'a>>,
}

/// What a domain is, with its inputs as a sequence.
#[verifier::ext_equal]
pub ghost struct DomainView<'a> {
    pub inputs: Seq<TensorParameter<'a>>,
    pub extent: Option<ExtentParameter<'a>>,
}

impl<'a> View for Domain<'a> {
    type V = DomainView<'a>;

    open spec fn view(&self) -> DomainView<'a> {
        DomainView { inputs: self.inputs@, extent: self.extent }
    }
}

impl<'a> DomainView<'a> {
    /// A domain is tensors or an extent, not both and not neither.
    pub open spec fn wf(self) -> bool {
        if self.extent is Some {
            self.inputs.len() == 0
        } else {
            1 <= self.inputs.len() <= 2
        }
    }

    /// The rank of the points of the domain.
    pub open spec fn rank(self) -> &'a RankExpr {
        match self.extent {
            Some(extent) => extent.rank,
            None => self.inputs[0].ty.rank,
        }
    }
}

/// The tensors that the first `count` sources name.
pub open spec fn inputs_of<'a>(
    sources: Seq<IteratorSource<'a>>,
    parameters: Seq<Parameter<'a>>,
    block: SourceBlock,
    count: nat,
) -> Result<Seq<TensorParameter<'a>>, Diagnostic>
    decreases count,
{
    if count == 0 {
        Ok(Seq::empty())
    } else {
        match inputs_of(sources, parameters, block, (count - 1) as nat) {
            Ok(inputs) => {
                let ident = sources[count - 1].ident;
                match tensor_named(parameters, ident.name@) {
                    Some(tensor) => Ok(inputs.push(tensor)),
                    None => if extent_named(parameters, ident.name@) is Some || is_host_local(
                        block,
                        ident.name@,
                    ) {
                        problem_at(ident.span, Problem::ExtentNotDirect)
                    } else {
                        problem_at(ident.span, Problem::UnknownSource)
                    },
                }
            },
            Err(diagnostic) => Err(diagnostic),
        }
    }
}

/// Whether one of the sources gives points with its elements.
pub open spec fn any_indexed<'a>(sources: Seq<IteratorSource<'a>>) -> bool {
    exists|i: int| 0 <= i < sources.len() && (#[trigger] sources[i]).indexed
}

/// The extent that the sources are, where they are one extent whose points are asked for. A host
/// local is an extent of the output's rank.
pub open spec fn extent_source<'a>(
    sources: Seq<IteratorSource<'a>>,
    parameters: Seq<Parameter<'a>>,
    block: SourceBlock,
    output: TensorType<'a>,
) -> Option<ExtentParameter<'a>> {
    if sources.len() == 1 && !sources[0].indexed {
        let ident = sources[0].ident;
        if is_host_local(block, ident.name@) {
            Some(ExtentParameter { ident, rank: output.rank })
        } else if tensor_named(parameters, ident.name@) is None {
            extent_named(parameters, ident.name@)
        } else {
            None
        }
    } else {
        None
    }
}

/// What the sources of a chain make the kernel run over.
pub open spec fn domain_of<'a>(
    chain: ChainView<'a>,
    parameters: Seq<Parameter<'a>>,
    block: SourceBlock,
    output: TensorType<'a>,
) -> Result<DomainView<'a>, Diagnostic> {
    match extent_source(chain.sources, parameters, block, output) {
        Some(extent) => Ok(DomainView { inputs: Seq::empty(), extent: Some(extent) }),
        None => match inputs_of(chain.sources, parameters, block, chain.sources.len()) {
            Ok(inputs) => if any_indexed(chain.sources) && chain.sources.len() != 1 {
                problem_at(chain.sources_span, Problem::IndexedZip)
            } else {
                Ok(DomainView { inputs, extent: None })
            },
            Err(diagnostic) => Err(diagnostic),
        },
    }
}

proof fn lemma_inputs_fail<'a>(
    sources: Seq<IteratorSource<'a>>,
    parameters: Seq<Parameter<'a>>,
    block: SourceBlock,
    count: nat,
    total: nat,
)
    requires
        count <= total,
        inputs_of(sources, parameters, block, count) is Err,
    ensures
        inputs_of(sources, parameters, block, total) == inputs_of(
            sources,
            parameters,
            block,
            count,
        ),
    decreases total,
{
    if count < total {
        lemma_inputs_fail(sources, parameters, block, count, (total - 1) as nat);
    }
}

/// There is one input for each source.
pub proof fn lemma_inputs_len<'a>(
    sources: Seq<IteratorSource<'a>>,
    parameters: Seq<Parameter<'a>>,
    block: SourceBlock,
    count: nat,
)
    ensures
        inputs_of(sources, parameters, block, count) matches Ok(inputs) ==> inputs.len() == count,
    decreases count,
{
    if count > 0 {
        lemma_inputs_len(sources, parameters, block, (count - 1) as nat);
    }
}

fn resolve_inputs<'a>(
    sources: &Vec<IteratorSource<'a>>,
    parameters: &Vec<Parameter<'a>>,
    block: &SourceBlock,
) -> (inputs: Result<Vec<TensorParameter<'a>>, Diagnostic>)
    ensures
        match (inputs, inputs_of(sources@, parameters@, *block, sources@.len())) {
            (Ok(inputs), Ok(expected)) => inputs@ == expected,
            (Err(diagnostic), Err(expected)) => diagnostic == expected,
            _ => false,
        },
{
    let mut inputs: Vec<TensorParameter<'a>> = Vec::new();
    let mut index: usize = 0;
    while index < sources.len()
        invariant
            index <= sources@.len(),
            inputs_of(sources@, parameters@, *block, index as nat) == Ok::<
                Seq<TensorParameter<'a>>,
                Diagnostic,
            >(inputs@),
        decreases sources@.len() - index,
    {
        let ident = sources[index].ident;
        match find_tensor(parameters, ident.name.as_str()) {
            Some(tensor) => inputs.push(tensor),
            None => {
                proof {
                    lemma_inputs_fail(
                        sources@,
                        parameters@,
                        *block,
                        (index + 1) as nat,
                        sources@.len(),
                    );
                }
                return if find_extent(parameters, ident.name.as_str()).is_some() || host_declares(
                    block,
                    ident.name.as_str(),
                ) {
                    report(ident.span, Problem::ExtentNotDirect)
                } else {
                    report(ident.span, Problem::UnknownSource)
                };
            },
        }
        index += 1;
    }
    Ok(inputs)
}

fn has_indexed<'a>(sources: &Vec<IteratorSource<'a>>) -> (found: bool)
    ensures
        found == any_indexed(sources@),
{
    let mut index: usize = 0;
    while index < sources.len()
        invariant
            index <= sources@.len(),
            forall|i: int| 0 <= i < index ==> !(#[trigger] sources@[i]).indexed,
        decreases sources@.len() - index,
    {
        if sources[index].indexed {
            return true;
        }
        index += 1;
    }
    false
}

/// What the sources of a chain make the kernel run over.
pub fn resolve_domain<'a>(
    chain: &Chain<'a>,
    parameters: &Vec<Parameter<'a>>,
    block: &SourceBlock,
    output: TensorType<'a>,
) -> (domain: Result<Domain<'a>, Diagnostic>)
    ensures
        match (domain, domain_of(chain@, parameters@, *block, output)) {
            (Ok(domain), Ok(expected)) => domain@ == expected,
            (Err(diagnostic), Err(expected)) => diagnostic == expected,
            _ => false,
        },
{
    if chain.sources.len() == 1 && !chain.sources[0].indexed {
        let ident = chain.sources[0].ident;
        let name: &str = ident.name.as_str();
        if host_declares(block, name) {
            let extent = ExtentParameter { ident, rank: output.rank };
            return Ok(Domain { inputs: Vec::new(), extent: Some(extent) });
        }
        if find_tensor(parameters, name).is_none() {
            if let Some(extent) = find_extent(parameters, name) {
                return Ok(Domain { inputs: Vec::new(), extent: Some(extent) });
            }
        }
    }
    let inputs: Vec<TensorParameter<'a>> = match resolve_inputs(
        &chain.sources,
        parameters,
        block,
    ) {
        Ok(inputs) => inputs,
        Err(diagnostic) => return Err(diagnostic),
    };
    if has_indexed(&chain.sources) && chain.sources.len() != 1 {
        return report(chain.sources_span, Problem::IndexedZip);
    }
    Ok(Domain { inputs, extent: None })
}

/// The domain of a chain is well-formed.
pub proof fn lemma_domain_wf<'a>(
    block: &'a SourceBlock,
    parameters: Seq<Parameter<'a>>,
    output: TensorType<'a>,
)
    ensures
        chain_of(block) matches Ok(chain) ==> (domain_of(
            chain,
            parameters,
            *block,
            output,
        ) matches Ok(domain) ==> domain.wf() && (domain.extent is None ==> domain.inputs.len()
            == chain.sources.len())),
{
    if let Ok(chain) = chain_of(block) {
        lemma_inputs_len(chain.sources, parameters, *block, chain.sources.len());
    }
}

/// Whether a map over a domain keeps the rank: of two inputs, and from the input to the output.
pub open spec fn rank_kept<'a>(
    domain: DomainView<'a>,
    output: TensorType<'a>,
    output_span: Span,
) -> Result<(), Diagnostic> {
    if output.rank.text@ != domain.rank().text@ {
        problem_at(output_span, Problem::OutputRank)
    } else if domain.inputs.len() == 2 && domain.inputs[1].ty.rank.text@ != domain.rank().text@ {
        problem_at(domain.inputs[1].ident.span, Problem::ZipRank)
    } else {
        Ok(())
    }
}

fn domain_rank<'a>(domain: &Domain<'a>) -> (rank: &'a RankExpr)
    requires
        domain@.wf(),
    ensures
        rank == domain@.rank(),
{
    match domain.extent {
        Some(extent) => extent.rank,
        None => domain.inputs[0].ty.rank,
    }
}

/// Refuses a map that does not keep the rank.
pub fn check_ranks<'a>(domain: &Domain<'a>, output: TensorType<'a>, output_span: Span) -> (checked:
    Result<(), Diagnostic>)
    requires
        domain@.wf(),
    ensures
        checked == rank_kept(domain@, output, output_span),
{
    let rank = domain_rank(domain);
    if !same_text(output.rank.text.as_str(), rank.text.as_str()) {
        return report(output_span, Problem::OutputRank);
    }
    if domain.inputs.len() == 2 {
        let second = domain.inputs[1];
        if !same_text(second.ty.rank.text.as_str(), rank.text.as_str()) {
            return report(second.ident.span, Problem::ZipRank);
        }
    }
    Ok(())
}

/// What the closure of a chain's map is given.
pub open spec fn mode_of<'a>(chain: ChainView<'a>, domain: DomainView<'a>) -> ClosureMode {
    if domain.extent is Some {
        ClosureMode::Points
    } else if any_indexed(chain.sources) {
        ClosureMode::Indexed
    } else {
        ClosureMode::Values(chain.sources.len() as usize)
    }
}

fn closure_mode<'a>(chain: &Chain<'a>, domain: &Domain<'a>) -> (mode: ClosureMode)
    ensures
        mode == mode_of(chain@, domain@),
{
    if domain.extent.is_some() {
        ClosureMode::Points
    } else if has_indexed(&chain.sources) {
        ClosureMode::Indexed
    } else {
        ClosureMode::Values(chain.sources.len())
    }
}

/// The rank of the points that a closure is given, where it is given points.
pub open spec fn point_rank_of(mode: ClosureMode, rank: RankExpr) -> Result<
    Option<usize>,
    Diagnostic,
> {
    match mode {
        ClosureMode::Values(_) => Ok(None),
        _ => match literal_rank(rank) {
            Ok(rank) => Ok(Some(rank)),
            Err(diagnostic) => Err(diagnostic),
        },
    }
}

fn point_rank(mode: ClosureMode, rank: &RankExpr) -> (point_rank: Result<Option<usize>, Diagnostic>)
    ensures
        point_rank == point_rank_of(mode, *rank),
{
    match mode {
        ClosureMode::Values(_) => Ok(None),
        _ => match rank_literal(rank) {
            Ok(rank) => Ok(Some(rank)),
            Err(diagnostic) => Err(diagnostic),
        },
    }
}

/// The types of the scalars by name, of two with one name that of the later.
pub open spec fn scalar_map<'a>(scalars: Seq<ScalarParameter<'a>>) -> Map<Seq<char>, ScalarType>
    decreases scalars.len(),
{
    if scalars.len() == 0 {
        Map::empty()
    } else {
        scalar_map(scalars.drop_last()).insert(scalars.last().ident.name@, scalars.last().ty)
    }
}

fn scalar_types<'a>(scalars: &Vec<ScalarParameter<'a>>) -> (types: NameMap<ScalarType>)
    ensures
        types@ == scalar_map(scalars@),
{
    let mut types: NameMap<ScalarType> = NameMap::new();
    let mut index: usize = 0;
    while index < scalars.len()
        invariant
            index <= scalars@.len(),
            types@ == scalar_map(scalars@.take(index as int)),
        decreases scalars@.len() - index,
    {
        assert(scalars@.take(index + 1).drop_last() =~= scalars@.take(index as int));
        types.insert(scalars[index].ident.name.clone(), scalars[index].ty);
        index += 1;
    }
    assert(scalars@.take(scalars@.len() as int) =~= scalars@);
    types
}

/// The rank that a constant gives, where it is a literal.
pub open spec fn known_rank(rank: RankExpr) -> Option<usize> {
    match literal_rank(rank) {
        Ok(rank) => Some(rank),
        Err(_) => None,
    }
}

/// The tensors as the body may capture them, by their place among the tensor parameters.
pub open spec fn captured_tensors<'a>(tensors: Seq<TensorParameter<'a>>) -> Seq<CapturedTensor> {
    Seq::new(
        tensors.len(),
        |i: int|
            CapturedTensor {
                capture: Capture { tensor: i as usize, element: tensors[i].ty.element },
                rank: known_rank(*tensors[i].ty.rank),
            },
    )
}

/// The tensors that the body may capture by name, of two with one name the later.
pub open spec fn tensor_map<'a>(tensors: Seq<TensorParameter<'a>>) -> Map<
    Seq<char>,
    CapturedTensor,
>
    decreases tensors.len(),
{
    if tensors.len() == 0 {
        Map::empty()
    } else {
        tensor_map(tensors.drop_last()).insert(
            tensors.last().ident.name@,
            captured_tensors(tensors).last(),
        )
    }
}

fn capturable_tensors<'a>(tensors: &Vec<TensorParameter<'a>>) -> (captured: NameMap<
    CapturedTensor,
>)
    ensures
        captured@ == tensor_map(tensors@),
{
    let mut captured: NameMap<CapturedTensor> = NameMap::new();
    let mut index: usize = 0;
    while index < tensors.len()
        invariant
            index <= tensors@.len(),
            captured@ == tensor_map(tensors@.take(index as int)),
        decreases tensors@.len() - index,
    {
        assert(tensors@.take(index + 1).drop_last() =~= tensors@.take(index as int));
        let tensor = tensors[index];
        let rank: Option<usize> = match rank_literal(tensor.ty.rank) {
            Ok(rank) => Some(rank),
            Err(_) => None,
        };
        let capture = Capture { tensor: index, element: tensor.ty.element };
        assert(captured_tensors(tensors@.take(index + 1)).last() == CapturedTensor {
            capture,
            rank,
        });
        captured.insert(tensor.ident.name.clone(), CapturedTensor { capture, rank });
        index += 1;
    }
    assert(tensors@.take(tensors@.len() as int) =~= tensors@);
    captured
}

/// The tensor parameters that captures name.
pub open spec fn captured_parameters<'a>(
    captures: Seq<Capture>,
    tensors: Seq<TensorParameter<'a>>,
) -> Seq<TensorParameter<'a>> {
    captures.map_values(|capture: Capture| tensors[capture.tensor as int])
}

fn find_captured_parameters<'a>(
    captures: &Vec<Capture>,
    tensors: &Vec<TensorParameter<'a>>,
) -> (captured: Vec<TensorParameter<'a>>)
    requires
        forall|i: int|
            0 <= i < captures@.len() ==> (#[trigger] captures@[i]).tensor < tensors@.len(),
    ensures
        captured@ == captured_parameters(captures@, tensors@),
{
    let mut captured: Vec<TensorParameter<'a>> = Vec::new();
    let mut index: usize = 0;
    while index < captures.len()
        invariant
            index <= captures@.len(),
            forall|i: int|
                0 <= i < captures@.len() ==> (#[trigger] captures@[i]).tensor < tensors@.len(),
            captured@ =~= captured_parameters(captures@, tensors@).take(index as int),
        decreases captures@.len() - index,
    {
        captured.push(tensors[captures[index].tensor]);
        index += 1;
    }
    captured
}

/// What the names outside the body of a map's closure stand for.
pub open spec fn scope_of<'a>(
    bindings: ClosureBindingsView,
    domain: DomainView<'a>,
    rank: Option<usize>,
    scalars: Seq<ScalarParameter<'a>>,
    tensors: Seq<TensorParameter<'a>>,
    output: TensorType<'a>,
) -> Scope {
    Scope {
        bindings: bindings.values,
        point: bindings.point,
        point_axes: bindings.point_axes,
        extents: match domain.extent {
            Some(extent) => seq![extent.ident.name@],
            None => Seq::empty(),
        },
        rank,
        scalars: scalar_map(scalars),
        tensors: tensor_map(tensors),
        output: output.element,
    }
}

/// The scalars as the kernel declares them.
pub open spec fn kernel_scalars<'a>(scalars: Seq<ScalarParameter<'a>>) -> Seq<ScalarParamView> {
    scalars.map_values(
        |scalar: ScalarParameter<'a>|
            ScalarParamView { name: scalar_text(scalar.ident.name@), ty: scalar.ty },
    )
}

/// The kernel of a function.
pub open spec fn kernel_of<'a>(
    name: Seq<char>,
    domain: DomainView<'a>,
    scalars: Seq<ScalarParameter<'a>>,
    output: TensorType<'a>,
    rank: Option<usize>,
    body: DeviceBlockView,
) -> ElementKernelView {
    ElementKernelView {
        name: kernel_text(name),
        inputs: domain.inputs.map_values(|input: TensorParameter<'a>| input.ty.element),
        scalars: kernel_scalars(scalars),
        output: output.element,
        logical_rank: rank,
        body,
    }
}

/// A compiled function: its kernel, and what its dispatch takes from the parameters.
#[derive(Debug)]
pub struct Expansion<'a> {
    pub kernel: ElementKernel,
    /// The Metal source of the kernel.
    pub source: String,
    /// The statements before the chain, which run on the host.
    pub host: Vec<HostStatement>,
    pub domain: Domain<'a>,
    /// The tensors that the body captures, each once, in the order of their first use.
    pub captures: Vec<TensorParameter<'a>>,
    pub scalars: Vec<ScalarParameter<'a>>,
    pub output: TensorType<'a>,
}

/// What a compiled function is, with its texts and lists as sequences.
#[verifier::ext_equal]
pub ghost struct ExpansionView<'a> {
    pub kernel: ElementKernelView,
    pub source: Seq<char>,
    pub host: Seq<HostStatement>,
    pub domain: DomainView<'a>,
    pub captures: Seq<TensorParameter<'a>>,
    pub scalars: Seq<ScalarParameter<'a>>,
    pub output: TensorType<'a>,
}

impl<'a> View for Expansion<'a> {
    type V = ExpansionView<'a>;

    open spec fn view(&self) -> ExpansionView<'a> {
        ExpansionView {
            kernel: self.kernel@,
            source: self.source@,
            host: self.host@,
            domain: self.domain@,
            captures: self.captures@,
            scalars: self.scalars@,
            output: self.output,
        }
    }
}

/// What a chain over a domain compiles to.
pub open spec fn expanded_chain<'a>(
    name: Seq<char>,
    host: Seq<HostStatement>,
    chain: ChainView<'a>,
    domain: DomainView<'a>,
    scalars: Seq<ScalarParameter<'a>>,
    tensors: Seq<TensorParameter<'a>>,
    output: TensorType<'a>,
) -> Result<ExpansionView<'a>, Diagnostic> {
    let mode = mode_of(chain, domain);
    match point_rank_of(mode, *domain.rank()) {
        Ok(rank) => match bindings_of(*chain.closure, mode, rank) {
            Ok(bindings) => match lowered_body(
                *chain.closure.body,
                scope_of(bindings, domain, rank, scalars, tensors, output),
            ) {
                Ok(body) => {
                    let kernel = kernel_of(name, domain, scalars, output, rank, body);
                    Ok(
                        ExpansionView {
                            kernel,
                            source: kernel.msl(),
                            host,
                            domain,
                            captures: captured_parameters(captures_of(body), tensors),
                            scalars,
                            output,
                        },
                    )
                },
                Err(diagnostic) => Err(diagnostic),
            },
            Err(diagnostic) => Err(diagnostic),
        },
        Err(diagnostic) => Err(diagnostic),
    }
}

/// What a `#[parallel]` function compiles to, or the first thing that is wrong with it.
pub open spec fn expanded<'a>(function: &'a SourceFunction) -> Result<
    ExpansionView<'a>,
    Diagnostic,
> {
    if let Some(span) = function.constness {
        problem_at(span, Problem::ConstFunction)
    } else if let Some(span) = function.asyncness {
        problem_at(span, Problem::AsyncFunction)
    } else {
        match parameters_of(function.inputs@, function.inputs@.len()) {
            Ok(parameters) => match output_of(function) {
                Ok(output) => match chain_of(&function.block) {
                    Ok(chain) => {
                        let visible = visible_parameters(parameters, function.block);
                        match domain_of(chain, visible, function.block, output) {
                            Ok(domain) => match rank_kept(domain, output, function.output_span) {
                                Ok(()) => expanded_chain(
                                    function.ident.name@,
                                    host_statements(function.block),
                                    chain,
                                    domain,
                                    scalars_of(visible),
                                    tensors_of(visible),
                                    output,
                                ),
                                Err(diagnostic) => Err(diagnostic),
                            },
                            Err(diagnostic) => Err(diagnostic),
                        }
                    },
                    Err(diagnostic) => Err(diagnostic),
                },
                Err(diagnostic) => Err(diagnostic),
            },
            Err(diagnostic) => Err(diagnostic),
        }
    }
}

fn kernel_inputs<'a>(inputs: &Vec<TensorParameter<'a>>) -> (elements: Vec<ScalarType>)
    ensures
        elements@ == inputs@.map_values(|input: TensorParameter<'a>| input.ty.element),
{
    let mut elements: Vec<ScalarType> = Vec::new();
    let mut index: usize = 0;
    while index < inputs.len()
        invariant
            index <= inputs@.len(),
            elements@.len() == index,
            forall|i: int| 0 <= i < index ==> #[trigger] elements@[i] == inputs@[i].ty.element,
        decreases inputs@.len() - index,
    {
        elements.push(inputs[index].ty.element);
        index += 1;
    }
    elements
}

fn declare_scalars<'a>(scalars: &Vec<ScalarParameter<'a>>) -> (declared: Vec<ScalarParam>)
    ensures
        scalar_views(declared@) == kernel_scalars(scalars@),
{
    let mut declared: Vec<ScalarParam> = Vec::new();
    let mut index: usize = 0;
    while index < scalars.len()
        invariant
            index <= scalars@.len(),
            declared@.len() == index,
            forall|i: int|
                0 <= i < index ==> (#[trigger] declared@[i])@ == kernel_scalars(scalars@)[i],
        decreases scalars@.len() - index,
    {
        declared.push(
            ScalarParam {
                name: scalar_msl_identifier(scalars[index].ident.name.as_str()),
                ty: scalars[index].ty,
            },
        );
        index += 1;
    }
    assert(scalar_views(declared@) =~= kernel_scalars(scalars@));
    declared
}

fn expand_chain<'a>(
    name: &str,
    host: Vec<HostStatement>,
    chain: &Chain<'a>,
    domain: Domain<'a>,
    scalars: Vec<ScalarParameter<'a>>,
    tensors: &Vec<TensorParameter<'a>>,
    output: TensorType<'a>,
) -> (expansion: Result<Expansion<'a>, Diagnostic>)
    requires
        domain@.wf(),
        domain@.extent is None ==> domain@.inputs.len() == chain.sources@.len(),
        1 <= chain.sources@.len() <= 2,
    ensures
        match (
            expansion,
            expanded_chain(name@, host@, chain@, domain@, scalars@, tensors@, output),
        ) {
            (Ok(expansion), Ok(expected)) => expansion@ == expected,
            (Err(diagnostic), Err(expected)) => diagnostic == expected,
            _ => false,
        },
{
    let mode = closure_mode(chain, &domain);
    let rank: Option<usize> = match point_rank(mode, domain_rank(&domain)) {
        Ok(rank) => rank,
        Err(diagnostic) => return Err(diagnostic),
    };
    let bindings = match closure_bindings(chain.closure, mode, rank) {
        Ok(bindings) => bindings,
        Err(diagnostic) => return Err(diagnostic),
    };
    let types = scalar_types(&scalars);
    let capturable = capturable_tensors(tensors);
    let mut extent_names: Vec<String> = Vec::new();
    if let Some(extent) = domain.extent {
        extent_names.push(extent.ident.name.clone());
    }
    let context = DeviceContext {
        bindings: &bindings.values,
        point_binding: match &bindings.point {
            Some(point) => Some(point.as_str()),
            None => None,
        },
        point_axes: &bindings.point_axes,
        extent_names: &extent_names,
        logical_rank: rank,
        scalars: &types,
        tensors: &capturable,
        output: output.element,
    };
    let ghost scope = scope_of(bindings@, domain@, rank, scalars@, tensors@, output);
    assert(context@.extents =~= scope.extents);
    let body = match lower_device_body(&chain.closure.body, &context) {
        Ok(body) => body,
        Err(diagnostic) => return Err(diagnostic),
    };
    let captures: Vec<Capture> = body.captures();
    proof {
        assert(tensors@.len() == tensors.len());
        lemma_chain_is_closed(name@, host@, chain@, domain@, scalars@, tensors@, output);
    }
    let captured = find_captured_parameters(&captures, tensors);
    let kernel = ElementKernel {
        name: kernel_msl_identifier(name),
        inputs: kernel_inputs(&domain.inputs),
        scalars: declare_scalars(&scalars),
        output: output.element,
        logical_rank: rank,
        body,
    };
    let source = kernel.to_msl();
    Ok(Expansion { kernel, source, host, domain, captures: captured, scalars, output })
}

/// Compiles a `#[parallel]` function.
pub fn parallel<'a>(function: &'a SourceFunction) -> (expansion: Result<Expansion<'a>, Diagnostic>)
    ensures
        match (expansion, expanded(function)) {
            (Ok(expansion), Ok(expected)) => expansion@ == expected,
            (Err(diagnostic), Err(expected)) => diagnostic == expected,
            _ => false,
        },
{
    if let Some(span) = function.constness {
        return report(span, Problem::ConstFunction);
    }
    if let Some(span) = function.asyncness {
        return report(span, Problem::AsyncFunction);
    }
    let parameters: Vec<Parameter<'a>> = match parse_parameters(&function.inputs) {
        Ok(parameters) => parameters,
        Err(diagnostic) => return Err(diagnostic),
    };
    let output = match parse_output(function) {
        Ok(output) => output,
        Err(diagnostic) => return Err(diagnostic),
    };
    let chain = match parse_chain(&function.block) {
        Ok(chain) => chain,
        Err(diagnostic) => return Err(diagnostic),
    };
    let visible = keep_visible(&parameters, &function.block);
    let domain = match resolve_domain(&chain, &visible, &function.block, output) {
        Ok(domain) => domain,
        Err(diagnostic) => return Err(diagnostic),
    };
    proof {
        lemma_domain_wf(&function.block, visible@, output);
    }
    match check_ranks(&domain, output, function.output_span) {
        Ok(()) => {},
        Err(diagnostic) => return Err(diagnostic),
    }
    let host = collect_host_statements(&function.block);
    let scalars = collect_scalars(&visible);
    let tensors = collect_tensors(&visible);
    expand_chain(function.ident.name.as_str(), host, &chain, domain, scalars, &tensors, output)
}

} // verus!
