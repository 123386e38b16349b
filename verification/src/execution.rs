//! The course of one execution: what the device is asked for next, given what it answered.
use vstd::layout::size_of;
use vstd::prelude::*;

use crate::error::Error;
use crate::extent::Extent;
use crate::names::{lookup, NameMap};
use crate::runtime::{
    binding_views, plan_elementwise, planned, BufferBinding, Plan, PlanView, ScalarBinding,
};

verus! {

/// How far an execution has come.
#[derive(Debug, Clone, Copy, PartialEq, Eq, Structural)]
pub enum Stage {
    /// The device is being opened.
    Opening,
    /// The output is being allocated.
    Allocating,
    /// The source is being compiled to a library.
    Compiling,
    /// The kernel is being looked up in the library.
    Finding,
    /// A pipeline is being made of the kernel.
    Creating,
    /// The pipeline, known by a number, is being asked for its limits.
    Preparing { pipeline: usize },
    /// The kernel is running.
    Running,
    /// The execution has returned or failed.
    Finished,
}

/// What the device answered.
#[derive(Debug)]
pub enum Event {
    Opened,
    NoDevice,
    Allocated,
    Compiled,
    CompileFailed(String),
    Found,
    NotFound(String),
    /// A pipeline was made; from now on it is known by the number.
    Created { pipeline: usize },
    CreateFailed(String),
    /// The most threads that a group of the pipeline can have.
    Prepared { max_threads: u64 },
    Completed,
    /// The command ended in another status.
    Stopped(String),
}

/// What the device is asked for.
#[allow(inconsistent_fields)]
#[derive(Debug)]
pub enum Action {
    Open,
    Allocate { byte_len: u64 },
    Compile,
    Find,
    Create,
    Prepare { pipeline: usize },
    /// Run the pipeline with that many threads, in groups of that many.
    Dispatch { threads: u64, group: u64 },
    /// The output is complete.
    Return,
    Fail(Error),
}

/// Whether a stage waits for that answer.
pub open spec fn expects(stage: Stage, event: Event) -> bool {
    match stage {
        Stage::Opening => event is Opened || event is NoDevice,
        Stage::Allocating => event is Allocated,
        Stage::Compiling => event is Compiled || event is CompileFailed,
        Stage::Finding => event is Found || event is NotFound,
        Stage::Creating => event is Created || event is CreateFailed,
        Stage::Preparing { .. } => event is Prepared,
        Stage::Running => event is Completed || event is Stopped,
        Stage::Finished => false,
    }
}

/// The pipelines that have been made, each under the source of its kernel.
#[derive(Debug)]
pub struct PipelineCache {
    pipelines: NameMap<usize>,
}

impl View for PipelineCache {
    type V = Map<Seq<char>, usize>;

    closed spec fn view(&self) -> Map<Seq<char>, usize> {
        self.pipelines@
    }
}

impl PipelineCache {
    pub fn new() -> (cache: Self)
        ensures
            cache@ == Map::<Seq<char>, usize>::empty(),
    {
        PipelineCache { pipelines: NameMap::new() }
    }

    /// The pipeline of a source.
    pub fn get(&self, source: &str) -> (pipeline: Option<usize>)
        ensures
            pipeline == lookup(self@, source@),
    {
        self.pipelines.get(source)
    }

    /// Keeps the pipeline of a source.
    pub fn insert(&mut self, source: &str, pipeline: usize)
        ensures
            final(self)@ == old(self)@.insert(source@, pipeline),
    {
        self.pipelines.insert(source.to_owned(), pipeline);
    }
}

/// What an answer leads to: the next stage, the pipelines that are kept, and the next request.
pub ghost struct Transition {
    pub stage: Stage,
    pub pipelines: Map<Seq<char>, usize>,
    pub action: Action,
}

/// How many threads a group has: as many as the pipeline allows, but no more than there are
/// elements.
pub open spec fn group_width(max_threads: u64, elements: usize) -> u64 {
    if max_threads <= elements as u64 {
        max_threads
    } else {
        elements as u64
    }
}

/// What an answer leads to, in an execution of a plan with the kernel of a source.
pub open spec fn transition(
    plan: PlanView,
    source: Seq<char>,
    pipelines: Map<Seq<char>, usize>,
    event: Event,
) -> Transition {
    let (stage, action) = match event {
        Event::Opened => if plan.elements * plan.element_size > usize::MAX {
            (Stage::Finished, Action::Fail(Error::ExtentOverflow))
        } else {
            (
                Stage::Allocating,
                Action::Allocate { byte_len: (plan.elements * plan.element_size) as u64 },
            )
        },
        Event::NoDevice => (Stage::Finished, Action::Fail(Error::NoMetalDevice)),
        Event::Allocated => match lookup(pipelines, source) {
            Some(pipeline) => (Stage::Preparing { pipeline }, Action::Prepare { pipeline }),
            None => (Stage::Compiling, Action::Compile),
        },
        Event::Compiled => (Stage::Finding, Action::Find),
        Event::CompileFailed(message) => (
            Stage::Finished,
            Action::Fail(Error::ShaderCompile(message)),
        ),
        Event::Found => (Stage::Creating, Action::Create),
        Event::NotFound(message) => (Stage::Finished, Action::Fail(Error::FunctionLookup(message))),
        Event::Created { pipeline } => (
            Stage::Preparing { pipeline },
            Action::Prepare { pipeline },
        ),
        Event::CreateFailed(message) => (
            Stage::Finished,
            Action::Fail(Error::PipelineCreation(message)),
        ),
        Event::Prepared { max_threads } => (
            Stage::Running,
            Action::Dispatch {
                threads: plan.elements as u64,
                group: group_width(max_threads, plan.elements),
            },
        ),
        Event::Completed => (Stage::Finished, Action::Return),
        Event::Stopped(status) => (Stage::Finished, Action::Fail(Error::CommandFailed(status))),
    };
    let pipelines = match event {
        Event::Created { pipeline } => pipelines.insert(source, pipeline),
        _ => pipelines,
    };
    Transition { stage, pipelines, action }
}

/// The execution of a plan with the kernel of a source.
#[derive(Debug)]
pub struct Execution {
    plan: Plan,
    source: String,
    kernel_name: String,
    stage: Stage,
}

/// What an execution is, with its texts as sequences of characters.
#[verifier::ext_equal]
pub ghost struct ExecutionView {
    pub plan: PlanView,
    pub source: Seq<char>,
    pub kernel_name: Seq<char>,
    pub stage: Stage,
}

impl View for Execution {
    type V = ExecutionView;

    closed spec fn view(&self) -> ExecutionView {
        ExecutionView {
            plan: self.plan@,
            source: self.source@,
            kernel_name: self.kernel_name@,
            stage: self.stage,
        }
    }
}

impl Execution {
    /// Starts an execution: the device is to be opened.
    pub fn start(plan: Plan, source: &str, kernel_name: &str) -> (started: (Self, Action))
        ensures
            started.0@ == (ExecutionView {
                plan: plan@,
                source: source@,
                kernel_name: kernel_name@,
                stage: Stage::Opening,
            }),
            started.1 == Action::Open,
    {
        let execution = Execution {
            plan,
            source: source.to_owned(),
            kernel_name: kernel_name.to_owned(),
            stage: Stage::Opening,
        };
        (execution, Action::Open)
    }

    pub fn plan(&self) -> (plan: &Plan)
        ensures
            plan@ == self@.plan,
    {
        &self.plan
    }

    pub fn source(&self) -> (source: &str)
        ensures
            source@ == self@.source,
    {
        self.source.as_str()
    }

    pub fn kernel_name(&self) -> (name: &str)
        ensures
            name@ == self@.kernel_name,
    {
        self.kernel_name.as_str()
    }

    pub fn stage(&self) -> (stage: Stage)
        ensures
            stage == self@.stage,
    {
        self.stage
    }

    /// Whether the execution waits for that answer.
    pub fn awaits(&self, event: &Event) -> (waits: bool)
        ensures
            waits == expects(self@.stage, *event),
    {
        match (self.stage, event) {
            (Stage::Opening, Event::Opened) => true,
            (Stage::Opening, Event::NoDevice) => true,
            (Stage::Allocating, Event::Allocated) => true,
            (Stage::Compiling, Event::Compiled) => true,
            (Stage::Compiling, Event::CompileFailed(_)) => true,
            (Stage::Finding, Event::Found) => true,
            (Stage::Finding, Event::NotFound(_)) => true,
            (Stage::Creating, Event::Created { .. }) => true,
            (Stage::Creating, Event::CreateFailed(_)) => true,
            (Stage::Preparing { .. }, Event::Prepared { .. }) => true,
            (Stage::Running, Event::Completed) => true,
            (Stage::Running, Event::Stopped(_)) => true,
            _ => false,
        }
    }

    /// Goes on with an answer that the execution waits for.
    pub fn advance(&mut self, cache: &mut PipelineCache, event: Event) -> (action: Action)
        requires
            expects(old(self)@.stage, event),
        ensures
            ({
                let expected = transition(
                    old(self)@.plan,
                    old(self)@.source,
                    old(cache)@,
                    event,
                );
                &&& action == expected.action
                &&& final(self)@ == (ExecutionView { stage: expected.stage, ..old(self)@ })
                &&& final(cache)@ == expected.pipelines
            }),
    {
        let (stage, action) = match event {
            Event::Opened => match self.plan.elements.checked_mul(self.plan.element_size) {
                Some(byte_len) => (
                    Stage::Allocating,
                    Action::Allocate { byte_len: byte_len as u64 },
                ),
                None => (Stage::Finished, Action::Fail(Error::ExtentOverflow)),
            },
            Event::NoDevice => (Stage::Finished, Action::Fail(Error::NoMetalDevice)),
            Event::Allocated => match cache.get(self.source.as_str()) {
                Some(pipeline) => (Stage::Preparing { pipeline }, Action::Prepare { pipeline }),
                None => (Stage::Compiling, Action::Compile),
            },
            Event::Compiled => (Stage::Finding, Action::Find),
            Event::CompileFailed(message) => (
                Stage::Finished,
                Action::Fail(Error::ShaderCompile(message)),
            ),
            Event::Found => (Stage::Creating, Action::Create),
            Event::NotFound(message) => (
                Stage::Finished,
                Action::Fail(Error::FunctionLookup(message)),
            ),
            Event::Created { pipeline } => {
                cache.insert(self.source.as_str(), pipeline);
                (Stage::Preparing { pipeline }, Action::Prepare { pipeline })
            },
            Event::CreateFailed(message) => (
                Stage::Finished,
                Action::Fail(Error::PipelineCreation(message)),
            ),
            Event::Prepared { max_threads } => {
                let elements: u64 = self.plan.elements as u64;
                let group: u64 = if max_threads <= elements {
                    max_threads
                } else {
                    elements
                };
                (Stage::Running, Action::Dispatch { threads: elements, group })
            },
            Event::Completed => (Stage::Finished, Action::Return),
            Event::Stopped(status) => (
                Stage::Finished,
                Action::Fail(Error::CommandFailed(status)),
            ),
        };
        self.stage = stage;
        action
    }
}

/// Plans the dispatch of a kernel over an extent and starts its execution.
pub fn execute_elementwise<T: Copy, const D: usize>(
    source: &str,
    kernel_name: &str,
    extent: Extent<D>,
    inputs: &[BufferBinding],
    scalars: &[ScalarBinding],
) -> (started: Result<(Execution, Action), Error>)
    ensures
        match (
            started,
            planned(extent@, binding_views(inputs@), scalars@.len(), size_of::<T>()),
        ) {
            (Ok((execution, action)), Ok(plan)) => execution@ == (ExecutionView {
                plan,
                source: source@,
                kernel_name: kernel_name@,
                stage: Stage::Opening,
            }) && action == Action::Open,
            (Err(error), Err(expected)) => error == expected,
            _ => false,
        },
{
    match plan_elementwise::<T, D>(extent, inputs, scalars) {
        Ok(plan) => Ok(Execution::start(plan, source, kernel_name)),
        Err(error) => Err(error),
    }
}

/// A source is compiled once: when a pipeline has been made of it, the next execution of that
/// source, over whatever extent, goes from the allocation of its output to that pipeline.
pub proof fn law_a_source_is_compiled_once(
    first: PlanView,
    second: PlanView,
    source: Seq<char>,
    pipelines: Map<Seq<char>, usize>,
    pipeline: usize,
)
    ensures
        ({
            let made = transition(
                first,
                source,
                pipelines,
                Event::Created { pipeline },
            );
            let next = transition(
                second,
                source,
                made.pipelines,
                Event::Allocated,
            );
            &&& next.stage == Stage::Preparing { pipeline }
            &&& next.action == Action::Prepare { pipeline }
        }),
{
}

/// Nothing but a made pipeline changes what is kept, and it leaves the pipelines of other sources
/// as they are.
pub proof fn law_other_pipelines_are_kept(
    plan: PlanView,
    source: Seq<char>,
    pipelines: Map<Seq<char>, usize>,
    event: Event,
    other: Seq<char>,
)
    ensures
        ({
            let after = transition(plan, source, pipelines, event).pipelines;
            &&& !(event is Created) ==> after == pipelines
            &&& other != source ==> lookup(after, other) == lookup(pipelines, other)
        }),
{
}

/// Which pipeline runs does not depend on the extent.
pub proof fn law_pipelines_do_not_depend_on_the_extent(
    first: PlanView,
    second: PlanView,
    source: Seq<char>,
    pipelines: Map<Seq<char>, usize>,
)
    ensures
        transition(first, source, pipelines, Event::Allocated) == transition(
            second,
            source,
            pipelines,
            Event::Allocated,
        ),
{
}

/// A run has one thread for each element, in groups that are neither empty nor larger than the
/// pipeline allows or the elements fill.
pub proof fn law_one_thread_per_element(
    plan: PlanView,
    source: Seq<char>,
    pipelines: Map<Seq<char>, usize>,
    max_threads: u64,
)
    requires
        plan.elements > 0,
        max_threads > 0,
    ensures
        transition(
            plan,
            source,
            pipelines,
            Event::Prepared { max_threads },
        ).action matches Action::Dispatch { threads, group } && threads == plan.elements && 0
            < group <= max_threads && group <= threads,
{
}

/// An execution returns exactly when the device reports that its command completed.
pub proof fn law_only_completed_commands_return(
    plan: PlanView,
    source: Seq<char>,
    pipelines: Map<Seq<char>, usize>,
    event: Event,
)
    ensures
        transition(plan, source, pipelines, event).action is Return <==> event is Completed,
{
}

/// What the device is asked for is what the next stage waits for: an execution that has neither
/// returned nor failed waits for an answer.
pub proof fn law_executions_do_not_stall(
    plan: PlanView,
    source: Seq<char>,
    stage: Stage,
    pipelines: Map<Seq<char>, usize>,
    event: Event,
)
    requires
        expects(stage, event),
    ensures
        ({
            let next = transition(plan, source, pipelines, event);
            &&& next.stage == Stage::Finished <==> next.action is Return || next.action is Fail
            &&& next.stage == Stage::Allocating <==> next.action is Allocate
            &&& next.stage == Stage::Compiling <==> next.action is Compile
            &&& next.stage == Stage::Finding <==> next.action is Find
            &&& next.stage == Stage::Creating <==> next.action is Create
            &&& next.stage is Preparing <==> next.action is Prepare
            &&& next.stage == Stage::Running <==> next.action is Dispatch
            &&& remaining(next.stage) < remaining(stage)
        }),
{
}

/// How many answers an execution can still get.
pub open spec fn remaining(stage: Stage) -> nat {
    match stage {
        Stage::Opening => 7,
        Stage::Allocating => 6,
        Stage::Compiling => 5,
        Stage::Finding => 4,
        Stage::Creating => 3,
        Stage::Preparing { .. } => 2,
        Stage::Running => 1,
        Stage::Finished => 0,
    }
}

/// The largest group that the pipeline allows and the elements fill is the one that is asked for.
pub proof fn law_groups_are_as_large_as_they_can_be(
    plan: PlanView,
    source: Seq<char>,
    pipelines: Map<Seq<char>, usize>,
    max_threads: u64,
    other: u64,
)
    requires
        other <= max_threads,
        other <= plan.elements,
    ensures
        transition(
            plan,
            source,
            pipelines,
            Event::Prepared { max_threads },
        ).action matches Action::Dispatch { group, .. } && other <= group,
{
}

/// The output is allocated with room for exactly the elements of the plan, and refused where a
/// length cannot tell its bytes.
pub proof fn law_the_output_has_room_for_every_element(
    plan: PlanView,
    source: Seq<char>,
    pipelines: Map<Seq<char>, usize>,
)
    ensures
        match transition(plan, source, pipelines, Event::Opened).action {
            Action::Allocate { byte_len } => byte_len == plan.elements * plan.element_size
                && byte_len <= usize::MAX,
            Action::Fail(error) => error == Error::ExtentOverflow && plan.elements
                * plan.element_size > usize::MAX,
            _ => false,
        },
{
}

/// A failure of the device ends the execution with an error that says which request failed and
/// repeats what the device said of it; no pipeline is kept for it.
pub proof fn law_failures_are_told(
    plan: PlanView,
    source: Seq<char>,
    pipelines: Map<Seq<char>, usize>,
    stage: Stage,
    event: Event,
)
    requires
        expects(stage, event),
    ensures
        ({
            let next = transition(plan, source, pipelines, event);
            let told = next.action->Fail_0.text();
            &&& event is NoDevice ==> next.action is Fail && told
                == "no Metal device is available"@
            &&& event matches Event::CompileFailed(message) ==> next.action is Fail && told
                == "Metal shader compilation failed: "@ + message@
            &&& event matches Event::NotFound(message) ==> next.action is Fail && told
                == "Metal kernel lookup failed: "@ + message@
            &&& event matches Event::CreateFailed(message) ==> next.action is Fail && told
                == "Metal pipeline creation failed: "@ + message@
            &&& event matches Event::Stopped(message) ==> next.action is Fail && told
                == "Metal command failed: "@ + message@
            &&& next.action is Fail ==> next.stage == Stage::Finished && next.pipelines == pipelines
            &&& next.action is Fail ==> event is NoDevice || event is CompileFailed
                || event is NotFound || event is CreateFailed || event is Stopped || (
            event is Opened && plan.elements * plan.element_size > usize::MAX)
        }),
{
}

/// What an execution has asked for after some answers: how far it has come, the pipelines that are
/// kept, and the requests behind the first.
pub open spec fn course(
    plan: PlanView,
    source: Seq<char>,
    pipelines: Map<Seq<char>, usize>,
    answers: Seq<Event>,
) -> (Stage, Map<Seq<char>, usize>, Seq<Action>)
    decreases answers.len(),
{
    if answers.len() == 0 {
        (Stage::Opening, pipelines, Seq::empty())
    } else {
        let (stage, kept, requests) = course(plan, source, pipelines, answers.drop_last());
        let next = transition(plan, source, kept, answers.last());
        (next.stage, next.pipelines, requests.push(next.action))
    }
}

/// Whether each answer is one that the execution waits for.
pub open spec fn awaited(
    plan: PlanView,
    source: Seq<char>,
    pipelines: Map<Seq<char>, usize>,
    answers: Seq<Event>,
) -> bool
    decreases answers.len(),
{
    answers.len() == 0 || (awaited(plan, source, pipelines, answers.drop_last()) && expects(
        course(plan, source, pipelines, answers.drop_last()).0,
        answers.last(),
    ))
}

proof fn lemma_course_step(
    plan: PlanView,
    source: Seq<char>,
    pipelines: Map<Seq<char>, usize>,
    answers: Seq<Event>,
    answer: Event,
)
    ensures
        ({
            let before = course(plan, source, pipelines, answers);
            let next = transition(plan, source, before.1, answer);
            let all = answers.push(answer);
            &&& course(plan, source, pipelines, all) == (
                next.stage,
                next.pipelines,
                before.2.push(next.action),
            )
            &&& awaited(plan, source, pipelines, all) <==> awaited(
                plan,
                source,
                pipelines,
                answers,
            ) && expects(before.0, answer)
        }),
{
    assert(answers.push(answer).drop_last() =~= answers);
}

/// The first execution of a source compiles it, finds its kernel and makes a pipeline of it; then
/// it prepares that pipeline, runs it and returns. The pipeline is kept under the source.
pub proof fn law_the_course_of_a_new_source(
    plan: PlanView,
    source: Seq<char>,
    pipelines: Map<Seq<char>, usize>,
    pipeline: usize,
    max_threads: u64,
)
    requires
        !pipelines.dom().contains(source),
        plan.elements * plan.element_size <= usize::MAX,
    ensures
        ({
            let answers = seq![
                Event::Opened,
                Event::Allocated,
                Event::Compiled,
                Event::Found,
                Event::Created { pipeline },
                Event::Prepared { max_threads },
                Event::Completed,
            ];
            let (stage, kept, requests) = course(plan, source, pipelines, answers);
            &&& awaited(plan, source, pipelines, answers)
            &&& stage == Stage::Finished
            &&& kept == pipelines.insert(source, pipeline)
            &&& requests.len() == 7
            &&& requests[0] matches Action::Allocate { byte_len } && byte_len == plan.elements
                * plan.element_size
            &&& requests[1] is Compile
            &&& requests[2] is Find
            &&& requests[3] is Create
            &&& requests[4] == Action::Prepare { pipeline }
            &&& requests[5] matches Action::Dispatch { threads, .. } && threads == plan.elements
            &&& requests[6] is Return
        }),
{
    let none = Seq::<Event>::empty();
    let first = none.push(Event::Opened);
    let second = first.push(Event::Allocated);
    let third = second.push(Event::Compiled);
    let fourth = third.push(Event::Found);
    let fifth = fourth.push(Event::Created { pipeline });
    let sixth = fifth.push(Event::Prepared { max_threads });
    lemma_course_step(plan, source, pipelines, none, Event::Opened);
    lemma_course_step(plan, source, pipelines, first, Event::Allocated);
    lemma_course_step(plan, source, pipelines, second, Event::Compiled);
    lemma_course_step(plan, source, pipelines, third, Event::Found);
    lemma_course_step(plan, source, pipelines, fourth, Event::Created { pipeline });
    lemma_course_step(plan, source, pipelines, fifth, Event::Prepared { max_threads });
    lemma_course_step(plan, source, pipelines, sixth, Event::Completed);
    assert(sixth.push(Event::Completed) =~= seq![
        Event::Opened,
        Event::Allocated,
        Event::Compiled,
        Event::Found,
        Event::Created { pipeline },
        Event::Prepared { max_threads },
        Event::Completed,
    ]);
}

/// An execution of a source whose pipeline is kept prepares that pipeline, runs it and returns.
/// What is kept stays as it is.
pub proof fn law_the_course_of_a_known_source(
    plan: PlanView,
    source: Seq<char>,
    pipelines: Map<Seq<char>, usize>,
    max_threads: u64,
)
    requires
        pipelines.dom().contains(source),
        plan.elements * plan.element_size <= usize::MAX,
    ensures
        ({
            let answers = seq![
                Event::Opened,
                Event::Allocated,
                Event::Prepared { max_threads },
                Event::Completed,
            ];
            let (stage, kept, requests) = course(plan, source, pipelines, answers);
            &&& awaited(plan, source, pipelines, answers)
            &&& stage == Stage::Finished
            &&& kept == pipelines
            &&& requests.len() == 4
            &&& requests[0] matches Action::Allocate { byte_len } && byte_len == plan.elements
                * plan.element_size
            &&& requests[1] == Action::Prepare { pipeline: pipelines[source] }
            &&& requests[2] matches Action::Dispatch { threads, .. } && threads == plan.elements
            &&& requests[3] is Return
        }),
{
    let none = Seq::<Event>::empty();
    let first = none.push(Event::Opened);
    let second = first.push(Event::Allocated);
    let third = second.push(Event::Prepared { max_threads });
    lemma_course_step(plan, source, pipelines, none, Event::Opened);
    lemma_course_step(plan, source, pipelines, first, Event::Allocated);
    lemma_course_step(plan, source, pipelines, second, Event::Prepared { max_threads });
    lemma_course_step(plan, source, pipelines, third, Event::Completed);
    assert(third.push(Event::Completed) =~= seq![
        Event::Opened,
        Event::Allocated,
        Event::Prepared { max_threads },
        Event::Completed,
    ]);
}

/// Whether an answer is one to a request: what was asked for, or that it failed.
pub open spec fn answers(event: Event, action: Action) -> bool {
    match event {
        Event::Opened | Event::NoDevice => action is Open,
        Event::Allocated => action is Allocate,
        Event::Compiled | Event::CompileFailed(_) => action is Compile,
        Event::Found | Event::NotFound(_) => action is Find,
        Event::Created { .. } | Event::CreateFailed(_) => action is Create,
        Event::Prepared { .. } => action is Prepare,
        Event::Completed | Event::Stopped(_) => action is Dispatch,
    }
}

/// An execution waits for exactly the answers to its last request, which is first to open the
/// device.
pub proof fn law_executions_wait_for_the_answers_to_their_requests(
    plan: PlanView,
    source: Seq<char>,
    pipelines: Map<Seq<char>, usize>,
    stage: Stage,
    event: Event,
    answer: Event,
)
    requires
        expects(stage, event),
    ensures
        expects(Stage::Opening, answer) <==> answers(answer, Action::Open),
        ({
            let next = transition(plan, source, pipelines, event);
            expects(next.stage, answer) <==> answers(answer, next.action)
        }),
{
}

} // verus!
