use parallel_metal::execution::{
    execute_elementwise, Action, Event, Execution, PipelineCache, Stage,
};
use parallel_metal::runtime::{
    plan_elementwise, BufferBinding, Plan, Resource, ScalarBinding,
};
use parallel_metal::{Error, Extent, Point, Tensor};

fn ones<const D: usize>(axes: [usize; D]) -> Tensor<u32, D> {
    Tensor::from_fn(Extent::new(axes), |_: Point<D>| 1).unwrap()
}

#[test]
fn binds_what_the_kernel_declares() {
    let left = ones([4, 3]);
    let right = ones([4, 3]);
    let plan = plan_elementwise::<u64, 2>(
        Extent::new([4, 3]),
        &[BufferBinding::source(&left), BufferBinding::source(&right)],
        &[ScalarBinding::new(&1.5f32)],
    )
    .unwrap();
    assert_eq!(plan.elements, 12);
    assert_eq!(plan.count, 12);
    assert_eq!(plan.extent, vec![4, 3]);
    assert_eq!(plan.element_size, 8);
    assert_eq!(
        plan.bindings,
        vec![
            Resource::Output,
            Resource::Input(0),
            Resource::Input(1),
            Resource::Scalar(0),
            Resource::Count,
            Resource::Axes,
        ]
    );
}

#[test]
fn captures_are_bound_with_their_extents() {
    let source = ones([4, 3]);
    let table = ones([5, 2, 7]);
    let line = ones([9]);
    let plan = plan_elementwise::<u64, 2>(
        Extent::new([4, 3]),
        &[
            BufferBinding::source(&source),
            BufferBinding::capture(&table),
            BufferBinding::capture(&line),
        ],
        &[ScalarBinding::new(&1u32)],
    )
    .unwrap();
    assert_eq!(plan.input_extents, vec![vec![4, 3], vec![5, 2, 7], vec![9]]);
    assert_eq!(
        plan.bindings,
        vec![
            Resource::Output,
            Resource::Input(0),
            Resource::Input(1),
            Resource::Input(2),
            Resource::InputExtent(1),
            Resource::InputExtent(2),
            Resource::Scalar(0),
            Resource::Count,
            Resource::Axes,
        ]
    );
}

#[test]
fn scalars_are_bound_by_their_size() {
    assert_eq!(ScalarBinding::new(&0u8).byte_len, 1);
    assert_eq!(ScalarBinding::new(&0i16).byte_len, 2);
    assert_eq!(ScalarBinding::new(&0.5f32).byte_len, 4);
    assert_eq!(ScalarBinding::new(&0u64).byte_len, 8);
}

#[test]
fn refuses_extents_that_a_kernel_cannot_index() {
    let plan = |axes: [usize; 2]| {
        plan_elementwise::<u8, 2>(Extent::new(axes), &[], &[])
    };
    assert!(matches!(plan([0, 3]), Err(Error::EmptyExtent)));
    assert!(matches!(plan([usize::MAX, 3]), Err(Error::ExtentOverflow)));
    assert!(matches!(
        plan([65_536, 65_536]),
        Err(Error::TensorTooLarge { elements: 4_294_967_296 })
    ));
    assert!(matches!(plan([65_535, 65_537]), Ok(Plan { count: u32::MAX, .. })));
}

#[test]
fn refuses_inputs_of_another_shape() {
    let small = ones([2, 3]);
    let fitting = ones([3, 4]);
    let inputs = vec![BufferBinding::source(&fitting), BufferBinding::source(&small)];
    assert!(matches!(
        plan_elementwise::<u8, 2>(Extent::new([4, 3]), &inputs, &[]),
        Err(Error::ShapeMismatch { expected: 12, actual: 6 })
    ));
    let captured = vec![BufferBinding::capture(&small)];
    assert!(plan_elementwise::<u8, 2>(Extent::new([4, 3]), &captured, &[]).is_ok());
}

#[test]
fn refuses_captures_that_a_kernel_cannot_index() {
    let axes = Extent::new([u32::MAX as usize + 1]);
    let wide = vec![BufferBinding::describe(axes, 5, false)];
    assert!(matches!(
        plan_elementwise::<u8, 1>(Extent::new([4]), &wide, &[]),
        Err(Error::TensorTooLarge { elements: 5 })
    ));
    let narrow = vec![BufferBinding::describe(Extent::new([u32::MAX as usize]), 5, false)];
    assert!(plan_elementwise::<u8, 1>(Extent::new([4]), &narrow, &[]).is_ok());
}

fn start(axes: [usize; 1], source: &str) -> Execution {
    let (execution, action) =
        execute_elementwise::<u32, 1>(source, "kernel", Extent::new(axes), &[], &[]).unwrap();
    assert!(matches!(action, Action::Open));
    execution
}

fn advance(execution: &mut Execution, cache: &mut PipelineCache, event: Event) -> Action {
    assert!(execution.awaits(&event));
    execution.advance(cache, event)
}

#[test]
fn a_first_execution_compiles_and_a_second_does_not() {
    let mut cache = PipelineCache::new();
    let mut first = start([100], "source");
    assert_eq!(first.source(), "source");
    assert_eq!(first.kernel_name(), "kernel");
    assert!(matches!(
        advance(&mut first, &mut cache, Event::Opened),
        Action::Allocate { byte_len: 400 }
    ));
    assert!(matches!(advance(&mut first, &mut cache, Event::Allocated), Action::Compile));
    assert!(matches!(advance(&mut first, &mut cache, Event::Compiled), Action::Find));
    assert!(matches!(advance(&mut first, &mut cache, Event::Found), Action::Create));
    assert!(matches!(
        advance(&mut first, &mut cache, Event::Created { pipeline: 7 }),
        Action::Prepare { pipeline: 7 }
    ));
    assert!(matches!(
        advance(&mut first, &mut cache, Event::Prepared { max_threads: 32 }),
        Action::Dispatch { threads: 100, group: 32 }
    ));
    assert!(matches!(advance(&mut first, &mut cache, Event::Completed), Action::Return));
    assert_eq!(first.stage(), Stage::Finished);
    assert!(!first.awaits(&Event::Completed));
    assert_eq!(cache.get("source"), Some(7));

    let mut second = start([5], "source");
    advance(&mut second, &mut cache, Event::Opened);
    assert!(matches!(
        advance(&mut second, &mut cache, Event::Allocated),
        Action::Prepare { pipeline: 7 }
    ));
    assert!(matches!(
        advance(&mut second, &mut cache, Event::Prepared { max_threads: 32 }),
        Action::Dispatch { threads: 5, group: 5 }
    ));

    let mut other = start([5], "other source");
    advance(&mut other, &mut cache, Event::Opened);
    assert!(matches!(advance(&mut other, &mut cache, Event::Allocated), Action::Compile));
    assert_eq!(cache.get("source"), Some(7));
    assert_eq!(cache.get("other source"), None);
}

#[test]
fn failures_end_an_execution_and_keep_nothing() {
    let mut cache = PipelineCache::new();

    let mut execution = start([1], "s");
    assert!(matches!(
        advance(&mut execution, &mut cache, Event::NoDevice),
        Action::Fail(Error::NoMetalDevice)
    ));

    let mut execution = start([1], "s");
    advance(&mut execution, &mut cache, Event::Opened);
    advance(&mut execution, &mut cache, Event::Allocated);
    let action = advance(&mut execution, &mut cache, Event::CompileFailed("bad".into()));
    assert!(matches!(action, Action::Fail(Error::ShaderCompile(text)) if text == "bad"));

    let mut execution = start([1], "s");
    advance(&mut execution, &mut cache, Event::Opened);
    advance(&mut execution, &mut cache, Event::Allocated);
    advance(&mut execution, &mut cache, Event::Compiled);
    let action = advance(&mut execution, &mut cache, Event::NotFound("lost".into()));
    assert!(matches!(action, Action::Fail(Error::FunctionLookup(text)) if text == "lost"));

    let mut execution = start([1], "s");
    advance(&mut execution, &mut cache, Event::Opened);
    advance(&mut execution, &mut cache, Event::Allocated);
    advance(&mut execution, &mut cache, Event::Compiled);
    advance(&mut execution, &mut cache, Event::Found);
    let action = advance(&mut execution, &mut cache, Event::CreateFailed("no".into()));
    assert!(matches!(action, Action::Fail(Error::PipelineCreation(text)) if text == "no"));
    assert_eq!(cache.get("s"), None);

    let mut execution = start([1], "s");
    advance(&mut execution, &mut cache, Event::Opened);
    advance(&mut execution, &mut cache, Event::Allocated);
    advance(&mut execution, &mut cache, Event::Compiled);
    advance(&mut execution, &mut cache, Event::Found);
    advance(&mut execution, &mut cache, Event::Created { pipeline: 0 });
    advance(&mut execution, &mut cache, Event::Prepared { max_threads: 1 });
    let action = advance(&mut execution, &mut cache, Event::Stopped("Error".into()));
    assert!(matches!(action, Action::Fail(Error::CommandFailed(text)) if text == "Error"));
    assert_eq!(execution.stage(), Stage::Finished);
    assert_eq!(cache.get("s"), Some(0));
}

#[test]
fn executions_start_only_with_a_plan() {
    assert!(matches!(
        execute_elementwise::<u32, 1>("s", "k", Extent::new([0]), &[], &[]),
        Err(Error::EmptyExtent)
    ));
    assert_eq!(start([3], "s").plan().extent, vec![3]);
}

#[test]
fn outputs_that_overflow_are_refused_when_the_device_is_open() {
    let plan = Plan {
        elements: usize::MAX,
        count: 0,
        extent: Vec::new(),
        input_extents: Vec::new(),
        bindings: Vec::new(),
        element_size: 2,
    };
    let (mut execution, _) = Execution::start(plan, "s", "k");
    let mut cache = PipelineCache::new();
    assert!(matches!(
        advance(&mut execution, &mut cache, Event::Opened),
        Action::Fail(Error::ExtentOverflow)
    ));
    assert_eq!(execution.plan().elements, usize::MAX);
}
