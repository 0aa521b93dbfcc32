use mirage::{plan_chain, plan_step, resolve_source, ChainCommands, InputSource, StepAction};

#[test]
fn the_first_step_never_reads_a_stale_output_file() {
    assert_eq!(resolve_source(0, true, true), Some(InputSource::Declared));
    assert_eq!(resolve_source(0, true, false), None);
}

#[test]
fn later_steps_prefer_the_prior_output() {
    assert_eq!(resolve_source(1, true, true), Some(InputSource::PriorOutput));
    assert_eq!(resolve_source(3, true, false), Some(InputSource::PriorOutput));
}

#[test]
fn without_any_file_there_is_nothing_to_read() {
    assert_eq!(resolve_source(1, false, false), None);
    assert_eq!(resolve_source(0, false, false), None);
}

#[test]
fn a_transform_without_input_is_skipped() {
    let op = ChainCommands::Blur {};
    assert_eq!(plan_step(op, 0, false, false), StepAction::SkipStep { op });
}

#[test]
fn generators_run_whatever_the_input_situation() {
    let fractal = ChainCommands::Fractal {};
    let square = ChainCommands::Square { red: 1, green: 2, blue: 3 };
    assert_eq!(plan_step(fractal, 0, false, false), StepAction::RunGenerator { op: fractal });
    assert_eq!(plan_step(square, 2, true, true), StepAction::RunGenerator { op: square });
}

#[test]
fn a_step_after_an_existing_output_reads_the_output() {
    // The output file exists before step 1 runs, so step 1 must read from
    // the output path, not from the declared input.
    let blur = ChainCommands::Blur {};
    let rotate = ChainCommands::Rotate { rotation: mirage::Rotation::Ninety };
    let plan = plan_chain(&vec![blur, rotate], true, false);
    assert_eq!(
        plan,
        vec![
            StepAction::RunTransform { op: blur, source: InputSource::Declared },
            StepAction::RunTransform { op: rotate, source: InputSource::PriorOutput },
        ]
    );
}

#[test]
fn a_generator_feeds_the_following_transform() {
    let square = ChainCommands::Square { red: 9, green: 8, blue: 7 };
    let blur = ChainCommands::Blur {};
    let plan = plan_chain(&vec![square, blur], false, false);
    assert_eq!(
        plan,
        vec![
            StepAction::RunGenerator { op: square },
            StepAction::RunTransform { op: blur, source: InputSource::PriorOutput },
        ]
    );
}

#[test]
fn a_stale_output_file_feeds_every_step_but_the_first() {
    let blur = ChainCommands::Blur {};
    let plan = plan_chain(&vec![blur, blur], false, true);
    assert_eq!(
        plan,
        vec![
            StepAction::SkipStep { op: blur },
            StepAction::RunTransform { op: blur, source: InputSource::PriorOutput },
        ]
    );
}

#[test]
fn skipped_steps_leave_nothing_behind_for_later_steps() {
    let blur = ChainCommands::Blur {};
    let invert = ChainCommands::Invert {};
    let plan = plan_chain(&vec![blur, invert], false, false);
    assert_eq!(
        plan,
        vec![StepAction::SkipStep { op: blur }, StepAction::SkipStep { op: invert }]
    );
}
