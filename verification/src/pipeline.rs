//! The chain executor's decisions.
//!
//! Executing a chain is a sequence of filesystem effects, but every decision
//! along the way is pure: which file a step reads (the declared input, or
//! the output written by an earlier step), whether a step runs at all, and
//! whether a generator ignores its input.  Those decisions live here, as an
//! explicit pipeline state threaded functionally through the chain, and the
//! binary around the library merely carries them out.
//!
//! A step whose operation needs an input that cannot be resolved is skipped
//! outright rather than failing; the plan records the skip so that a caller
//! can surface it.

use vstd::prelude::*;

use crate::commands::ChainCommands;

verus! {

/// Where a transform step reads its image from.
#[derive(Clone, Copy, PartialEq, Eq, Structural, Debug)]
pub enum InputSource {
    /// The input file the user declared.
    Declared,
    /// The output file, holding what the previous steps produced.
    PriorOutput,
}

/// What one step of the chain does when the executor reaches it.
#[derive(Clone, Copy, PartialEq, Eq, Structural, Debug)]
pub enum StepAction {
    /// Apply the transform to the image read from `source` and write the
    /// result to the output file.
    RunTransform { op: ChainCommands, source: InputSource },
    /// Produce a fresh image and write it to the output file; no input is
    /// read.
    RunGenerator { op: ChainCommands },
    /// Do nothing: the operation needs an input and none is resolvable.
    SkipStep { op: ChainCommands },
}

/// Generator operations produce an image from scratch and ignore any input.
pub open spec fn is_generator(op: ChainCommands) -> bool {
    op is Fractal || op is Square
}

/// The input a step resolves to: the output file once it exists and at
/// least one step has already run, else the declared input if there is one,
/// else nothing.
pub open spec fn spec_resolve_source(
    index: int,
    output_exists: bool,
    has_declared_input: bool,
) -> Option<InputSource> {
    if output_exists && index != 0 {
        Some(InputSource::PriorOutput)
    } else if has_declared_input {
        Some(InputSource::Declared)
    } else {
        None
    }
}

/// The action of one step: generators always run; a transform runs on its
/// resolved input, or is skipped when none resolves.
pub open spec fn spec_plan_step(
    op: ChainCommands,
    index: int,
    output_exists: bool,
    has_declared_input: bool,
) -> StepAction {
    if is_generator(op) {
        StepAction::RunGenerator { op }
    } else {
        match spec_resolve_source(index, output_exists, has_declared_input) {
            Some(source) => StepAction::RunTransform { op, source },
            None => StepAction::SkipStep { op },
        }
    }
}

/// A step that runs writes the output file; a skipped step leaves the world
/// alone.
pub open spec fn step_writes_output(a: StepAction) -> bool {
    a is RunTransform || a is RunGenerator
}

/// The plan of the part of the chain that starts at step `index`, given
/// whether the output file exists when that step is reached.
pub open spec fn spec_plan_from(
    chain: Seq<ChainCommands>,
    index: int,
    output_exists: bool,
    has_declared_input: bool,
) -> Seq<StepAction>
    decreases chain.len(),
{
    if chain.len() == 0 {
        Seq::empty()
    } else {
        let a = spec_plan_step(chain[0], index, output_exists, has_declared_input);
        seq![a] + spec_plan_from(
            chain.drop_first(),
            index + 1,
            output_exists || step_writes_output(a),
            has_declared_input,
        )
    }
}

/// The plan of a whole chain, step by step from the first.
pub open spec fn spec_plan(
    chain: Seq<ChainCommands>,
    has_declared_input: bool,
    output_exists_at_start: bool,
) -> Seq<StepAction> {
    spec_plan_from(chain, 0, output_exists_at_start, has_declared_input)
}

/// Whether the output file exists when step `i` is reached (counting from
/// the state `output_exists_at_start` before step 0, at `index_base` in the
/// whole chain), assuming every planned write succeeds.
pub open spec fn spec_output_exists_before(
    chain: Seq<ChainCommands>,
    i: int,
    index_base: int,
    output_exists_at_start: bool,
    has_declared_input: bool,
) -> bool
    decreases i,
{
    if i <= 0 {
        output_exists_at_start
    } else {
        let prev = spec_output_exists_before(
            chain,
            i - 1,
            index_base,
            output_exists_at_start,
            has_declared_input,
        );
        prev || step_writes_output(
            spec_plan_step(chain[i - 1], index_base + i - 1, prev, has_declared_input),
        )
    }
}

/// Whether the output file exists once the whole chain has run (assuming
/// every planned write succeeds): the state before the step past the last.
pub open spec fn spec_output_exists_after(
    chain: Seq<ChainCommands>,
    has_declared_input: bool,
    output_exists_at_start: bool,
) -> bool {
    spec_output_exists_before(
        chain,
        chain.len() as int,
        0,
        output_exists_at_start,
        has_declared_input,
    )
}

/// Resolves the input of one step, as the executor does: the output file is
/// preferred as soon as it exists and the step is not the first, the
/// declared input comes next, and without either there is nothing to read.
pub fn resolve_source(index: usize, output_exists: bool, has_declared_input: bool) -> (r: Option<
    InputSource,
>)
    ensures
        r == spec_resolve_source(index as int, output_exists, has_declared_input),
{
    if output_exists && index != 0 {
        Some(InputSource::PriorOutput)
    } else if has_declared_input {
        Some(InputSource::Declared)
    } else {
        None
    }
}

/// Decides one step of the chain from the observed state of the world:
/// generators run unconditionally, transforms run on their resolved input,
/// and a transform with no resolvable input is skipped.
pub fn plan_step(
    op: ChainCommands,
    index: usize,
    output_exists: bool,
    has_declared_input: bool,
) -> (a: StepAction)
    ensures
        a == spec_plan_step(op, index as int, output_exists, has_declared_input),
{
    let generator = match op {
        ChainCommands::Fractal {  } => true,
        ChainCommands::Square { .. } => true,
        _ => false,
    };
    if generator {
        StepAction::RunGenerator { op }
    } else {
        match resolve_source(index, output_exists, has_declared_input) {
            Some(source) => StepAction::RunTransform { op, source },
            None => StepAction::SkipStep { op },
        }
    }
}

/// Plans a whole chain before anything runs, threading the existence of the
/// output file through the steps: once any step writes it, every later
/// transform reads from it.  The plan assumes each planned write succeeds
/// (a failing write aborts the run anyway).
pub fn plan_chain(
    chain: &Vec<ChainCommands>,
    has_declared_input: bool,
    output_exists_at_start: bool,
) -> (plan: Vec<StepAction>)
    ensures
        plan@ == spec_plan(chain@, has_declared_input, output_exists_at_start),
{
    let n = chain.len();
    let mut plan: Vec<StepAction> = Vec::new();
    let mut output_exists = output_exists_at_start;
    let mut i: usize = 0;
    proof {
        assert(chain@.skip(0) =~= chain@);
    }
    while i < n
        invariant
            i <= n,
            n == chain@.len(),
            plan@.len() == i,
            spec_plan(chain@, has_declared_input, output_exists_at_start) == plan@
                + spec_plan_from(
                chain@.skip(i as int),
                i as int,
                output_exists,
                has_declared_input,
            ),
        decreases n - i,
    {
        let a = plan_step(chain[i], i, output_exists, has_declared_input);
        let ghost prev = plan@;
        let ghost rest = chain@.skip(i as int);
        plan.push(a);
        if match a {
            StepAction::SkipStep { .. } => false,
            _ => true,
        } {
            output_exists = true;
        }
        proof {
            assert(rest[0] == chain@[i as int]);
            assert(rest.drop_first() =~= chain@.skip(i + 1));
            assert(prev + (seq![a] + spec_plan_from(
                chain@.skip(i + 1),
                i + 1,
                output_exists,
                has_declared_input,
            )) =~= (prev + seq![a]) + spec_plan_from(
                chain@.skip(i + 1),
                i + 1,
                output_exists,
                has_declared_input,
            ));
        }
        i += 1;
    }
    proof {
        assert(chain@.skip(n as int) =~= Seq::<ChainCommands>::empty());
        assert(plan@ + Seq::<StepAction>::empty() =~= plan@);
    }
    plan
}

/// The plan has one action per operation of the chain.
pub proof fn lemma_plan_len(
    chain: Seq<ChainCommands>,
    index: int,
    output_exists: bool,
    has_declared_input: bool,
)
    ensures
        spec_plan_from(chain, index, output_exists, has_declared_input).len() == chain.len(),
    decreases chain.len(),
{
    if chain.len() > 0 {
        let a = spec_plan_step(chain[0], index, output_exists, has_declared_input);
        lemma_plan_len(
            chain.drop_first(),
            index + 1,
            output_exists || step_writes_output(a),
            has_declared_input,
        );
    }
}

/// Shifting the whole-chain numbering does not change how the existence of
/// the output file evolves, as long as no step is numbered zero twice.
proof fn lemma_output_exists_shift(
    chain: Seq<ChainCommands>,
    i: int,
    index_base: int,
    output_exists: bool,
    has_declared_input: bool,
)
    requires
        1 <= i <= chain.len(),
        index_base >= 0,
    ensures
        spec_output_exists_before(
            chain.drop_first(),
            i - 1,
            index_base + 1,
            output_exists || step_writes_output(
                spec_plan_step(chain[0], index_base, output_exists, has_declared_input),
            ),
            has_declared_input,
        ) == spec_output_exists_before(
            chain,
            i,
            index_base,
            output_exists,
            has_declared_input,
        ),
    decreases i,
{
    if i == 1 {
        assert(spec_output_exists_before(chain, 0, index_base, output_exists, has_declared_input)
            == output_exists);
    } else {
        lemma_output_exists_shift(chain, i - 1, index_base, output_exists, has_declared_input);
        assert(chain.drop_first()[i - 2] == chain[i - 1]);
        assert(spec_output_exists_before(
            chain,
            i,
            index_base,
            output_exists,
            has_declared_input,
        ) == (spec_output_exists_before(
            chain,
            i - 1,
            index_base,
            output_exists,
            has_declared_input,
        ) || step_writes_output(
            spec_plan_step(
                chain[i - 1],
                index_base + i - 1,
                spec_output_exists_before(
                    chain,
                    i - 1,
                    index_base,
                    output_exists,
                    has_declared_input,
                ),
                has_declared_input,
            ),
        )));
    }
}

/// Each action of the plan is the decision for its own step, taken in the
/// state the earlier steps left behind.
pub proof fn lemma_plan_index(
    chain: Seq<ChainCommands>,
    i: int,
    index_base: int,
    output_exists: bool,
    has_declared_input: bool,
)
    requires
        0 <= i < chain.len(),
        index_base >= 0,
    ensures
        spec_plan_from(chain, index_base, output_exists, has_declared_input)[i]
            == spec_plan_step(
            chain[i],
            index_base + i,
            spec_output_exists_before(chain, i, index_base, output_exists, has_declared_input),
            has_declared_input,
        ),
    decreases i,
{
    lemma_plan_len(chain, index_base, output_exists, has_declared_input);
    if i > 0 {
        let a = spec_plan_step(chain[0], index_base, output_exists, has_declared_input);
        let next_exists = output_exists || step_writes_output(a);
        lemma_plan_index(chain.drop_first(), i - 1, index_base + 1, next_exists, has_declared_input);
        lemma_output_exists_shift(chain, i, index_base, output_exists, has_declared_input);
        assert(chain.drop_first()[i - 1] == chain[i]);
        lemma_plan_len(chain.drop_first(), index_base + 1, next_exists, has_declared_input);
        assert(spec_plan_from(chain, index_base, output_exists, has_declared_input)[i]
            == spec_plan_from(chain.drop_first(), index_base + 1, next_exists, has_declared_input)[
            i - 1]);
    }
}

/// The output file exists when step `i` is reached exactly when it existed
/// at the start or some earlier step of the plan writes it.
proof fn lemma_output_exists_iff_write(
    chain: Seq<ChainCommands>,
    i: int,
    index_base: int,
    output_exists: bool,
    has_declared_input: bool,
)
    requires
        0 <= i <= chain.len(),
        index_base >= 0,
    ensures
        spec_output_exists_before(chain, i, index_base, output_exists, has_declared_input) <==> (
        output_exists || exists|k: int|
            0 <= k < i && step_writes_output(
                #[trigger] spec_plan_from(chain, index_base, output_exists, has_declared_input)[k],
            )),
    decreases i,
{
    let plan = spec_plan_from(chain, index_base, output_exists, has_declared_input);
    if i > 0 {
        lemma_output_exists_iff_write(chain, i - 1, index_base, output_exists, has_declared_input);
        let prev = spec_output_exists_before(
            chain,
            i - 1,
            index_base,
            output_exists,
            has_declared_input,
        );
        lemma_plan_index(chain, i - 1, index_base, output_exists, has_declared_input);
        assert(plan[i - 1] == spec_plan_step(
            chain[i - 1],
            index_base + i - 1,
            prev,
            has_declared_input,
        ));
        if spec_output_exists_before(chain, i, index_base, output_exists, has_declared_input) {
            if !prev {
                assert(step_writes_output(plan[i - 1]));
            }
        }
    }
}

/// After the whole chain, the output file exists exactly when it existed at
/// the start or some step of the plan writes it: a chain whose steps were
/// all skipped produces no file.
pub proof fn lemma_output_after_chain(
    chain: Seq<ChainCommands>,
    has_declared_input: bool,
    output_exists_at_start: bool,
)
    ensures
        spec_output_exists_after(chain, has_declared_input, output_exists_at_start) <==> (
        output_exists_at_start || exists|k: int|
            0 <= k < chain.len() && step_writes_output(
                #[trigger] spec_plan(chain, has_declared_input, output_exists_at_start)[k],
            )),
{
    lemma_output_exists_iff_write(
        chain,
        chain.len() as int,
        0,
        output_exists_at_start,
        has_declared_input,
    );
    let n = chain.len() as int;
    if spec_output_exists_after(chain, has_declared_input, output_exists_at_start)
        && !output_exists_at_start {
        let k = choose|k: int|
            0 <= k < n && step_writes_output(
                #[trigger] spec_plan_from(chain, 0, output_exists_at_start, has_declared_input)[k],
            );
        assert(step_writes_output(
            spec_plan(chain, has_declared_input, output_exists_at_start)[k],
        ));
    }
    if exists|k: int|
        0 <= k < n && step_writes_output(
            #[trigger] spec_plan(chain, has_declared_input, output_exists_at_start)[k],
        ) {
        let k = choose|k: int|
            0 <= k < n && step_writes_output(
                #[trigger] spec_plan(chain, has_declared_input, output_exists_at_start)[k],
            );
        assert(step_writes_output(
            spec_plan_from(chain, 0, output_exists_at_start, has_declared_input)[k],
        ));
    }
}

/// Once the output file exists before a step that is not the first, that
/// step — unless it is a generator — reads from the output file, never from
/// the declared input: the chain hands each result to the next step through
/// the output path.
pub proof fn lemma_prior_output_preferred(
    chain: Seq<ChainCommands>,
    i: int,
    has_declared_input: bool,
    output_exists_at_start: bool,
)
    requires
        0 < i < chain.len(),
        !is_generator(chain[i]),
        spec_output_exists_before(chain, i, 0, output_exists_at_start, has_declared_input),
    ensures
        spec_plan(chain, has_declared_input, output_exists_at_start)[i]
            == (StepAction::RunTransform { op: chain[i], source: InputSource::PriorOutput }),
{
    lemma_plan_index(chain, i, 0, output_exists_at_start, has_declared_input);
}

} // verus!
