//! The rewrite engine: applies a set of patterns to a module, one rewrite
//! at a time, until none applies or a limit of iterations is reached.
//!
//! Each rewrite takes the first operation, in the order of creation, at
//! which some pattern applies. Of the patterns that apply there, the one
//! with the highest benefit is taken, and of several with that benefit the
//! one that stands first in the set. Nothing else decides, so the same
//! patterns on the same module always give the same result.

use vstd::prelude::*;
use crate::builtin::{erase_plan, fold_plan, plan_erase, plan_fold};
use crate::error::Error;
use crate::ir::{Module, ModuleView};
use crate::matcher::{match_pattern, matched};
use crate::pattern::{bindings_view, patterns_view, Pattern, PatternView};
use crate::plan::{lemma_plan_in_range, make_plan, plan, plan_in_range, Plan, PlanView};
use crate::preservation::{
    fit_for, lemma_commit_keeps_structured, lemma_erase_plan_is_fit, lemma_fold_plan_is_fit,
    lemma_pattern_plan_is_fit,
};
use crate::rewrite::{carry_out, commit};
use crate::scope::structured;

verus! {

/// What `pattern` proposes to put in the place of the operation
/// `candidate`, if it applies there.
pub open spec fn proposal(module: ModuleView, pattern: PatternView, candidate: usize) -> Option<
    PlanView,
> {
    match pattern {
        PatternView::Rewrite(rewrite) => match matched(module, rewrite, candidate) {
            Some(env) => plan(module, rewrite, candidate, env),
            None => None,
        },
        PatternView::FoldConstants => fold_plan(module, candidate),
        PatternView::EraseUnused => erase_plan(module, candidate),
    }
}

/// Whether the pattern at `place` of `patterns` applies at `candidate`.
pub open spec fn applies_at(
    module: ModuleView,
    patterns: Seq<PatternView>,
    candidate: usize,
    place: int,
) -> bool {
    0 <= place < patterns.len() && proposal(module, patterns[place], candidate) is Some
}

/// Whether one of `patterns` applies at `candidate`.
pub open spec fn applies(module: ModuleView, patterns: Seq<PatternView>, candidate: usize) -> bool {
    exists|place: int| applies_at(module, patterns, candidate, place)
}

/// Whether the pattern at `first` is preferred to the one at `second`: it
/// has the higher benefit, or the same and stands no later.
pub open spec fn preferred(patterns: Seq<PatternView>, first: int, second: int) -> bool {
    patterns[second].benefit() < patterns[first].benefit() || (patterns[second].benefit()
        == patterns[first].benefit() && first <= second)
}

/// Whether the pattern at `place` is the one to take at `candidate`: it
/// applies there and is preferred to every other that does.
pub open spec fn is_best(
    module: ModuleView,
    patterns: Seq<PatternView>,
    candidate: usize,
    place: int,
) -> bool {
    &&& applies_at(module, patterns, candidate, place)
    &&& forall|other: int| #[trigger]
        applies_at(module, patterns, candidate, other) ==> preferred(patterns, place, other)
}

/// The place in `patterns` of the pattern to take at `candidate`.
pub open spec fn best(module: ModuleView, patterns: Seq<PatternView>, candidate: usize) -> int {
    choose|place: int| is_best(module, patterns, candidate, place)
}

/// Whether `candidate` is the operation to rewrite next: the first, in the
/// order of creation, at which one of `patterns` applies.
pub open spec fn is_next(module: ModuleView, patterns: Seq<PatternView>, candidate: int) -> bool {
    &&& 0 <= candidate < module.operations.len()
    &&& applies(module, patterns, candidate as usize)
    &&& forall|earlier: int|
        0 <= earlier < candidate ==> !#[trigger] applies(module, patterns, earlier as usize)
}

/// The module after one rewrite, if any of `patterns` applies anywhere.
pub open spec fn step(module: ModuleView, patterns: Seq<PatternView>) -> Option<ModuleView> {
    if exists|candidate: int| is_next(module, patterns, candidate) {
        let candidate = (choose|candidate: int| is_next(module, patterns, candidate)) as usize;
        let place = best(module, patterns, candidate);
        Some(commit(module, candidate, proposal(module, patterns[place], candidate)->0))
    } else {
        None
    }
}

/// The module after at most `fuel` rewrites, and whether a fixpoint was
/// reached, that is, whether no pattern applies to that module any more.
pub open spec fn run(module: ModuleView, patterns: Seq<PatternView>, fuel: nat) -> (
    ModuleView,
    bool,
)
    decreases fuel,
{
    match step(module, patterns) {
        None => (module, true),
        Some(next) => if fuel == 0 {
            (module, false)
        } else {
            run(next, patterns, (fuel - 1) as nat)
        },
    }
}

/// Two patterns that are both the one to take at a candidate are one pattern.
pub proof fn lemma_best_is_unique(
    module: ModuleView,
    patterns: Seq<PatternView>,
    candidate: usize,
    first: int,
    second: int,
)
    requires
        is_best(module, patterns, candidate, first),
        is_best(module, patterns, candidate, second),
    ensures
        first == second,
{
    assert(preferred(patterns, first, second));
    assert(preferred(patterns, second, first));
}

/// The operation to rewrite next is determined.
pub proof fn lemma_next_is_unique(
    module: ModuleView,
    patterns: Seq<PatternView>,
    first: int,
    second: int,
)
    requires
        is_next(module, patterns, first),
        is_next(module, patterns, second),
    ensures
        first == second,
{
    if first < second {
        assert(!applies(module, patterns, first as usize));
    } else if second < first {
        assert(!applies(module, patterns, second as usize));
    }
}

/// What `pattern` proposes to put in the place of the operation `candidate`.
pub fn propose(module: &Module, pattern: &Pattern, candidate: usize) -> (made: Option<Plan>)
    requires
        module@.wf(),
    ensures
        match made {
            Some(found) => {
                &&& proposal(module@, pattern@, candidate) == Some(found@)
                &&& plan_in_range(module@, candidate, found@)
                &&& structured(module@) ==> fit_for(module@, candidate, found@)
            },
            None => proposal(module@, pattern@, candidate) is None,
        },
{
    match pattern {
        Pattern::Rewrite(rewrite) => {
            let env = match match_pattern(module, rewrite, candidate) {
                Some(env) => env,
                None => {
                    return None;
                },
            };
            let ghost bound = bindings_view(env@);
            let made = make_plan(module, rewrite, candidate, env);
            proof {
                module.lemma_counts_are_bounded();
                if made is Some {
                    lemma_plan_in_range(module@, rewrite@, candidate, bound);
                    if structured(module@) {
                        lemma_pattern_plan_is_fit(module@, rewrite@, candidate, bound);
                    }
                }
            }
            made
        },
        Pattern::FoldConstants => {
            let made = plan_fold(module, candidate);
            proof {
                if made is Some && structured(module@) {
                    lemma_fold_plan_is_fit(module@, candidate);
                }
            }
            made
        },
        Pattern::EraseUnused => {
            let made = plan_erase(module, candidate);
            proof {
                if made is Some && structured(module@) {
                    lemma_erase_plan_is_fit(module@, candidate);
                }
            }
            made
        },
    }
}

/// The pattern to take at `candidate` and what it proposes, if any applies.
fn choose_plan(module: &Module, patterns: &Vec<Pattern>, candidate: usize) -> (chosen: Option<
    (usize, Plan),
>)
    requires
        module@.wf(),
    ensures
        match chosen {
            Some((place, found)) => {
                &&& is_best(module@, patterns_view(patterns@), candidate, place as int)
                &&& proposal(module@, patterns_view(patterns@)[place as int], candidate) == Some(
                    found@,
                )
                &&& plan_in_range(module@, candidate, found@)
                &&& structured(module@) ==> fit_for(module@, candidate, found@)
            },
            None => !applies(module@, patterns_view(patterns@), candidate),
        },
{
    let ghost views = patterns_view(patterns@);
    let mut chosen: Option<(usize, Plan)> = None;
    let mut place: usize = 0;
    while place < patterns.len()
        invariant
            place <= patterns.len(),
            module@.wf(),
            views == patterns_view(patterns@),
            match chosen {
                Some((taken, found)) => {
                    &&& taken < place
                    &&& applies_at(module@, views, candidate, taken as int)
                    &&& proposal(module@, views[taken as int], candidate) == Some(found@)
                    &&& plan_in_range(module@, candidate, found@)
                    &&& structured(module@) ==> fit_for(module@, candidate, found@)
                    &&& forall|other: int|
                        0 <= other < place && #[trigger] applies_at(
                            module@,
                            views,
                            candidate,
                            other,
                        ) ==> preferred(views, taken as int, other)
                },
                None => forall|other: int|
                    0 <= other < place ==> !#[trigger] applies_at(
                        module@,
                        views,
                        candidate,
                        other,
                    ),
            },
        decreases patterns.len() - place,
    {
        assert(views[place as int] == patterns@[place as int]@);
        let better = match &chosen {
            Some((taken, _)) => patterns[place].benefit() > patterns[*taken].benefit(),
            None => true,
        };
        match propose(module, &patterns[place], candidate) {
            Some(found) => {
                if better {
                    chosen = Some((place, found));
                }
            },
            None => {},
        }
        place += 1;
    }
    chosen
}

/// Carries out one rewrite, if any of `patterns` applies anywhere in
/// `module`. Says whether it did.
pub fn rewrite_once(module: &mut Module, patterns: &Vec<Pattern>) -> (changed: bool)
    requires
        old(module)@.wf(),
    ensures
        final(module)@.wf(),
        structured(old(module)@) ==> structured(final(module)@),
        match step(old(module)@, patterns_view(patterns@)) {
            Some(next) => changed && final(module)@ == next,
            None => !changed && final(module)@ == old(module)@,
        },
{
    let ghost views = patterns_view(patterns@);
    let ghost before = module@;
    let count = module.operation_count();
    let mut candidate: usize = 0;
    while candidate < count
        invariant
            candidate <= count,
            count == before.operations.len(),
            module@ == before,
            before == old(module)@,
            before.wf(),
            views == patterns_view(patterns@),
            forall|earlier: int|
                0 <= earlier < candidate ==> !#[trigger] applies(before, views, earlier as usize),
        decreases count - candidate,
    {
        match choose_plan(module, patterns, candidate) {
            Some((place, found)) => {
                proof {
                    assert(applies_at(before, views, candidate, place as int));
                    assert(is_next(before, views, candidate as int));
                    let next = choose|c: int| is_next(before, views, c);
                    lemma_next_is_unique(before, views, candidate as int, next);
                    lemma_best_is_unique(
                        before,
                        views,
                        candidate,
                        place as int,
                        best(before, views, candidate),
                    );
                    if structured(before) {
                        lemma_commit_keeps_structured(before, candidate, found@);
                    }
                }
                carry_out(module, candidate, found);
                return true;
            },
            None => {},
        }
        candidate += 1;
    }
    proof {
        assert forall|c: int| !is_next(before, views, c) by {
            if 0 <= c < before.operations.len() {
                assert(!applies(before, views, c as usize));
            }
        }
    }
    false
}

/// Applies `patterns` to `module` until no pattern applies anywhere or
/// `max_iterations` rewrites were made.
///
/// Where rewrites were still possible at the limit, `MaxIterationsExceeded`
/// is reported and the module is left as the rewrites made so far have it:
/// the caller may go on from there or take it as it is.
pub fn apply_patterns(module: &mut Module, patterns: &Vec<Pattern>, max_iterations: usize) -> (outcome:
    Result<(), Error>)
    requires
        old(module)@.wf(),
    ensures
        final(module)@.wf(),
        structured(old(module)@) ==> structured(final(module)@),
        final(module)@ == run(old(module)@, patterns_view(patterns@), max_iterations as nat).0,
        match outcome {
            Ok(()) => run(old(module)@, patterns_view(patterns@), max_iterations as nat).1,
            Err(error) => error == Error::MaxIterationsExceeded && !run(
                old(module)@,
                patterns_view(patterns@),
                max_iterations as nat,
            ).1,
        },
{
    let ghost views = patterns_view(patterns@);
    let ghost before = module@;
    let mut left: usize = max_iterations;
    loop
        invariant
            module@.wf(),
            structured(before) ==> structured(module@),
            views == patterns_view(patterns@),
            before == old(module)@,
            run(before, views, max_iterations as nat) == run(module@, views, left as nat),
        decreases left,
    {
        if left == 0 {
            // At the limit: look whether a rewrite is still possible, and
            // leave the module as it is.
            let open = can_rewrite(module, patterns);
            return if open {
                Err(Error::MaxIterationsExceeded)
            } else {
                Ok(())
            };
        }
        if !rewrite_once(module, patterns) {
            return Ok(());
        }
        left -= 1;
    }
}

/// Whether one of `patterns` applies somewhere in `module`.
pub fn can_rewrite(module: &Module, patterns: &Vec<Pattern>) -> (possible: bool)
    requires
        module@.wf(),
    ensures
        possible == step(module@, patterns_view(patterns@)) is Some,
{
    let ghost views = patterns_view(patterns@);
    let count = module.operation_count();
    let mut candidate: usize = 0;
    while candidate < count
        invariant
            candidate <= count,
            count == module@.operations.len(),
            module@.wf(),
            views == patterns_view(patterns@),
            forall|earlier: int|
                0 <= earlier < candidate ==> !#[trigger] applies(module@, views, earlier as usize),
        decreases count - candidate,
    {
        match choose_plan(module, patterns, candidate) {
            Some((place, found)) => {
                proof {
                    assert(applies_at(module@, views, candidate, place as int));
                    assert(is_next(module@, views, candidate as int));
                }
                return true;
            },
            None => {},
        }
        candidate += 1;
    }
    proof {
        assert forall|c: int| !is_next(module@, views, c) by {
            if 0 <= c < module@.operations.len() {
                assert(!applies(module@, views, c as usize));
            }
        }
    }
    false
}

/// Rewriting is determined: equal modules under equal patterns and an
/// equal limit are rewritten to equal modules, with an equal report on
/// whether a fixpoint was reached.
pub proof fn lemma_rewriting_is_determined(
    first: ModuleView,
    second: ModuleView,
    patterns: Seq<PatternView>,
    other_patterns: Seq<PatternView>,
    fuel: nat,
)
    requires
        first == second,
        patterns == other_patterns,
    ensures
        run(first, patterns, fuel) == run(second, other_patterns, fuel),
{
}

/// A module on which a run ended at a fixpoint admits no further rewrite.
pub proof fn lemma_fixpoint_admits_no_rewrite(
    module: ModuleView,
    patterns: Seq<PatternView>,
    fuel: nat,
)
    requires
        run(module, patterns, fuel).1,
    ensures
        step(run(module, patterns, fuel).0, patterns) is None,
    decreases fuel,
{
    match step(module, patterns) {
        None => {},
        Some(next) => {
            if fuel > 0 {
                lemma_fixpoint_admits_no_rewrite(next, patterns, (fuel - 1) as nat);
            }
        },
    }
}

/// A module that admits no rewrite is left as it is, whatever the limit.
pub proof fn lemma_no_rewrite_changes_nothing(
    module: ModuleView,
    patterns: Seq<PatternView>,
    fuel: nat,
)
    requires
        step(module, patterns) is None,
    ensures
        run(module, patterns, fuel) == (module, true),
{
}

} // verus!
