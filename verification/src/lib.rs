//! A small engine for intermediate representations: modules of operations
//! in nested regions and blocks, dialects that constrain operations,
//! patterns that rewrite them, and a canonicalizer.

use vstd::prelude::*;
use crate::canonical::{
    canonical_form, canonical_patterns, is_canonical, lemma_step_lowers_measure, measure,
};
use crate::dialects::{
    initial_context, lemma_dialect_names_differ, make_arith_dialect, make_func_dialect,
    make_irdl_dialect, make_pdl_dialect,
};
use crate::engine::{apply_patterns, lemma_no_rewrite_changes_nothing, rewrite_once, run};
use crate::error::Error;
use crate::ir::Module;
use crate::pattern::{patterns_view, Pattern};
use crate::pdl::{compile_patterns, patterns_in};
use crate::registry::{lemma_position_missing, Context};
use crate::scope::structured;

pub mod attribute;
pub mod attribute_notation;
pub mod builder;
pub mod builtin;
pub mod canonical;
pub mod constraint;
pub mod construction;
pub mod core_module;
pub mod dialects;
pub mod engine;
pub mod error;
pub mod format;
pub mod ir;
pub mod irdl;
pub mod matcher;
pub mod module_notation;
pub mod notation;
pub mod pattern;
pub mod pdl;
pub mod plan;
pub mod preservation;
pub mod registry;
pub mod rewrite;
pub mod scope;
pub mod text;
pub mod types;

verus! {

/// A context with the dialects that every context starts with: `func`,
/// `arith`, `irdl` and `pdl`.
pub fn initialize_context() -> (context: Context)
    ensures
        context@ == initial_context(),
        context@.wf(),
{
    proof {
        lemma_dialect_names_differ();
    }
    let mut context = Context::new();
    proof {
        lemma_position_missing(context@.names(), "func"@);
    }
    context.register_dialect(make_func_dialect()).unwrap();
    proof {
        assert(context@.names() =~= seq!["func"@]);
        lemma_position_missing(context@.names(), "arith"@);
    }
    context.register_dialect(make_arith_dialect()).unwrap();
    proof {
        assert(context@.names() =~= seq!["func"@, "arith"@]);
        lemma_position_missing(context@.names(), "irdl"@);
    }
    context.register_dialect(make_irdl_dialect()).unwrap();
    proof {
        assert(context@.names() =~= seq!["func"@, "arith"@, "irdl"@]);
        lemma_position_missing(context@.names(), "pdl"@);
    }
    context.register_dialect(make_pdl_dialect()).unwrap();
    proof {
        assert(context@.dialects =~= initial_context().dialects);
    }
    context
}

/// The number of rewrites after which [`apply_pdl_patterns`] gives up.
pub const DEFAULT_MAX_ITERATIONS: usize = 10;

/// Compiles the patterns that `pattern_module` describes and applies them
/// to `target_module` until none applies anywhere or
/// [`DEFAULT_MAX_ITERATIONS`] rewrites were made.
///
/// `MalformedOperation` is reported, and the target left as it is, where a
/// description of a pattern is not in order. `MaxIterationsExceeded` is
/// reported where rewrites were still possible at the limit; the target is
/// then left as the rewrites made so far have it.
pub fn apply_pdl_patterns(target_module: &mut Module, pattern_module: &Module) -> (outcome: Result<
    (),
    Error,
>)
    requires
        old(target_module)@.wf(),
        pattern_module@.wf(),
    ensures
        final(target_module)@.wf(),
        structured(old(target_module)@) ==> structured(final(target_module)@),
        match patterns_in(pattern_module@) {
            None => {
                &&& outcome == Err::<(), Error>(Error::MalformedOperation)
                &&& final(target_module)@ == old(target_module)@
            },
            Some(patterns) => {
                let end = run(old(target_module)@, patterns, DEFAULT_MAX_ITERATIONS as nat);
                &&& final(target_module)@ == end.0
                &&& match outcome {
                    Ok(()) => end.1,
                    Err(error) => error == Error::MaxIterationsExceeded && !end.1,
                }
            },
        },
{
    let patterns = match compile_patterns(pattern_module) {
        Some(patterns) => patterns,
        None => {
            return Err(Error::MalformedOperation);
        },
    };
    apply_patterns(target_module, &patterns, DEFAULT_MAX_ITERATIONS)
}

/// Brings `module` into canonical form: folds arithmetic on integer
/// literals and erases arithmetic whose results nothing reads, until
/// neither is possible anywhere.
///
/// This always comes to an end, and a module in canonical form is left as
/// it is.
pub fn canonicalize(module: &mut Module)
    requires
        old(module)@.wf(),
    ensures
        final(module)@.wf(),
        structured(old(module)@) ==> structured(final(module)@),
        final(module)@ == canonical_form(old(module)@),
        is_canonical(final(module)@),
{
    let mut patterns: Vec<Pattern> = Vec::new();
    patterns.push(Pattern::FoldConstants);
    patterns.push(Pattern::EraseUnused);
    proof {
        assert(patterns_view(patterns@) =~= canonical_patterns());
    }
    let ghost before = module@;
    let ghost mut fuel: nat = measure(before);
    loop
        invariant
            module@.wf(),
            structured(before) ==> structured(module@),
            patterns_view(patterns@) == canonical_patterns(),
            before == old(module)@,
            measure(module@) <= fuel,
            run(before, canonical_patterns(), measure(before)) == run(
                module@,
                canonical_patterns(),
                fuel,
            ),
        decreases measure(module@),
    {
        let ghost current = module@;
        if !rewrite_once(module, &patterns) {
            proof {
                lemma_no_rewrite_changes_nothing(current, canonical_patterns(), fuel);
            }
            return ;
        }
        proof {
            lemma_step_lowers_measure(current);
            fuel = (fuel - 1) as nat;
        }
    }
}

} // verus!
