//! The transform pipeline: a fixed registry of named, prioritized passes.
//! Requested names are resolved and deduplicated up front; the passes then
//! run in ascending priority order regardless of request order, preceded by
//! the unconditional data-section load-address fixup and followed by the
//! one commit traversal.

use vstd::prelude::*;
use vstd::string::*;
use crate::error::Error;
use crate::passes::{
    first_named_v, run_bad_interrupt_exit, run_main_prologue, spec_bad_interrupt_prog,
    spec_main_prologue_prog,
};
use crate::program::{
    CodeSectionV, Part, PartV, Program, ProgramV, spec_apply_patches, spec_first_part_named,
    spec_fixup_insns,
};
use crate::text::str_eq;

verus! {

/// The registered passes.  Priorities are the order of the variants:
/// the splice pass runs before the retargeting pass.
pub enum Step {
    MainPrologue,
    BadInterruptExit,
}

pub open spec fn step_name(s: Step) -> Seq<char> {
    match s {
        Step::MainPrologue => "main-prologue"@,
        Step::BadInterruptExit => "bad-interrupt-exit"@,
    }
}

/// The closed pass-name vocabulary.
pub open spec fn spec_known_step(n: Seq<char>) -> bool {
    n == "main-prologue"@ || n == "bad-interrupt-exit"@
}

pub open spec fn spec_requested(names: Seq<Seq<char>>, n: Seq<char>) -> bool {
    exists|i: int| 0 <= i < names.len() && names[i] == n
}

pub open spec fn all_steps_known(names: Seq<Seq<char>>) -> bool {
    forall|i: int| 0 <= i < names.len() ==> spec_known_step(names[i])
}

/// The deduplicated execution order: a pure function of which names are
/// requested, never of the order they were requested in.
pub open spec fn spec_plan(names: Seq<Seq<char>>) -> Seq<Step> {
    let a: Seq<Step> = if spec_requested(names, "main-prologue"@) {
        seq![Step::MainPrologue]
    } else {
        Seq::empty()
    };
    let b: Seq<Step> = if spec_requested(names, "bad-interrupt-exit"@) {
        seq![Step::BadInterruptExit]
    } else {
        Seq::empty()
    };
    a + b
}

/// What one pass does to the program.
pub open spec fn spec_run_step(p: ProgramV, s: Step) -> (ProgramV, Option<Error>) {
    match s {
        Step::MainPrologue => spec_main_prologue_prog(p),
        Step::BadInterruptExit => spec_bad_interrupt_prog(p),
    }
}

/// Runs a plan in order, fail-fast: the first failing pass aborts the
/// rest, leaving whatever state it reached.
pub open spec fn spec_run_steps(p: ProgramV, plan: Seq<Step>) -> (ProgramV, Option<
    (Seq<char>, Error),
>)
    decreases plan.len(),
{
    if plan.len() == 0 {
        (p, None)
    } else {
        let out = spec_run_step(p, plan[0]);
        match out.1 {
            Some(e) => (out.0, Some((step_name(plan[0]), e))),
            None => spec_run_steps(out.0, plan.drop_first()),
        }
    }
}

/// The unconditional data-section load-address fixup, over the program
/// model.
pub open spec fn spec_fixup_prog(p: ProgramV) -> (ProgramV, Option<Error>) {
    match p.text {
        None => (p, Some(Error::NoTextSection)),
        Some(t) => {
            let j = first_named_v(t.parts, "__do_copy_data"@);
            if j < 0 {
                (p, Some(Error::CopyDataNotFound))
            } else {
                let scan = spec_fixup_insns(t.parts[j].insns, false, false);
                (
                    ProgramV {
                        text: Some(
                            CodeSectionV {
                                name: t.name,
                                parts: t.parts.update(
                                    j,
                                    PartV {
                                        name: t.parts[j].name,
                                        demangled: t.parts[j].demangled,
                                        insns: scan.0,
                                        patch: t.parts[j].patch,
                                    },
                                ),
                            },
                        ),
                        data: p.data,
                        device: p.device,
                    },
                    if scan.1 {
                        None
                    } else {
                        Some(Error::NoDataLoadAddr)
                    },
                )
            }
        },
    }
}

/// How the pipeline as a whole can end.
pub ghost enum PipeErr {
    Unknown(Seq<char>),
    Fixup(Error),
    InStep(Seq<char>, Error),
}

/// The whole pipeline as a function of the program model and the
/// requested names: validate, fix up, run the plan, then commit.
pub open spec fn spec_pipeline(p: ProgramV, names: Seq<Seq<char>>) -> (ProgramV, Option<
    PipeErr,
>) {
    if !all_steps_known(names) {
        (p, Some(PipeErr::Unknown(arbitrary())))
    } else {
        let fx = spec_fixup_prog(p);
        match fx.1 {
            Some(e) => (fx.0, Some(PipeErr::Fixup(e))),
            None => {
                let run = spec_run_steps(fx.0, spec_plan(names));
                match run.1 {
                    Some((nm, e)) => (run.0, Some(PipeErr::InStep(nm, e))),
                    None => (spec_apply_patches(run.0), None),
                }
            },
        }
    }
}

/// The recursive first-match index over parts agrees between the part run
/// and its model.
proof fn lemma_first_named_bridge(parts: Seq<Part>, name: Seq<char>)
    ensures
        spec_first_part_named(parts, name) == first_named_v(
            parts.map_values(|p: Part| p@),
            name,
        ),
    decreases parts.len(),
{
    if parts.len() > 0 {
        assert(parts.map_values(|p: Part| p@)[0] == parts[0]@);
        assert(parts.drop_first().map_values(|p: Part| p@) =~= parts.map_values(
            |p: Part| p@,
        ).drop_first());
        lemma_first_named_bridge(parts.drop_first(), name);
    }
}

/// Resolves the requested step names against the registry, rejecting
/// unknown names before anything runs, and yields the priority-ordered,
/// deduplicated plan.
pub fn plan_steps(steps: &Vec<String>) -> (r: Result<Vec<Step>, Error>)
    ensures
        ({
            let names = steps@.map_values(|s: String| s@);
            &&& (r is Ok <==> all_steps_known(names))
            &&& (r matches Ok(v) ==> v@ == spec_plan(names))
            &&& (r matches Err(e) ==> e matches Error::UnknownStep(n) && !spec_known_step(n@)
                && (exists|i: int|
                0 <= i < names.len() && names[i] == n@ && (forall|j: int|
                    0 <= j < i ==> spec_known_step(#[trigger] names[j]))))
        }),
{
    let ghost names = steps@.map_values(|s: String| s@);
    proof {
        reveal_strlit("main-prologue");
        reveal_strlit("bad-interrupt-exit");
    }
    let n: usize = steps.len();
    let mut want_mp: bool = false;
    let mut want_bie: bool = false;
    let mut i: usize = 0;
    while i < n
        invariant
            i <= n,
            n == steps@.len(),
            names == steps@.map_values(|s: String| s@),
            forall|k: int| 0 <= k < i ==> spec_known_step(names[k]),
            want_mp <==> exists|k: int| 0 <= k < i && names[k] == "main-prologue"@,
            want_bie <==> exists|k: int| 0 <= k < i && names[k] == "bad-interrupt-exit"@,
        decreases n - i,
    {
        proof {
            reveal_strlit("main-prologue");
            reveal_strlit("bad-interrupt-exit");
        }
        assert(names[i as int] == steps@[i as int]@);
        if str_eq(steps[i].as_str(), "main-prologue") {
            want_mp = true;
        } else if str_eq(steps[i].as_str(), "bad-interrupt-exit") {
            want_bie = true;
        } else {
            proof {
                assert(names[i as int] == steps@[i as int]@ && (forall|j: int|
                    0 <= j < i ==> spec_known_step(#[trigger] names[j])));
            }
            return Err(Error::UnknownStep(steps[i].clone()));
        }
        i += 1;
    }
    proof {
        if want_mp {
            assert(spec_requested(names, "main-prologue"@));
        } else {
            assert(!spec_requested(names, "main-prologue"@));
        }
        if want_bie {
            assert(spec_requested(names, "bad-interrupt-exit"@));
        } else {
            assert(!spec_requested(names, "bad-interrupt-exit"@));
        }
    }
    let mut v: Vec<Step> = Vec::new();
    if want_mp {
        v.push(Step::MainPrologue);
    }
    if want_bie {
        v.push(Step::BadInterruptExit);
    }
    assert(v@ =~= spec_plan(names));
    Ok(v)
}

/// Runs the pipeline: validates the requested names, applies the
/// unconditional load-address fixup, runs the active passes in priority
/// order, and commits every staged patch.  An unknown name rejects the
/// request before the program is touched at all.
pub fn patch_program(program: &mut Program, steps: &Vec<String>) -> (r: Result<(), Error>)
    ensures
        ({
            let out = spec_pipeline(old(program)@, steps@.map_values(|s: String| s@));
            &&& match out.1 {
                None => r is Ok && final(program)@ == out.0,
                Some(pe) => r matches Err(e) && final(program)@ == out.0 && (match pe {
                    PipeErr::Unknown(_) => e is UnknownStep && *final(program) == *old(program),
                    PipeErr::Fixup(fe) => e == fe,
                    PipeErr::InStep(nm, se) => e matches Error::InStep(n2, be) && n2@ == nm
                        && *be == se,
                }),
            }
        }),
{
    let ghost names = steps@.map_values(|s: String| s@);
    let plan = match plan_steps(steps) {
        Err(e) => {
            return Err(e);
        },
        Ok(v) => v,
    };
    let fixup_res = program.fixup_data_load_addr();
    proof {
        if old(program).text is Some {
            let parts = old(program).text->0.parts@;
            let t = old(program)@.text->0;
            assert(t.parts =~= parts.map_values(|p: Part| p@));
            lemma_first_named_bridge(parts, "__do_copy_data"@);
            crate::program::lemma_first_part_named_range(parts, "__do_copy_data"@);
            let j = spec_first_part_named(parts, "__do_copy_data"@);
            if j >= 0 {
                assert(t.parts[j] == parts[j]@);
            }
        }
        assert(program@ =~~= spec_fixup_prog(old(program)@).0);
    }
    match fixup_res {
        Err(e) => {
            return Err(e);
        },
        Ok(()) => {
        },
    }
    let ghost afterfix = spec_fixup_prog(old(program)@).0;
    let m: usize = plan.len();
    assert(plan@.subrange(0, m as int) =~= plan@);
    let mut k: usize = 0;
    while k < m
        invariant
            k <= m,
            m == plan@.len(),
            names == steps@.map_values(|s: String| s@),
            all_steps_known(names),
            plan@ == spec_plan(names),
            spec_fixup_prog(old(program)@).1 is None,
            afterfix == spec_fixup_prog(old(program)@).0,
            spec_run_steps(afterfix, plan@) == spec_run_steps(
                program@,
                plan@.subrange(k as int, m as int),
            ),
        decreases m - k,
    {
        let ghost suffix = plan@.subrange(k as int, m as int);
        proof {
            assert(suffix[0] == plan@[k as int]);
            assert(suffix.drop_first() =~= plan@.subrange(k + 1, m as int));
        }
        let ghost before = program@;
        let step_res = match plan[k] {
            Step::MainPrologue => run_main_prologue(program),
            Step::BadInterruptExit => run_bad_interrupt_exit(program),
        };
        match step_res {
            Err(e) => {
                proof {
                    assert(spec_run_steps(before, suffix) == (
                        program@,
                        Some((step_name(plan@[k as int]), e)),
                    ));
                    assert(spec_run_steps(afterfix, spec_plan(names)) == (
                        program@,
                        Some((step_name(plan@[k as int]), e)),
                    ));
                    assert(spec_pipeline(old(program)@, names).1 == Some(
                        PipeErr::InStep(step_name(plan@[k as int]), e),
                    ));
                    assert(spec_pipeline(old(program)@, names).0 == program@);
                }
                let name = match plan[k] {
                    Step::MainPrologue => String::from_str("main-prologue"),
                    Step::BadInterruptExit => String::from_str("bad-interrupt-exit"),
                };
                assert(name@ == step_name(plan@[k as int]));
                return Err(Error::InStep(name, Box::new(e)));
            },
            Ok(()) => {
            },
        }
        k += 1;
    }
    proof {
        assert(plan@.subrange(m as int, m as int).len() == 0);
    }
    program.apply_patches();
    Ok(())
}

/// The priority-ordering law: two requests naming the same set of steps
/// plan identically, so the pipeline's outcome depends only on which
/// steps are requested, never on the order they are requested in.
pub proof fn lemma_pipeline_order_independent(
    p: ProgramV,
    ns1: Seq<Seq<char>>,
    ns2: Seq<Seq<char>>,
)
    requires
        forall|n: Seq<char>| spec_requested(ns1, n) == spec_requested(ns2, n),
        all_steps_known(ns1),
        all_steps_known(ns2),
    ensures
        spec_plan(ns1) == spec_plan(ns2),
        spec_pipeline(p, ns1) == spec_pipeline(p, ns2),
{
    assert(spec_requested(ns1, "main-prologue"@) == spec_requested(ns2, "main-prologue"@));
    assert(spec_requested(ns1, "bad-interrupt-exit"@) == spec_requested(
        ns2,
        "bad-interrupt-exit"@,
    ));
    assert(spec_plan(ns1) == spec_plan(ns2));
}

} // verus!
