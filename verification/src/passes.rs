//! The concrete transformation passes: callee-saved prologue elision for
//! the runtime entry point, dual-runtime entry splicing, and retargeting
//! of unused interrupt vectors.  Each pass only stages patches; nothing is
//! applied until the commit traversal runs.

use vstd::prelude::*;
use vstd::string::*;
use crate::abi::{reg_is_callee_saved, spec_callee_saved};
use crate::error::Error;
use crate::program::{
    CodeSection, CodeSectionV, Insn, InsnCore, InsnPatch, InsnPatchV, InsnV, insn_core, Part, PartPatch, PartReplV,
    PartPatchV, PartV, Program, ProgramV,
};
use crate::text::{has_suffix, str_eq, str_ends_with};

verus! {

// ---------------------------------------------------------------------------
// First-index searches over the part run
// ---------------------------------------------------------------------------

/// Index of the first part with the given sanitized name, or -1.
pub open spec fn first_named_v(parts: Seq<PartV>, name: Seq<char>) -> int
    decreases parts.len(),
{
    if parts.len() == 0 {
        -1
    } else if parts[0].name == name {
        0
    } else {
        let rest = first_named_v(parts.drop_first(), name);
        if rest == -1 {
            -1
        } else {
            rest + 1
        }
    }
}

proof fn lemma_first_named_v(parts: Seq<PartV>, name: Seq<char>, j: int)
    requires
        0 <= j < parts.len(),
        parts[j].name == name,
        forall|k: int| 0 <= k < j ==> parts[k].name != name,
    ensures
        first_named_v(parts, name) == j,
    decreases parts.len(),
{
    if j > 0 {
        assert forall|k: int| 0 <= k < j - 1 implies parts.drop_first()[k].name != name by {
            assert(parts.drop_first()[k] == parts[k + 1]);
        }
        assert(parts.drop_first()[j - 1] == parts[j]);
        lemma_first_named_v(parts.drop_first(), name, j - 1);
    }
}

proof fn lemma_no_named_v(parts: Seq<PartV>, name: Seq<char>)
    requires
        forall|k: int| 0 <= k < parts.len() ==> parts[k].name != name,
    ensures
        first_named_v(parts, name) == -1,
    decreases parts.len(),
{
    if parts.len() > 0 {
        assert forall|k: int| 0 <= k < parts.drop_first().len()
            implies parts.drop_first()[k].name != name by {
            assert(parts.drop_first()[k] == parts[k + 1]);
        }
        lemma_no_named_v(parts.drop_first(), name);
    }
}

/// The demangled-name suffix that designates the runtime entry point.
pub open spec fn entry_suffix() -> Seq<char> {
    "::__avr_device_rt_main"@
}

pub open spec fn is_entry_part(p: PartV) -> bool {
    has_suffix(p.demangled, entry_suffix())
}

/// Index of the first part whose demangled name designates the runtime
/// entry point, or -1.
pub open spec fn first_entry_v(parts: Seq<PartV>) -> int
    decreases parts.len(),
{
    if parts.len() == 0 {
        -1
    } else if is_entry_part(parts[0]) {
        0
    } else {
        let rest = first_entry_v(parts.drop_first());
        if rest == -1 {
            -1
        } else {
            rest + 1
        }
    }
}

proof fn lemma_first_entry_v(parts: Seq<PartV>, j: int)
    requires
        0 <= j < parts.len(),
        is_entry_part(parts[j]),
        forall|k: int| 0 <= k < j ==> !is_entry_part(parts[k]),
    ensures
        first_entry_v(parts) == j,
    decreases parts.len(),
{
    if j > 0 {
        assert forall|k: int| 0 <= k < j - 1 implies !is_entry_part(parts.drop_first()[k]) by {
            assert(parts.drop_first()[k] == parts[k + 1]);
        }
        assert(parts.drop_first()[j - 1] == parts[j]);
        lemma_first_entry_v(parts.drop_first(), j - 1);
    }
}

proof fn lemma_no_entry_v(parts: Seq<PartV>)
    requires
        forall|k: int| 0 <= k < parts.len() ==> !is_entry_part(parts[k]),
    ensures
        first_entry_v(parts) == -1,
    decreases parts.len(),
{
    if parts.len() > 0 {
        assert forall|k: int| 0 <= k < parts.drop_first().len() implies !is_entry_part(
            parts.drop_first()[k],
        ) by {
            assert(parts.drop_first()[k] == parts[k + 1]);
        }
        lemma_no_entry_v(parts.drop_first());
    }
}

/// A part whose first instruction is the C runtime's call into `main`.
pub open spec fn is_c_entry_part(p: PartV) -> bool {
    &&& p.insns.len() >= 1
    &&& (p.insns[0].core.name == "rcall"@ || p.insns[0].core.name == "call"@)
    &&& p.insns[0].core.ops.len() == 1
    &&& p.insns[0].core.ops[0] == "main"@
}

/// Index of the first part that calls `main` as its first instruction, or -1.
pub open spec fn first_c_entry_v(parts: Seq<PartV>) -> int
    decreases parts.len(),
{
    if parts.len() == 0 {
        -1
    } else if is_c_entry_part(parts[0]) {
        0
    } else {
        let rest = first_c_entry_v(parts.drop_first());
        if rest == -1 {
            -1
        } else {
            rest + 1
        }
    }
}

proof fn lemma_first_c_entry_v(parts: Seq<PartV>, j: int)
    requires
        0 <= j < parts.len(),
        is_c_entry_part(parts[j]),
        forall|k: int| 0 <= k < j ==> !is_c_entry_part(parts[k]),
    ensures
        first_c_entry_v(parts) == j,
    decreases parts.len(),
{
    if j > 0 {
        assert forall|k: int| 0 <= k < j - 1 implies !is_c_entry_part(
            parts.drop_first()[k],
        ) by {
            assert(parts.drop_first()[k] == parts[k + 1]);
        }
        assert(parts.drop_first()[j - 1] == parts[j]);
        lemma_first_c_entry_v(parts.drop_first(), j - 1);
    }
}

proof fn lemma_no_c_entry_v(parts: Seq<PartV>)
    requires
        forall|k: int| 0 <= k < parts.len() ==> !is_c_entry_part(parts[k]),
    ensures
        first_c_entry_v(parts) == -1,
    decreases parts.len(),
{
    if parts.len() > 0 {
        assert forall|k: int| 0 <= k < parts.drop_first().len() implies !is_c_entry_part(
            parts.drop_first()[k],
        ) by {
            assert(parts.drop_first()[k] == parts[k + 1]);
        }
        lemma_no_c_entry_v(parts.drop_first());
    }
}

// ---------------------------------------------------------------------------
// Callee-saved prologue elision
// ---------------------------------------------------------------------------

pub open spec fn is_push_insn(i: InsnV) -> bool {
    i.core.name == "push"@ && i.core.ops.len() == 1
}

/// Length of the leading run of push instructions: the scan stops at the
/// first non-push instruction.
pub open spec fn push_prefix_len(insns: Seq<InsnV>) -> int
    decreases insns.len(),
{
    if insns.len() == 0 {
        0
    } else if is_push_insn(insns[0]) {
        1 + push_prefix_len(insns.drop_first())
    } else {
        0
    }
}

proof fn lemma_push_prefix_len(insns: Seq<InsnV>, j: int)
    requires
        0 <= j <= insns.len(),
        forall|k: int| 0 <= k < j ==> is_push_insn(insns[k]),
        j < insns.len() ==> !is_push_insn(insns[j as int]),
    ensures
        push_prefix_len(insns) == j,
    decreases insns.len(),
{
    if insns.len() == 0 {
    } else if j == 0 {
    } else {
        assert forall|k: int| 0 <= k < j - 1 implies is_push_insn(insns.drop_first()[k]) by {
            assert(insns.drop_first()[k] == insns[k + 1]);
        }
        if j - 1 < insns.drop_first().len() {
            assert(insns.drop_first()[j - 1] == insns[j]);
        }
        lemma_push_prefix_len(insns.drop_first(), j - 1);
    }
}

/// A push of a callee-saved register gets a delete patch staged; every
/// other instruction is left as it stands.
pub open spec fn elide_insn(i: InsnV) -> InsnV {
    if is_push_insn(i) && spec_callee_saved(i.core.ops[0]) {
        InsnV { core: i.core, patch: Some(InsnPatchV::Delete) }
    } else {
        i
    }
}

/// The elision scan over a whole instruction run: only the leading push
/// run is touched.
pub open spec fn spec_elide(insns: Seq<InsnV>) -> Seq<InsnV> {
    Seq::new(
        insns.len(),
        |i: int|
            if i < push_prefix_len(insns) {
                elide_insn(insns[i])
            } else {
                insns[i]
            },
    )
}

/// Stages deletion of the callee-saved pushes in a part's leading push
/// run; the part never returns to a caller, so preserving caller state is
/// dead work.
pub fn elide_entry_prologue(part: &mut Part)
    ensures
        final(part)@.insns == spec_elide(old(part)@.insns),
        final(part).name == old(part).name,
        final(part).demangled == old(part).demangled,
        final(part).patch == old(part).patch,
{
    let ghost o = part.insns@.map_values(|j: Insn| j@);
    let n: usize = part.insns.len();
    let mut k: usize = 0;
    let mut stop: bool = false;
    while k < n && !stop
        invariant
            k <= n,
            n == part.insns@.len(),
            o.len() == n,
            o == old(part).insns@.map_values(|j: Insn| j@),
            part.name == old(part).name,
            part.demangled == old(part).demangled,
            part.patch == old(part).patch,
            !stop ==> forall|m: int| 0 <= m < k ==> is_push_insn(o[m]),
            stop ==> push_prefix_len(o) == k,
            forall|m: int|
                0 <= m < k ==> #[trigger] part.insns@[m]@ == (if is_push_insn(o[m]) {
                    elide_insn(o[m])
                } else {
                    o[m]
                }),
            forall|m: int| k <= m < n ==> #[trigger] part.insns@[m]@ == o[m],
        decreases n - k, (if stop { 0int } else { 1int }),
    {
        let ghost cur = part.insns@;
        let insn: &mut crate::program::Insn = &mut part.insns[k];
        assert(insn@ == o[k as int]);
        let is_push: bool = str_eq(insn.name.as_str(), "push") && insn.ops.len() == 1;
        if is_push {
            proof {
                assert(insn@.core.ops[0] == insn.ops@[0]@);
            }
            if reg_is_callee_saved(insn.ops[0].as_str()) {
                insn.set_patch(Some(InsnPatch::Delete));
                assert(insn@ =~~= elide_insn(o[k as int]));
            } else {
                assert(insn@ =~~= elide_insn(o[k as int]));
            }
            proof {
                assert forall|m: int| 0 <= m < n && m != k implies part.insns@[m] == cur[m] by {
                }
            }
            k += 1;
        } else {
            proof {
                lemma_push_prefix_len(o, k as int);
            }
            stop = true;
        }
    }
    proof {
        if !stop {
            lemma_push_prefix_len(o, n as int);
        }
        assert(part.insns@.map_values(|j: Insn| j@) =~= spec_elide(o));
    }
}

// ---------------------------------------------------------------------------
// Dual-runtime entry splice
// ---------------------------------------------------------------------------

/// The staged replacement body for the C-runtime call site: one
/// unconditional relative jump straight to the runtime entry part.
pub open spec fn splice_repl(p: PartV, entry_name: Seq<char>) -> PartV {
    PartV {
        name: p.name,
        demangled: p.demangled,
        insns: p.insns,
        patch: Some(
            PartPatchV::ReplacePart(
                PartReplV {
                    name: p.name,
                    demangled: p.demangled,
                    insns: seq![
                        (InsnCore {
                            name: "rjmp"@,
                            ops: seq![entry_name],
                            label: None,
                            addr: 0,
                        }),
                    ],
                },
            ),
        ),
    }
}

pub open spec fn delete_staged(p: PartV) -> PartV {
    PartV { name: p.name, demangled: p.demangled, insns: p.insns, patch: Some(
        PartPatchV::DeletePart,
    ) }
}

/// The whole dual-runtime splice as a function of the part run: elide the
/// entry part's prologue, replace the C-runtime call site by a jump to the
/// entry part, and stage deletion of the C `main` part.  The second
/// component tells which structural expectation failed, if any.
pub open spec fn spec_splice(o: Seq<PartV>) -> (Seq<PartV>, Option<Error>) {
    let e = first_entry_v(o);
    if e < 0 {
        (o, Some(Error::EntryNotFound))
    } else {
        let entry = o[e];
        let parts1 = o.update(
            e,
            PartV {
                name: entry.name,
                demangled: entry.demangled,
                insns: spec_elide(entry.insns),
                patch: entry.patch,
            },
        );
        let c = first_c_entry_v(parts1);
        let m = first_named_v(parts1, "main"@);
        let parts2 = if c >= 0 {
            parts1.update(c, splice_repl(parts1[c], entry.name))
        } else {
            parts1
        };
        let parts3 = if m >= 0 {
            parts2.update(m, delete_staged(parts2[m]))
        } else {
            parts2
        };
        if c < 0 {
            (parts3, Some(Error::CEntryNotFound))
        } else if m < 0 {
            (parts3, Some(Error::CMainNotFound))
        } else {
            (parts3, None)
        }
    }
}

// ---------------------------------------------------------------------------
// Bad-interrupt retargeting
// ---------------------------------------------------------------------------

/// An unconditional relative jump to the generic unhandled-interrupt
/// handler.
pub open spec fn is_rjmp_bad(i: InsnV) -> bool {
    i.core.name == "rjmp"@ && i.core.ops.len() == 1 && i.core.ops[0] == "__bad_interrupt"@
}

/// Such a jump gets a replacement staged that jumps to the program-exit
/// routine instead; every other instruction is left as it stands.
pub open spec fn retarget_insn(i: InsnV) -> InsnV {
    if is_rjmp_bad(i) {
        InsnV {
            core: i.core,
            patch: Some(
                InsnPatchV::Replace(
                    seq![
                        (InsnCore {
                            name: i.core.name,
                            ops: i.core.ops.update(0, "_exit"@),
                            label: i.core.label,
                            addr: i.core.addr,
                        }),
                    ],
                ),
            ),
        }
    } else {
        i
    }
}

/// The whole retargeting pass as a function of the part run.
pub open spec fn spec_bad_interrupt(o: Seq<PartV>) -> (Seq<PartV>, Option<Error>) {
    let v = first_named_v(o, "__vectors"@);
    if v < 0 {
        (o, Some(Error::VectorTableNotFound))
    } else {
        let vec_part = o[v];
        let parts1 = o.update(
            v,
            PartV {
                name: vec_part.name,
                demangled: vec_part.demangled,
                insns: vec_part.insns.map_values(|i: InsnV| retarget_insn(i)),
                patch: vec_part.patch,
            },
        );
        let b = first_named_v(parts1, "__bad_interrupt"@);
        if b < 0 {
            (parts1, Some(Error::BadInterruptNotFound))
        } else {
            (parts1.update(b, delete_staged(parts1[b])), None)
        }
    }
}


// ---------------------------------------------------------------------------
// The passes over the whole program
// ---------------------------------------------------------------------------

/// The dual-runtime splice as a function of the whole program.
pub open spec fn spec_main_prologue_prog(p: ProgramV) -> (ProgramV, Option<Error>) {
    match p.text {
        None => (p, Some(Error::NoTextSection)),
        Some(t) => {
            let out = spec_splice(t.parts);
            (
                ProgramV {
                    text: Some(CodeSectionV { name: t.name, parts: out.0 }),
                    data: p.data,
                    device: p.device,
                },
                out.1,
            )
        },
    }
}

/// The retargeting pass as a function of the whole program.
pub open spec fn spec_bad_interrupt_prog(p: ProgramV) -> (ProgramV, Option<Error>) {
    match p.text {
        None => (p, Some(Error::NoTextSection)),
        Some(t) => {
            let out = spec_bad_interrupt(t.parts);
            (
                ProgramV {
                    text: Some(CodeSectionV { name: t.name, parts: out.0 }),
                    data: p.data,
                    device: p.device,
                },
                out.1,
            )
        },
    }
}

/// Stages the replacements of the retargeting pass over the vector table's
/// instruction run.
fn retarget_insns_exec(insns: &mut Vec<Insn>)
    ensures
        final(insns)@.map_values(|j: Insn| j@) == old(insns)@.map_values(|j: Insn| j@)
            .map_values(|i: InsnV| retarget_insn(i)),
{
    let ghost o = insns@.map_values(|j: Insn| j@);
    let n: usize = insns.len();
    let mut k: usize = 0;
    while k < n
        invariant
            k <= n,
            n == insns@.len(),
            o.len() == n,
            o == old(insns)@.map_values(|j: Insn| j@),
            forall|m: int| 0 <= m < k ==> #[trigger] insns@[m]@ == retarget_insn(o[m]),
            forall|m: int| k <= m < n ==> #[trigger] insns@[m]@ == o[m],
        decreases n - k,
    {
        let ghost cur = insns@;
        let insn: &mut Insn = &mut insns[k];
        assert(insn@ == o[k as int]);
        let hit: bool = str_eq(insn.name.as_str(), "rjmp") && insn.ops.len() == 1 && str_eq(
            insn.ops[0].as_str(),
            "__bad_interrupt",
        );
        proof {
            if insn.ops@.len() > 0 {
                assert(insn@.core.ops[0] == insn.ops@[0]@);
            }
            assert(hit == is_rjmp_bad(o[k as int]));
        }
        if hit {
            let label = match &insn.label {
                Some(l) => Some(l.clone()),
                None => None,
            };
            let pinsn = Insn::new("rjmp", vec!["_exit".to_owned()], label, insn.addr);
            let ghost pv = pinsn@;
            proof {
                assert(pv.core.ops =~= o[k as int].core.ops.update(0, "_exit"@));
                assert(insn_core(pinsn) =~~= (InsnCore {
                    name: o[k as int].core.name,
                    ops: o[k as int].core.ops.update(0, "_exit"@),
                    label: o[k as int].core.label,
                    addr: o[k as int].core.addr,
                }));
            }
            let ghost pcore = insn_core(pinsn);
            insn.set_patch(Some(InsnPatch::Replace(vec![pinsn])));
            proof {
                assert(insn.patch->0->Replace_0@.map_values(|j: Insn| insn_core(j)) =~= seq![
                    pcore,
                ]);
                assert(insn@ =~~= retarget_insn(o[k as int]));
            }
        } else {
            assert(insn@ =~~= retarget_insn(o[k as int]));
        }
        proof {
            assert forall|m: int| 0 <= m < n && m != k implies insns@[m] == cur[m] by {
            }
        }
        k += 1;
    }
    assert(insns@.map_values(|j: Insn| j@) =~= o.map_values(|i: InsnV| retarget_insn(i)));
}

/// Makes every unused interrupt vector point to the program-exit routine
/// instead of the generic unhandled-interrupt handler, and stages removal
/// of that handler.
pub fn run_bad_interrupt_exit(program: &mut Program) -> (r: Result<(), Error>)
    ensures
        ({
            let out = spec_bad_interrupt_prog(old(program)@);
            &&& final(program)@ == out.0
            &&& match out.1 {
                None => r is Ok,
                Some(e) => r matches Err(e2) && e2 == e,
            }
        }),
{
    let text = match self_text_mut(program) {
        None => {
            return Err(Error::NoTextSection);
        },
        Some(t) => t,
    };
    let ghost o = text@.parts;
    let ghost oname = text.name@;
    let ghost parts_exec = text.parts@;
    let vi = match text.find_part_index("__vectors") {
        None => {
            proof {
                assert forall|k: int| 0 <= k < o.len() implies o[k].name != "__vectors"@ by {
                    assert(o[k] == parts_exec[k]@);
                }
                lemma_no_named_v(o, "__vectors"@);
            }
            return Err(Error::VectorTableNotFound);
        },
        Some(i) => {
            proof {
                assert(o[i as int] == parts_exec[i as int]@);
                assert forall|k: int| 0 <= k < i implies o[k].name != "__vectors"@ by {
                    assert(o[k] == parts_exec[k]@);
                }
                lemma_first_named_v(o, "__vectors"@, i as int);
            }
            i
        },
    };
    let vpart = text.part_at_mut(vi);
    retarget_insns_exec(&mut vpart.insns);
    let ghost vnew = vpart@;
    proof {
        assert(vnew =~~= (PartV {
            name: o[vi as int].name,
            demangled: o[vi as int].demangled,
            insns: o[vi as int].insns.map_values(|i: InsnV| retarget_insn(i)),
            patch: o[vi as int].patch,
        }));
    }
    let ghost parts1 = spec_bad_interrupt(o).0;
    proof {
        assert forall|m: int| 0 <= m < o.len() implies #[trigger] text.parts@[m]@ == o.update(
            vi as int,
            vnew,
        )[m] by {
            if m != vi {
                assert(text.parts@[m] == parts_exec[m]);
                assert(o[m] == parts_exec[m]@);
            }
        }
    }
    let ghost parts_exec1 = text.parts@;
    let bi = match text.find_part_index("__bad_interrupt") {
        None => {
            proof {
                assert forall|k: int| 0 <= k < o.len() implies o.update(vi as int, vnew)[k].name
                    != "__bad_interrupt"@ by {
                    assert(parts_exec1[k]@ == o.update(vi as int, vnew)[k]);
                }
                lemma_no_named_v(o.update(vi as int, vnew), "__bad_interrupt"@);
                assert(text@.parts =~= o.update(vi as int, vnew));
            }
            return Err(Error::BadInterruptNotFound);
        },
        Some(i) => {
            proof {
                assert(parts_exec1[i as int]@ == o.update(vi as int, vnew)[i as int]);
                assert forall|k: int| 0 <= k < i implies o.update(vi as int, vnew)[k].name
                    != "__bad_interrupt"@ by {
                    assert(parts_exec1[k]@ == o.update(vi as int, vnew)[k]);
                }
                lemma_first_named_v(o.update(vi as int, vnew), "__bad_interrupt"@, i as int);
            }
            i
        },
    };
    let bpart = text.part_at_mut(bi);
    bpart.set_patch_delete_part();
    proof {
        assert(bpart@ =~~= delete_staged(o.update(vi as int, vnew)[bi as int]));
    }
    proof {
        assert forall|m: int| 0 <= m < o.len() implies #[trigger] text.parts@[m]@
            == spec_bad_interrupt(o).0[m] by {
            if m != bi {
                assert(text.parts@[m] == parts_exec1[m]);
            }
        }
        assert(text@.parts =~= spec_bad_interrupt(o).0);
    }
    Ok(())
}

/// Borrows the code section mutably, if the program has one.
fn self_text_mut(program: &mut Program) -> (r: Option<&mut CodeSection>)
    ensures
        match r {
            Some(t) => {
                &&& old(program).text matches Some(x) && *t == x
                &&& final(program).text matches Some(y) && y == *final(t)
                &&& final(program).data == old(program).data
                &&& final(program).device == old(program).device
            },
            None => old(program).text is None && *final(program) == *old(program),
        },
{
    program.text.as_mut()
}

/// The dual-runtime entry splice: elides the runtime entry part's
/// callee-saved prologue, rewrites the C-runtime call site into a direct
/// jump to that entry part, and stages deletion of the C `main` part.
pub fn run_main_prologue(program: &mut Program) -> (r: Result<(), Error>)
    ensures
        ({
            let out = spec_main_prologue_prog(old(program)@);
            &&& final(program)@ == out.0
            &&& match out.1 {
                None => r is Ok,
                Some(e) => r matches Err(e2) && e2 == e,
            }
        }),
{
    let text = match self_text_mut(program) {
        None => {
            return Err(Error::NoTextSection);
        },
        Some(t) => t,
    };
    let ghost o = text@.parts;
    let ghost parts_exec = text.parts@;
    let n: usize = text.parts.len();
    let mut ei: usize = 0;
    let mut found: bool = false;
    while ei < n && !found
        invariant
            ei <= n,
            n == text.parts@.len(),
            text.parts@ == parts_exec,
            o == parts_exec.map_values(|p: Part| p@),
            !found ==> forall|k: int| 0 <= k < ei ==> !is_entry_part(o[k]),
            found ==> ei < n && is_entry_part(o[ei as int]) && forall|k: int|
                0 <= k < ei ==> !is_entry_part(o[k]),
        decreases n - ei, (if found { 0int } else { 1int }),
    {
        proof {
            assert(o[ei as int] == parts_exec[ei as int]@);
        }
        if str_ends_with(text.parts[ei].demangled.as_str(), "::__avr_device_rt_main") {
            found = true;
        } else {
            ei += 1;
        }
    }
    if !found {
        proof {
            lemma_no_entry_v(o);
        }
        return Err(Error::EntryNotFound);
    }
    proof {
        lemma_first_entry_v(o, ei as int);
    }
    let entry_name: String = text.parts[ei].name.clone();
    assert(entry_name@ == o[ei as int].name);
    let epart = text.part_at_mut(ei);
    elide_entry_prologue(epart);
    let ghost enew = epart@;
    proof {
        assert(enew =~~= (PartV {
            name: o[ei as int].name,
            demangled: o[ei as int].demangled,
            insns: spec_elide(o[ei as int].insns),
            patch: o[ei as int].patch,
        }));
    }
    let ghost parts1 = o.update(ei as int, enew);
    proof {
        assert forall|m: int| 0 <= m < o.len() implies #[trigger] text.parts@[m]@ == parts1[m] by {
            if m != ei {
                assert(text.parts@[m] == parts_exec[m]);
                assert(o[m] == parts_exec[m]@);
            }
        }
    }
    let ghost parts_exec1 = text.parts@;
    // Locate the C-runtime call site and the C `main` part before staging.
    let mut ci: usize = 0;
    let mut cfound: bool = false;
    while ci < n && !cfound
        invariant
            ci <= n,
            n == text.parts@.len(),
            text.parts@ == parts_exec1,
            forall|m: int| 0 <= m < o.len() ==> #[trigger] parts_exec1[m]@ == parts1[m],
            o.len() == n,
            !cfound ==> forall|k: int| 0 <= k < ci ==> !is_c_entry_part(parts1[k]),
            cfound ==> ci < n && is_c_entry_part(parts1[ci as int]) && forall|k: int|
                0 <= k < ci ==> !is_c_entry_part(parts1[k]),
        decreases n - ci, (if cfound { 0int } else { 1int }),
    {
        proof {
            assert(parts1[ci as int] == parts_exec1[ci as int]@);
        }
        let p = &text.parts[ci];
        let hit: bool = p.insns.len() >= 1 && (str_eq(p.insns[0].name.as_str(), "rcall")
            || str_eq(p.insns[0].name.as_str(), "call")) && p.insns[0].ops.len() == 1 && str_eq(
            p.insns[0].ops[0].as_str(),
            "main",
        );
        proof {
            if p.insns@.len() >= 1 {
                assert(parts1[ci as int].insns[0] == p.insns@[0]@);
                if p.insns@[0].ops@.len() > 0 {
                    assert(p.insns@[0]@.core.ops[0] == p.insns@[0].ops@[0]@);
                }
            }
            assert(hit == is_c_entry_part(parts1[ci as int]));
        }
        if hit {
            cfound = true;
        } else {
            ci += 1;
        }
    }
    proof {
        if cfound {
            lemma_first_c_entry_v(parts1, ci as int);
        } else {
            lemma_no_c_entry_v(parts1);
        }
    }
    let mi = match text.find_part_index("main") {
        None => {
            proof {
                assert forall|k: int| 0 <= k < parts1.len() implies parts1[k].name != "main"@ by {
                    assert(parts1[k] == parts_exec1[k]@);
                }
                lemma_no_named_v(parts1, "main"@);
            }
            None
        },
        Some(i) => {
            proof {
                assert(parts1[i as int] == parts_exec1[i as int]@);
                assert forall|k: int| 0 <= k < i implies parts1[k].name != "main"@ by {
                    assert(parts1[k] == parts_exec1[k]@);
                }
                lemma_first_named_v(parts1, "main"@, i as int);
            }
            Some(i)
        },
    };
    let ghost parts2 = if cfound {
        parts1.update(ci as int, splice_repl(parts1[ci as int], o[ei as int].name))
    } else {
        parts1
    };
    if cfound {
        let cp = text.part_at_mut(ci);
        let mut np = cp.clone_empty();
        np.add_insn(Insn::new("rjmp", vec![entry_name], None, 0));
        proof {
            assert(np.insns@.map_values(|j: Insn| insn_core(j)) =~= seq![
                (InsnCore {
                    name: "rjmp"@,
                    ops: seq![o[ei as int].name],
                    label: None,
                    addr: 0,
                }),
            ]) by {
                assert(np.insns@[0].ops@.map_values(|s: String| s@) =~= seq![o[ei as int].name]);
            }
        }
        cp.set_patch(Some(PartPatch::ReplacePart(Box::new(np))));
        proof {
            assert(cp@ =~~= splice_repl(parts1[ci as int], o[ei as int].name));
        }
    }
    let ghost parts_exec2 = text.parts@;
    proof {
        assert forall|m: int| 0 <= m < o.len() implies #[trigger] parts_exec2[m]@ == parts2[m] by {
            if cfound {
                if m != ci {
                    assert(parts_exec2[m] == parts_exec1[m]);
                }
            } else {
                assert(parts_exec2[m] == parts_exec1[m]);
            }
        }
    }
    let ghost parts3 = if mi is Some {
        parts2.update(mi->0 as int, delete_staged(parts2[mi->0 as int]))
    } else {
        parts2
    };
    match mi {
        Some(i) => {
            let mp = text.part_at_mut(i);
            mp.set_patch_delete_part();
            proof {
                assert(mp@ =~~= delete_staged(parts2[i as int]));
            }
        },
        None => {
        },
    }
    proof {
        assert forall|m: int| 0 <= m < o.len() implies #[trigger] text.parts@[m]@ == parts3[m] by {
            match mi {
                Some(i) => {
                    if m != i {
                        assert(text.parts@[m] == parts_exec2[m]);
                    }
                },
                None => {
                    assert(text.parts@[m] == parts_exec2[m]);
                },
            }
        }
        assert(text@.parts =~= parts3);
        assert(spec_splice(o).0 =~= parts3);
    }
    if !cfound {
        return Err(Error::CEntryNotFound);
    }
    if mi.is_none() {
        return Err(Error::CMainNotFound);
    }
    Ok(())
}

} // verus!
