//! The reference resolver: rewrites every relative-branch operand of the
//! raw disassembly into a symbolic label bound to its target instruction,
//! making the graph address-independent.

use vstd::prelude::*;
use vstd::string::*;
use vstd::arithmetic::div_mod::{lemma_fundamental_div_mod, lemma_mod_multiples_vanish};
use crate::error::Error;
use crate::program::{CodeSection, Insn, InsnV, Part, PartV, Program};
use crate::text::{
    has_prefix, is_rel_offset, match_rel_offset, rel_offset_i32, rel_offset_val, u64_dec_string,
};

verus! {

// ---------------------------------------------------------------------------
// The address map: first instruction holding a given word address
// ---------------------------------------------------------------------------

/// Index of the first instruction with the given address, or -1.
pub open spec fn first_idx_with_addr(insns: Seq<InsnV>, a: u16) -> int
    decreases insns.len(),
{
    if insns.len() == 0 {
        -1
    } else if insns[0].core.addr == a {
        0
    } else {
        let rest = first_idx_with_addr(insns.drop_first(), a);
        if rest == -1 {
            -1
        } else {
            rest + 1
        }
    }
}

proof fn lemma_first_idx_with_addr(insns: Seq<InsnV>, a: u16, j: int)
    requires
        0 <= j < insns.len(),
        insns[j].core.addr == a,
        forall|k: int| 0 <= k < j ==> insns[k].core.addr != a,
    ensures
        first_idx_with_addr(insns, a) == j,
    decreases insns.len(),
{
    if j > 0 {
        assert forall|k: int| 0 <= k < j - 1 implies insns.drop_first()[k].core.addr != a by {
            assert(insns.drop_first()[k] == insns[k + 1]);
        }
        assert(insns.drop_first()[j - 1] == insns[j]);
        lemma_first_idx_with_addr(insns.drop_first(), a, j - 1);
    }
}

proof fn lemma_no_idx_with_addr(insns: Seq<InsnV>, a: u16)
    requires
        forall|k: int| 0 <= k < insns.len() ==> insns[k].core.addr != a,
    ensures
        first_idx_with_addr(insns, a) == -1,
    decreases insns.len(),
{
    if insns.len() > 0 {
        assert forall|k: int| 0 <= k < insns.drop_first().len()
            implies insns.drop_first()[k].core.addr != a by {
            assert(insns.drop_first()[k] == insns[k + 1]);
        }
        lemma_no_idx_with_addr(insns.drop_first(), a);
    }
}

/// Position of the first instruction, in section order, holding the given
/// address.
pub open spec fn first_insn_at(parts: Seq<PartV>, a: u16) -> Option<(int, int)>
    decreases parts.len(),
{
    if parts.len() == 0 {
        None
    } else {
        let i = first_idx_with_addr(parts[0].insns, a);
        if i >= 0 {
            Some((0, i))
        } else {
            match first_insn_at(parts.drop_first(), a) {
                None => None,
                Some(t) => Some((t.0 + 1, t.1)),
            }
        }
    }
}

proof fn lemma_first_insn_at(parts: Seq<PartV>, a: u16, p: int, i: int)
    requires
        0 <= p < parts.len(),
        first_idx_with_addr(parts[p].insns, a) == i,
        i >= 0,
        forall|q: int| 0 <= q < p ==> first_idx_with_addr(#[trigger] parts[q].insns, a) == -1,
    ensures
        first_insn_at(parts, a) == Some((p, i)),
    decreases parts.len(),
{
    if p > 0 {
        assert forall|q: int| 0 <= q < p - 1 implies first_idx_with_addr(
            #[trigger] parts.drop_first()[q].insns,
            a,
        ) == -1 by {
            assert(parts.drop_first()[q] == parts[q + 1]);
        }
        assert(parts.drop_first()[p - 1] == parts[p]);
        lemma_first_insn_at(parts.drop_first(), a, p - 1, i);
    }
}

proof fn lemma_no_insn_at(parts: Seq<PartV>, a: u16)
    requires
        forall|q: int| 0 <= q < parts.len() ==> first_idx_with_addr(
            #[trigger] parts[q].insns,
            a,
        ) == -1,
    ensures
        first_insn_at(parts, a) is None,
    decreases parts.len(),
{
    if parts.len() > 0 {
        assert forall|q: int| 0 <= q < parts.drop_first().len() implies first_idx_with_addr(
            #[trigger] parts.drop_first()[q].insns,
            a,
        ) == -1 by {
            assert(parts.drop_first()[q] == parts[q + 1]);
        }
        lemma_no_insn_at(parts.drop_first(), a);
    }
}

proof fn lemma_first_idx_addr_eq(a: Seq<InsnV>, b: Seq<InsnV>, x: u16)
    requires
        a.len() == b.len(),
        forall|i: int| 0 <= i < a.len() ==> a[i].core.addr == #[trigger] b[i].core.addr,
    ensures
        first_idx_with_addr(a, x) == first_idx_with_addr(b, x),
    decreases a.len(),
{
    if a.len() > 0 {
        assert forall|i: int| 0 <= i < a.drop_first().len() implies a.drop_first()[i].core.addr
            == #[trigger] b.drop_first()[i].core.addr by {
            assert(a.drop_first()[i] == a[i + 1]);
            assert(b.drop_first()[i] == b[i + 1]);
        }
        lemma_first_idx_addr_eq(a.drop_first(), b.drop_first(), x);
    }
}

/// The address map depends only on the addresses, which the resolver
/// never changes.
proof fn lemma_first_insn_at_eq(o: Seq<PartV>, n: Seq<PartV>, x: u16)
    requires
        parts_shape_kept(o, n),
    ensures
        first_insn_at(o, x) == first_insn_at(n, x),
    decreases o.len(),
{
    if o.len() > 0 {
        assert forall|i: int| 0 <= i < o[0].insns.len() implies o[0].insns[i].core.addr
            == #[trigger] n[0].insns[i].core.addr by {
            assert(insn_shape_kept(o[0].insns[i], n[0].insns[i]));
        }
        lemma_first_idx_addr_eq(o[0].insns, n[0].insns, x);
        assert(parts_shape_kept(o.drop_first(), n.drop_first())) by {
            assert forall|p: int| 0 <= p < o.drop_first().len() implies {
                &&& n.drop_first()[p].name == o.drop_first()[p].name
                &&& n.drop_first()[p].demangled == o.drop_first()[p].demangled
                &&& n.drop_first()[p].patch == o.drop_first()[p].patch
                &&& (#[trigger] n.drop_first()[p]).insns.len() == o.drop_first()[p].insns.len()
            } by {
                assert(o.drop_first()[p] == o[p + 1]);
                assert(n.drop_first()[p] == n[p + 1]);
            }
            assert forall|p: int, i: int|
                0 <= p < o.drop_first().len() && 0 <= i < o.drop_first()[p].insns.len() implies {
                &&& insn_shape_kept(
                    o.drop_first()[p].insns[i],
                    #[trigger] n.drop_first()[p].insns[i],
                )
                &&& label_evolved(o.drop_first()[p].insns[i], n.drop_first()[p].insns[i])
            } by {
                assert(o.drop_first()[p] == o[p + 1]);
                assert(n.drop_first()[p] == n[p + 1]);
                assert(insn_shape_kept(o[p + 1].insns[i], n[p + 1].insns[i]));
                assert(label_evolved(o[p + 1].insns[i], n[p + 1].insns[i]));
            }
        }
        lemma_first_insn_at_eq(o.drop_first(), n.drop_first(), x);
    }
}

/// Linear search for the first instruction holding an address.
fn find_insn_by_addr(text: &CodeSection, a: u16) -> (r: Option<(usize, usize)>)
    ensures
        match r {
            Some(t) => first_insn_at(text@.parts, a) == Some((t.0 as int, t.1 as int)),
            None => first_insn_at(text@.parts, a) is None,
        },
{
    let ghost parts = text@.parts;
    let np: usize = text.parts.len();
    let mut p: usize = 0;
    while p < np
        invariant
            p <= np,
            np == text.parts@.len(),
            parts == text@.parts,
            forall|q: int| 0 <= q < p ==> first_idx_with_addr(#[trigger] parts[q].insns, a)
                == -1,
        decreases np - p,
    {
        let ni: usize = text.parts[p].insns.len();
        let mut i: usize = 0;
        proof {
            assert(parts[p as int] == text.parts@[p as int]@);
        }
        while i < ni
            invariant
                i <= ni,
                p < np,
                np == text.parts@.len(),
                parts == text@.parts,
                ni == text.parts@[p as int].insns@.len(),
                forall|q: int| 0 <= q < p ==> first_idx_with_addr(
                    #[trigger] parts[q].insns,
                    a,
                ) == -1,
                forall|k: int| 0 <= k < i ==> parts[p as int].insns[k].core.addr != a,
            decreases ni - i,
        {
            proof {
                let ghost_i = i as int;
                assert(parts[p as int].insns[ghost_i] == text.parts@[p as int].insns@[ghost_i]@);
            }
            if text.parts[p].insns[i].addr == a {
                proof {
                    lemma_first_idx_with_addr(parts[p as int].insns, a, i as int);
                    lemma_first_insn_at(parts, a, p as int, i as int);
                }
                return Some((p, i));
            }
            i += 1;
        }
        proof {
            lemma_no_idx_with_addr(parts[p as int].insns, a);
        }
        p += 1;
    }
    proof {
        lemma_no_insn_at(parts, a);
    }
    None
}

// ---------------------------------------------------------------------------
// Target address computation
// ---------------------------------------------------------------------------

/// The absolute target of a relative branch: the branch's own address
/// plus the fetch increment of two words plus the signed offset, wrapped
/// to sixteen bits and folded into the flash address space by the mask.
pub open spec fn spec_target_addr(addr: u16, offs: int, mask: u16) -> u16 {
    (((addr + 2 + offs) % 0x10000) as u16) & mask
}

/// Computes the target address, wrapping at the flash boundary.
pub fn compute_target(addr: u16, offs: i32, mask: u16) -> (r: u16)
    ensures
        r == spec_target_addr(addr, offs as int, mask),
{
    let offm: u32 = if offs >= 0 {
        (offs as u32) % 65536
    } else {
        let nm: u32 = (((-(offs as i64)) as u64) % 65536) as u32;
        (65536 - nm) % 65536
    };
    let t: u32 = ((addr as u32) + 2 + offm) % 65536;
    proof {
        let m: int = 65536;
        let x: int = addr as int + 2 + offs as int;
        let y: int = addr as int + 2 + offm as int;
        if offs >= 0 {
            lemma_fundamental_div_mod(offs as int, m);
            assert(x == m * (offs as int / m) + y - offm + (offs as int % m)) by {
                assert(offs as int == m * (offs as int / m) + offs as int % m);
            }
            assert(offm == offs as int % m);
            assert(x == m * (offs as int / m) + y);
            lemma_mod_multiples_vanish(offs as int / m, y, m);
        } else {
            let neg: int = -(offs as int);
            lemma_fundamental_div_mod(neg, m);
            let q: int = neg / m;
            let nm2: int = neg % m;
            assert(neg == m * q + nm2);
            if nm2 == 0 {
                assert(offm == 0);
                assert(y == x + m * q);
                lemma_mod_multiples_vanish(q, x, m);
            } else {
                assert(offm == m - nm2);
                assert(y == x + m * q + m);
                assert(y == m * (q + 1) + x) by (nonlinear_arith)
                    requires
                        y == x + m * q + m,
                ;
                lemma_mod_multiples_vanish(q + 1, x, m);
            }
        }
        assert(x % m == y % m);
        lemma_fundamental_div_mod(y, m);
        assert(t == y % m);
        assert(t < 65536);
    }
    (t as u16) & mask
}

// ---------------------------------------------------------------------------
// What resolution promises
// ---------------------------------------------------------------------------

/// Everything of an instruction but its label and operand texts is kept.
pub open spec fn insn_shape_kept(o: InsnV, n: InsnV) -> bool {
    &&& n.core.name == o.core.name
    &&& n.core.addr == o.core.addr
    &&& n.patch == o.patch
    &&& n.core.ops.len() == o.core.ops.len()
}

/// An existing label is kept; a label is only ever added where none was,
/// and then it is a synthesized relative-target label.
pub open spec fn label_evolved(o: InsnV, n: InsnV) -> bool {
    match o.core.label {
        Some(l) => n.core.label == Some(l),
        None => n.core.label is None || (n.core.label matches Some(l2) && has_prefix(
            l2,
            "__reltgt"@,
        )),
    }
}

/// The resolver preserves the whole graph structure: part names and
/// order, instruction count, mnemonics, addresses and staged patches.
pub open spec fn parts_shape_kept(o: Seq<PartV>, n: Seq<PartV>) -> bool {
    &&& n.len() == o.len()
    &&& forall|p: int| 0 <= p < o.len() ==> {
        &&& (#[trigger] n[p]).name == o[p].name
        &&& n[p].demangled == o[p].demangled
        &&& n[p].patch == o[p].patch
        &&& n[p].insns.len() == o[p].insns.len()
    }
    &&& forall|p: int, i: int| 0 <= p < o.len() && 0 <= i < o[p].insns.len() ==> {
        &&& insn_shape_kept(o[p].insns[i], #[trigger] n[p].insns[i])
        &&& label_evolved(o[p].insns[i], n[p].insns[i])
    }
}

pub open spec fn valid_op(o: Seq<PartV>, p: int, i: int, k: int) -> bool {
    0 <= p < o.len() && 0 <= i < o[p].insns.len() && 0 <= k < o[p].insns[i].core.ops.len()
}

/// How one operand comes out of resolution: a relative-offset operand is
/// rewritten to a label that the instruction at the computed target
/// address carries afterwards; any other operand is untouched.
pub open spec fn op_resolved(
    o: Seq<PartV>,
    n: Seq<PartV>,
    mask: u16,
    p: int,
    i: int,
    k: int,
) -> bool {
    let oop = o[p].insns[i].core.ops[k];
    if is_rel_offset(oop) {
        &&& -0x8000_0000 <= rel_offset_val(oop) <= 0x7FFF_FFFF
        &&& match first_insn_at(
            o,
            spec_target_addr(o[p].insns[i].core.addr, rel_offset_val(oop), mask),
        ) {
            Some(t) => n[t.0].insns[t.1].core.label matches Some(l) && n[p].insns[i].core.ops[k]
                == l,
            None => false,
        }
    } else {
        n[p].insns[i].core.ops[k] == oop
    }
}

pub open spec fn resolved_all(o: Seq<PartV>, n: Seq<PartV>, mask: u16) -> bool {
    forall|p: int, i: int, k: int| valid_op(o, p, i, k) ==> #[trigger] op_resolved(
        o,
        n,
        mask,
        p,
        i,
        k,
    )
}

/// Whether one relative-offset operand can be resolved at all: its
/// numeral fits 32 bits and its target address holds an instruction.
pub open spec fn rel_ok_at(o: Seq<PartV>, mask: u16, p: int, i: int, k: int) -> bool {
    is_rel_offset(o[p].insns[i].core.ops[k]) ==> {
        &&& -0x8000_0000 <= rel_offset_val(o[p].insns[i].core.ops[k]) <= 0x7FFF_FFFF
        &&& first_insn_at(
            o,
            spec_target_addr(
                o[p].insns[i].core.addr,
                rel_offset_val(o[p].insns[i].core.ops[k]),
                mask,
            ),
        ) is Some
    }
}

/// Whether every relative branch of the section is resolvable.
pub open spec fn all_rel_ok(o: Seq<PartV>, mask: u16) -> bool {
    forall|p: int, i: int, k: int| valid_op(o, p, i, k) ==> #[trigger] rel_ok_at(o, mask, p, i, k)
}

pub open spec fn lex_lt(p1: int, i1: int, k1: int, p2: int, i2: int, k2: int) -> bool {
    p1 < p2 || (p1 == p2 && (i1 < i2 || (i1 == i2 && k1 < k2)))
}

/// The resolver's walk-state invariant: structure kept, every operand
/// before the cursor resolved, every operand at or after it untouched.
pub open spec fn resolver_inv(
    o: Seq<PartV>,
    n: Seq<PartV>,
    mask: u16,
    p: int,
    i: int,
    k: int,
) -> bool {
    &&& parts_shape_kept(o, n)
    &&& forall|p1: int, i1: int, k1: int|
        valid_op(o, p1, i1, k1) && lex_lt(p1, i1, k1, p, i, k) ==> #[trigger] op_resolved(
            o,
            n,
            mask,
            p1,
            i1,
            k1,
        )
    &&& forall|p1: int, i1: int, k1: int|
        valid_op(o, p1, i1, k1) && !lex_lt(p1, i1, k1, p, i, k)
            ==> #[trigger] n[p1].insns[i1].core.ops[k1] == o[p1].insns[i1].core.ops[k1]
}


proof fn lemma_first_idx_range(insns: Seq<InsnV>, a: u16)
    ensures
        first_idx_with_addr(insns, a) == -1 || (0 <= first_idx_with_addr(insns, a) < insns.len()
            && insns[first_idx_with_addr(insns, a)].core.addr == a),
    decreases insns.len(),
{
    if insns.len() > 0 {
        lemma_first_idx_range(insns.drop_first(), a);
        let rest = first_idx_with_addr(insns.drop_first(), a);
        if insns[0].core.addr != a && rest >= 0 {
            assert(insns.drop_first()[rest] == insns[rest + 1]);
        }
    }
}

proof fn lemma_first_insn_at_range(parts: Seq<PartV>, a: u16)
    ensures
        match first_insn_at(parts, a) {
            Some(t) => 0 <= t.0 < parts.len() && 0 <= t.1 < parts[t.0].insns.len()
                && parts[t.0].insns[t.1].core.addr == a,
            None => true,
        },
    decreases parts.len(),
{
    if parts.len() > 0 {
        lemma_first_idx_range(parts[0].insns, a);
        lemma_first_insn_at_range(parts.drop_first(), a);
        if first_idx_with_addr(parts[0].insns, a) < 0 {
            match first_insn_at(parts.drop_first(), a) {
                Some(t) => {
                    assert(parts.drop_first()[t.0] == parts[t.0 + 1]);
                },
                None => {
                },
            }
        }
    }
}

/// Rewrites every relative-branch operand into a symbolic label bound to
/// the instruction at its computed target address, reusing the target's
/// label where it has one and synthesizing a fresh relative-target label
/// where it has none.
#[verifier::loop_isolation(false)]
pub fn resolve_references(program: &mut Program) -> (r: Result<(), Error>)
    ensures
        old(program).device is None ==> (r matches Err(e) && e is NoDevice) && *final(program)
            == *old(program),
        (old(program).device matches Some(d) && (d.flash_size == 0 || d.flash_size > 0x10000))
            ==> (r matches Err(e) && e is FlashMaskTooWide) && *final(program) == *old(program),
        (old(program).device matches Some(d) && 0 < d.flash_size && d.flash_size <= 0x10000)
            ==> ({
            let mask = (old(program).device->0.flash_size - 1) as u16;
            &&& final(program).device == old(program).device
            &&& final(program).data == old(program).data
            &&& (old(program).text is None ==> r is Ok && *final(program) == *old(program))
            &&& (old(program).text is Some ==> ({
                let o = old(program)@.text->0.parts;
                &&& final(program)@.text matches Some(t) && t.name == old(
                    program,
                )@.text->0.name && parts_shape_kept(o, t.parts) && (r is Ok ==> resolved_all(
                    o,
                    t.parts,
                    mask,
                ))
                &&& (r is Ok <==> all_rel_ok(o, mask))
                &&& (r matches Err(e) ==> e is BadRelOffset || e is RelTargetNotFound)
            }))
        }),
{
    let fs: u32 = match &program.device {
        None => {
            return Err(Error::NoDevice);
        },
        Some(d) => d.flash_size,
    };
    if fs == 0 || fs > 0x10000 {
        return Err(Error::FlashMaskTooWide);
    }
    let mask: u16 = (fs - 1) as u16;
    let text = match program.text.as_mut() {
        None => {
            return Ok(());
        },
        Some(t) => t,
    };
    let ghost o = text@.parts;
    let ghost oname = text.name@;
    let np: usize = text.parts.len();
    let mut counter: u64 = 0;
    let mut p: usize = 0;
    assert(parts_shape_kept(o, text@.parts));
    while p < np
        invariant
            p <= np,
            np == text.parts@.len(),
            o.len() == np,
            old(program).text is Some,
            o == old(program)@.text->0.parts,
            oname == old(program)@.text->0.name,
            text.name@ == oname,
            old(program).device matches Some(d) && d.flash_size == fs,
            0 < fs <= 0x10000,
            mask == (fs - 1) as u16,
            resolver_inv(o, text@.parts, mask, p as int, 0, 0),
        decreases np - p,
    {
        let ni: usize = text.parts[p].insns.len();
        proof {
            assert(text@.parts[p as int] == text.parts@[p as int]@);
            assert(o[p as int].insns.len() == text@.parts[p as int].insns.len());
        }
        let mut i: usize = 0;
        proof {
            assert(resolver_inv(o, text@.parts, mask, p as int, 0, 0));
        }
        while i < ni
            invariant
                i <= ni,
                p < np,
                np == text.parts@.len(),
                o.len() == np,
                ni == o[p as int].insns.len(),
                old(program).text is Some,
                o == old(program)@.text->0.parts,
                oname == old(program)@.text->0.name,
                text.name@ == oname,
                old(program).device matches Some(d) && d.flash_size == fs,
                0 < fs <= 0x10000,
                mask == (fs - 1) as u16,
                resolver_inv(o, text@.parts, mask, p as int, i as int, 0),
            decreases ni - i,
        {
            let nk: usize = text.parts[p].insns[i].ops.len();
            proof {
                assert(text@.parts[p as int] == text.parts@[p as int]@);
                assert(text@.parts[p as int].insns[i as int] == text.parts@[p as int].insns@[
                    i as int
                ]@);
                assert(insn_shape_kept(
                    o[p as int].insns[i as int],
                    text@.parts[p as int].insns[i as int],
                ));
                assert(nk == o[p as int].insns[i as int].core.ops.len());
            }
            let mut k: usize = 0;
            while k < nk
                invariant
                    k <= nk,
                    i < ni,
                    p < np,
                    np == text.parts@.len(),
                    o.len() == np,
                    ni == o[p as int].insns.len(),
                    nk == o[p as int].insns[i as int].core.ops.len(),
                    old(program).text is Some,
                    o == old(program)@.text->0.parts,
                    oname == old(program)@.text->0.name,
                    text.name@ == oname,
                    old(program).device matches Some(d) && d.flash_size == fs,
                    0 < fs <= 0x10000,
                    mask == (fs - 1) as u16,
                    resolver_inv(o, text@.parts, mask, p as int, i as int, k as int),
                decreases nk - k,
            {
                let ghost cur0 = text@.parts;
                proof {
                    assert(cur0[p as int] == text.parts@[p as int]@);
                    assert(cur0[p as int].insns[i as int] == text.parts@[p as int].insns@[
                        i as int
                    ]@);
                    assert(cur0[p as int].insns[i as int].core.ops[k as int] == text.parts@[
                        p as int
                    ].insns@[i as int].ops@[k as int]@);
                    assert(!lex_lt(p as int, i as int, k as int, p as int, i as int, k as int));
                    assert(cur0[p as int].insns[i as int].core.ops[k as int] == o[p as int].insns[
                        i as int
                    ].core.ops[k as int]);
                }
                let ghost oop = o[p as int].insns[i as int].core.ops[k as int];
                let is_rel: bool = match_rel_offset(text.parts[p].insns[i].ops[k].as_str());
                if !is_rel {
                    proof {
                        assert(!is_rel_offset(oop));
                        assert(op_resolved(o, cur0, mask, p as int, i as int, k as int));
                        assert forall|p1: int, i1: int, k1: int|
                            valid_op(o, p1, i1, k1) && lex_lt(
                                p1,
                                i1,
                                k1,
                                p as int,
                                i as int,
                                k + 1,
                            ) implies #[trigger] op_resolved(o, cur0, mask, p1, i1, k1) by {
                            if !lex_lt(p1, i1, k1, p as int, i as int, k as int) {
                                assert(p1 == p as int && i1 == i as int && k1 == k as int);
                            }
                        }
                        assert(resolver_inv(o, cur0, mask, p as int, i as int, k + 1));
                    }
                    k += 1;
                    continue;
                }
                assert(is_rel_offset(oop));
                let offs: i32 = match rel_offset_i32(text.parts[p].insns[i].ops[k].as_str()) {
                    None => {
                        proof {
                            assert(!rel_ok_at(o, mask, p as int, i as int, k as int));
                            assert(!all_rel_ok(o, mask));
                        }
                        return Err(Error::BadRelOffset(text.parts[p].insns[i].ops[k].clone()));
                    },
                    Some(v) => v,
                };
                let addr: u16 = text.parts[p].insns[i].addr;
                proof {
                    assert(addr == cur0[p as int].insns[i as int].core.addr);
                    assert(insn_shape_kept(
                        o[p as int].insns[i as int],
                        cur0[p as int].insns[i as int],
                    ));
                    assert(addr == o[p as int].insns[i as int].core.addr);
                }
                let tgt: u16 = compute_target(addr, offs, mask);
                let found = find_insn_by_addr(text, tgt);
                proof {
                    lemma_first_insn_at_eq(o, cur0, tgt);
                }
                let (tp, ti): (usize, usize) = match found {
                    None => {
                        proof {
                            assert(first_insn_at(o, tgt) is None);
                            assert(!rel_ok_at(o, mask, p as int, i as int, k as int));
                            assert(!all_rel_ok(o, mask));
                        }
                        return Err(
                            Error::RelTargetNotFound(text.parts[p].insns[i].ops[k].clone()),
                        );
                    },
                    Some(t) => t,
                };
                proof {
                    lemma_first_insn_at_range(cur0, tgt);
                    assert(first_insn_at(o, tgt) == Some((tp as int, ti as int)));
                }
                let fresh: bool = text.parts[tp].insns[ti].label.is_none();
                proof {
                    assert(cur0[tp as int] == text.parts@[tp as int]@);
                    assert(cur0[tp as int].insns[ti as int] == text.parts@[tp as int].insns@[
                        ti as int
                    ]@);
                }
                let label: String = if fresh {
                    let mut lab = String::from_str("__reltgt");
                    lab.append(u64_dec_string(counter).as_str());
                    counter = if counter == u64::MAX {
                        0
                    } else {
                        counter + 1
                    };
                    proof {
                        assert(lab@.subrange(0, "__reltgt"@.len() as int) =~= "__reltgt"@);
                        assert(has_prefix(lab@, "__reltgt"@));
                    }
                    lab
                } else {
                    match &text.parts[tp].insns[ti].label {
                        Some(l) => l.clone(),
                        None => String::new(),
                    }
                };
                proof {
                    if !fresh {
                        assert(cur0[tp as int].insns[ti as int].core.label == Some(label@));
                    }
                }
                if fresh {
                    let tpart: &mut Part = &mut text.parts[tp];
                    let tinsn: &mut Insn = &mut tpart.insns[ti];
                    tinsn.set_label(Some(label.clone()));
                    proof {
                        assert(tinsn@ =~~= (InsnV {
                            core: crate::program::InsnCore {
                                name: cur0[tp as int].insns[ti as int].core.name,
                                ops: cur0[tp as int].insns[ti as int].core.ops,
                                label: Some(label@),
                                addr: cur0[tp as int].insns[ti as int].core.addr,
                            },
                            patch: cur0[tp as int].insns[ti as int].patch,
                        }));
                    }
                }
                let ghost cur1 = text@.parts;
                proof {
                    // After the optional label write, only the target's label
                    // differs from cur0, and only when it was None.
                    assert forall|p1: int| 0 <= p1 < np implies #[trigger] cur1[p1]
                        == (if fresh && p1 == tp as int {
                        PartV {
                            name: cur0[p1].name,
                            demangled: cur0[p1].demangled,
                            insns: cur0[p1].insns.update(
                                ti as int,
                                InsnV {
                                    core: crate::program::InsnCore {
                                        name: cur0[tp as int].insns[ti as int].core.name,
                                        ops: cur0[tp as int].insns[ti as int].core.ops,
                                        label: Some(label@),
                                        addr: cur0[tp as int].insns[ti as int].core.addr,
                                    },
                                    patch: cur0[tp as int].insns[ti as int].patch,
                                },
                            ),
                            patch: cur0[p1].patch,
                        }
                    } else {
                        cur0[p1]
                    }) by {
                        assert(cur1[p1] == text.parts@[p1]@);
                        if fresh && p1 == tp as int {
                            assert(cur1[p1].insns =~= cur0[p1].insns.update(
                                ti as int,
                                cur1[p1].insns[ti as int],
                            ));
                            assert(cur1[p1] =~~= (PartV {
                                name: cur0[p1].name,
                                demangled: cur0[p1].demangled,
                                insns: cur0[p1].insns.update(
                                    ti as int,
                                    cur1[p1].insns[ti as int],
                                ),
                                patch: cur0[p1].patch,
                            }));
                        }
                    }
                    assert(parts_shape_kept(o, cur1));
                    assert forall|p1: int, i1: int, k1: int|
                        valid_op(o, p1, i1, k1) && lex_lt(
                            p1,
                            i1,
                            k1,
                            p as int,
                            i as int,
                            k as int,
                        ) implies #[trigger] op_resolved(o, cur1, mask, p1, i1, k1) by {
                        assert(op_resolved(o, cur0, mask, p1, i1, k1));
                        let oop1 = o[p1].insns[i1].core.ops[k1];
                        if is_rel_offset(oop1) {
                            let t1 = first_insn_at(
                                o,
                                spec_target_addr(
                                    o[p1].insns[i1].core.addr,
                                    rel_offset_val(oop1),
                                    mask,
                                ),
                            )->Some_0;
                            lemma_first_insn_at_range(o, spec_target_addr(
                                o[p1].insns[i1].core.addr,
                                rel_offset_val(oop1),
                                mask,
                            ));
                            if fresh && t1.0 == tp as int && t1.1 == ti as int {
                                assert(cur0[t1.0].insns[t1.1].core.label is Some);
                                assert(false);
                            }
                            assert(cur1[t1.0].insns[t1.1].core.label == cur0[t1.0].insns[
                                t1.1
                            ].core.label);
                            assert(cur1[p1].insns[i1].core.ops[k1] == cur0[p1].insns[
                                i1
                            ].core.ops[k1]);
                        } else {
                            assert(cur1[p1].insns[i1].core.ops[k1] == cur0[p1].insns[
                                i1
                            ].core.ops[k1]);
                        }
                    }
                    assert forall|p1: int, i1: int, k1: int|
                        valid_op(o, p1, i1, k1) && !lex_lt(
                            p1,
                            i1,
                            k1,
                            p as int,
                            i as int,
                            k as int,
                        ) implies #[trigger] cur1[p1].insns[i1].core.ops[k1] == o[p1].insns[
                        i1
                    ].core.ops[k1] by {
                        assert(cur1[p1].insns[i1].core.ops[k1] == cur0[p1].insns[i1].core.ops[
                            k1
                        ]);
                    }
                    // the target's label is now set either way
                    assert(cur1[tp as int].insns[ti as int].core.label == Some(label@));
                }
                let ppart: &mut Part = &mut text.parts[p];
                let pinsn: &mut Insn = &mut ppart.insns[i];
                pinsn.set_op(k, label);
                proof {
                    assert(pinsn@ =~~= (InsnV {
                        core: crate::program::InsnCore {
                            name: cur1[p as int].insns[i as int].core.name,
                            ops: cur1[p as int].insns[i as int].core.ops.update(
                                k as int,
                                label@,
                            ),
                            label: cur1[p as int].insns[i as int].core.label,
                            addr: cur1[p as int].insns[i as int].core.addr,
                        },
                        patch: cur1[p as int].insns[i as int].patch,
                    }));
                }
                let ghost cur2 = text@.parts;
                proof {
                    assert forall|p1: int| 0 <= p1 < np implies #[trigger] cur2[p1]
                        == (if p1 == p as int {
                        PartV {
                            name: cur1[p1].name,
                            demangled: cur1[p1].demangled,
                            insns: cur1[p1].insns.update(
                                i as int,
                                InsnV {
                                    core: crate::program::InsnCore {
                                        name: cur1[p as int].insns[i as int].core.name,
                                        ops: cur1[p as int].insns[i as int].core.ops.update(
                                            k as int,
                                            label@,
                                        ),
                                        label: cur1[p as int].insns[i as int].core.label,
                                        addr: cur1[p as int].insns[i as int].core.addr,
                                    },
                                    patch: cur1[p as int].insns[i as int].patch,
                                },
                            ),
                            patch: cur1[p1].patch,
                        }
                    } else {
                        cur1[p1]
                    }) by {
                        assert(cur2[p1] == text.parts@[p1]@);
                        if p1 == p as int {
                            assert(cur2[p1].insns =~= cur1[p1].insns.update(
                                i as int,
                                cur2[p1].insns[i as int],
                            ));
                            assert(cur2[p1] =~~= (PartV {
                                name: cur1[p1].name,
                                demangled: cur1[p1].demangled,
                                insns: cur1[p1].insns.update(
                                    i as int,
                                    cur2[p1].insns[i as int],
                                ),
                                patch: cur1[p1].patch,
                            }));
                        }
                    }
                    assert(parts_shape_kept(o, cur2));
                    // operands elsewhere are untouched by the write
                    assert forall|p1: int, i1: int, k1: int|
                        valid_op(o, p1, i1, k1) && !(p1 == p as int && i1 == i as int && k1
                            == k as int) implies #[trigger] cur2[p1].insns[i1].core.ops[k1]
                        == cur1[p1].insns[i1].core.ops[k1] by {
                    }
                    // labels everywhere are untouched by the write
                    assert forall|p1: int, i1: int|
                        0 <= p1 < np && 0 <= i1 < o[p1].insns.len()
                            implies #[trigger] cur2[p1].insns[i1].core.label == cur1[p1].insns[
                        i1
                    ].core.label by {
                    }
                    assert forall|p1: int, i1: int, k1: int|
                        valid_op(o, p1, i1, k1) && lex_lt(
                            p1,
                            i1,
                            k1,
                            p as int,
                            i as int,
                            k + 1,
                        ) implies #[trigger] op_resolved(o, cur2, mask, p1, i1, k1) by {
                        if lex_lt(p1, i1, k1, p as int, i as int, k as int) {
                            assert(op_resolved(o, cur1, mask, p1, i1, k1));
                            let oop1 = o[p1].insns[i1].core.ops[k1];
                            if is_rel_offset(oop1) {
                                lemma_first_insn_at_range(o, spec_target_addr(
                                    o[p1].insns[i1].core.addr,
                                    rel_offset_val(oop1),
                                    mask,
                                ));
                            }
                        } else {
                            assert(p1 == p as int && i1 == i as int && k1 == k as int);
                            assert(rel_offset_val(oop) == offs as int);
                            assert(spec_target_addr(
                                o[p1].insns[i1].core.addr,
                                rel_offset_val(oop),
                                mask,
                            ) == tgt);
                            assert(cur2[tp as int].insns[ti as int].core.label == Some(
                                label@,
                            ));
                            assert(cur2[p1].insns[i1].core.ops[k1] == label@);
                            assert(op_resolved(o, cur2, mask, p1, i1, k1));
                        }
                    }
                    assert forall|p1: int, i1: int, k1: int|
                        valid_op(o, p1, i1, k1) && !lex_lt(
                            p1,
                            i1,
                            k1,
                            p as int,
                            i as int,
                            k + 1,
                        ) implies #[trigger] cur2[p1].insns[i1].core.ops[k1] == o[p1].insns[
                        i1
                    ].core.ops[k1] by {
                        assert(!lex_lt(p1, i1, k1, p as int, i as int, k as int));
                        assert(cur1[p1].insns[i1].core.ops[k1] == o[p1].insns[i1].core.ops[k1]);
                    }
                    assert(resolver_inv(o, cur2, mask, p as int, i as int, k + 1));
                }
                k += 1;
            }
            proof {
                let cur = text@.parts;
                assert forall|p1: int, i1: int, k1: int|
                    valid_op(o, p1, i1, k1) && lex_lt(
                        p1,
                        i1,
                        k1,
                        p as int,
                        i + 1,
                        0,
                    ) implies #[trigger] op_resolved(o, cur, mask, p1, i1, k1) by {
                    assert(lex_lt(p1, i1, k1, p as int, i as int, nk as int));
                }
                assert forall|p1: int, i1: int, k1: int|
                    valid_op(o, p1, i1, k1) && !lex_lt(
                        p1,
                        i1,
                        k1,
                        p as int,
                        i + 1,
                        0,
                    ) implies #[trigger] cur[p1].insns[i1].core.ops[k1] == o[p1].insns[
                    i1
                ].core.ops[k1] by {
                    assert(!lex_lt(p1, i1, k1, p as int, i as int, nk as int));
                }
                assert(resolver_inv(o, cur, mask, p as int, i + 1, 0));
            }
            i += 1;
        }
        proof {
            let cur = text@.parts;
            assert forall|p1: int, i1: int, k1: int|
                valid_op(o, p1, i1, k1) && lex_lt(p1, i1, k1, p + 1, 0, 0)
                    implies #[trigger] op_resolved(o, cur, mask, p1, i1, k1) by {
                assert(lex_lt(p1, i1, k1, p as int, ni as int, 0));
            }
            assert forall|p1: int, i1: int, k1: int|
                valid_op(o, p1, i1, k1) && !lex_lt(p1, i1, k1, p + 1, 0, 0)
                    implies #[trigger] cur[p1].insns[i1].core.ops[k1] == o[p1].insns[
                i1
            ].core.ops[k1] by {
                assert(!lex_lt(p1, i1, k1, p as int, ni as int, 0));
            }
            assert(resolver_inv(o, cur, mask, p + 1, 0, 0));
        }
        p += 1;
    }
    proof {
        let cur = text@.parts;
        assert forall|p1: int, i1: int, k1: int| valid_op(o, p1, i1, k1)
            implies #[trigger] op_resolved(o, cur, mask, p1, i1, k1) by {
            assert(lex_lt(p1, i1, k1, np as int, 0, 0));
        }
        assert(resolved_all(o, cur, mask));
        assert forall|p1: int, i1: int, k1: int| valid_op(o, p1, i1, k1)
            implies #[trigger] rel_ok_at(o, mask, p1, i1, k1) by {
            assert(op_resolved(o, cur, mask, p1, i1, k1));
        }
        assert(all_rel_ok(o, mask));
    }
    Ok(())
}

} // verus!
