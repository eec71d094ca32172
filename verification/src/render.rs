//! The renderer: serializes the committed instruction graph back to
//! assembly text, character for character.

use vstd::prelude::*;
use vstd::string::*;
use crate::error::Error;
use crate::program::{Insn, InsnV, Part, PartV, Program, ProgramV};
use crate::text::{byte_hex, byte_hex_push};

verus! {

/// The rendered operand list: the first operand after one space, later
/// ones after a comma and a space.
pub open spec fn render_ops_from(ops: Seq<Seq<char>>, k: int) -> Seq<char>
    decreases ops.len() - k,
{
    if k < 0 || k >= ops.len() {
        Seq::empty()
    } else {
        (if k == 0 {
            " "@
        } else {
            ", "@
        }) + ops[k] + render_ops_from(ops, k + 1)
    }
}

/// One rendered instruction: optional label prefix, mnemonic, operands.
pub open spec fn render_insn(i: InsnV) -> Seq<char> {
    (match i.core.label {
        Some(l) => l + ": "@,
        None => Seq::empty(),
    }) + i.core.name + render_ops_from(i.core.ops, 0)
}

/// The rendered instruction lines of a part, each indented and ended by a
/// line break.
pub open spec fn render_insns_from(insns: Seq<InsnV>, k: int) -> Seq<char>
    decreases insns.len() - k,
{
    if k < 0 || k >= insns.len() {
        Seq::empty()
    } else {
        "    "@ + render_insn(insns[k]) + "\n"@ + render_insns_from(insns, k + 1)
    }
}

/// One rendered part: its label line, with the demangled name as a
/// trailing comment when it differs from the sanitized name, then its
/// instructions.
pub open spec fn render_part(p: PartV) -> Seq<char> {
    (if p.name == p.demangled {
        p.name + ":"@ + "\n"@
    } else {
        p.name + ": ; "@ + p.demangled + "\n"@
    }) + render_insns_from(p.insns, 0)
}

pub open spec fn render_parts_from(parts: Seq<PartV>, k: int) -> Seq<char>
    decreases parts.len() - k,
{
    if k < 0 || k >= parts.len() {
        Seq::empty()
    } else {
        render_part(parts[k]) + render_parts_from(parts, k + 1)
    }
}

/// The rendered data bytes: hexadecimal byte directives, eight bytes per
/// line.
pub open spec fn render_data_from(data: Seq<u8>, k: int) -> Seq<char>
    decreases data.len() - k,
{
    if k < 0 || k >= data.len() {
        Seq::empty()
    } else {
        (if k % 8 == 0 {
            (if k == 0 {
                Seq::<char>::empty()
            } else {
                "\n"@
            }) + ".db "@
        } else {
            ", "@
        }) + byte_hex(data[k]) + render_data_from(data, k + 1)
    }
}

/// The rendered program body: the code section under its segment
/// directive and base label, then the data section under its own.
pub open spec fn render_program(p: ProgramV) -> Seq<char> {
    (match p.text {
        Some(t) => ".cseg ;flash\n"@ + "____section_text__:\n"@ + render_parts_from(t.parts, 0),
        None => Seq::empty(),
    }) + (match p.data {
        Some(d) => "\n"@ + ".cseg ;flash\n"@ + "____section_data__:\n"@ + render_data_from(
            d.data,
            0,
        ),
        None => Seq::empty(),
    })
}

/// The complete assembly text: the device directive, a blank line, then
/// the program body.
pub open spec fn render_asm(p: ProgramV) -> Seq<char> {
    ".device "@ + p.device->0.device_name + "\n\n"@ + render_program(p)
}

fn render_insn_push(out: &mut String, insn: &Insn)
    ensures
        final(out)@ == old(out)@ + render_insn(insn@),
{
    let ghost base = out@;
    match &insn.label {
        Some(l) => {
            out.append(l.as_str());
            out.append(": ");
        },
        None => {
        },
    }
    out.append(insn.name.as_str());
    let ghost mid = out@;
    let n: usize = insn.ops.len();
    let mut k: usize = 0;
    while k < n
        invariant
            k <= n,
            n == insn.ops@.len(),
            out@ + render_ops_from(insn@.core.ops, k as int) == mid + render_ops_from(
                insn@.core.ops,
                0,
            ),
            mid == base + (match insn@.core.label {
                Some(l) => l + ": "@,
                None => Seq::<char>::empty(),
            }) + insn@.core.name,
        decreases n - k,
    {
        if k == 0 {
            out.append(" ");
        } else {
            out.append(", ");
        }
        out.append(insn.ops[k].as_str());
        proof {
            assert(insn@.core.ops[k as int] == insn.ops@[k as int]@);
            assert(out@ + render_ops_from(insn@.core.ops, k + 1) =~= mid + render_ops_from(
                insn@.core.ops,
                0,
            ));
        }
        k += 1;
    }
    assert(out@ =~= old(out)@ + render_insn(insn@));
}

fn render_part_push(out: &mut String, part: &Part)
    ensures
        final(out)@ == old(out)@ + render_part(part@),
{
    let ghost base = out@;
    out.append(part.name.as_str());
    if crate::text::str_eq(part.name.as_str(), part.demangled.as_str()) {
        out.append(":");
        out.append("\n");
    } else {
        out.append(": ; ");
        out.append(part.demangled.as_str());
        out.append("\n");
    }
    let ghost mid = out@;
    proof {
        assert(mid =~= base + (if part@.name == part@.demangled {
            part@.name + ":"@ + "\n"@
        } else {
            part@.name + ": ; "@ + part@.demangled + "\n"@
        }));
    }
    let n: usize = part.insns.len();
    let mut k: usize = 0;
    while k < n
        invariant
            k <= n,
            n == part.insns@.len(),
            out@ + render_insns_from(part@.insns, k as int) == mid + render_insns_from(
                part@.insns,
                0,
            ),
        decreases n - k,
    {
        out.append("    ");
        render_insn_push(out, &part.insns[k]);
        out.append("\n");
        proof {
            assert(part@.insns[k as int] == part.insns@[k as int]@);
            assert(out@ + render_insns_from(part@.insns, k + 1) =~= mid + render_insns_from(
                part@.insns,
                0,
            ));
        }
        k += 1;
    }
    assert(out@ =~= old(out)@ + render_part(part@));
}

impl Program {
    /// The final assembly text: a device directive naming the target,
    /// then the rendered sections.  Rendering needs the device descriptor
    /// and fails without one.
    pub fn to_asm(&self) -> (r: Result<String, Error>)
        ensures
            self.device is None <==> (r matches Err(e) && e is NoDevice),
            self.device is Some ==> (r matches Ok(s) && s@ == render_asm(self@)),
    {
        let device = match &self.device {
            None => {
                return Err(Error::NoDevice);
            },
            Some(d) => d,
        };
        let mut out = String::new();
        out.append(".device ");
        out.append(device.device_name.as_str());
        out.append("\n\n");
        let ghost head = out@;
        proof {
            assert(head =~= ".device "@ + self@.device->0.device_name + "\n\n"@);
        }
        match &self.text {
            Some(t) => {
                out.append(".cseg ;flash\n");
                out.append("____section_text__:\n");
                let ghost mid = out@;
                let n: usize = t.parts.len();
                let mut k: usize = 0;
                while k < n
                    invariant
                        k <= n,
                        n == t.parts@.len(),
                        out@ + render_parts_from(t@.parts, k as int) == mid + render_parts_from(
                            t@.parts,
                            0,
                        ),
                    decreases n - k,
                {
                    render_part_push(&mut out, &t.parts[k]);
                    proof {
                        assert(t@.parts[k as int] == t.parts@[k as int]@);
                        assert(out@ + render_parts_from(t@.parts, k + 1) =~= mid
                            + render_parts_from(t@.parts, 0));
                    }
                    k += 1;
                }
                proof {
                    assert(out@ =~= head + (".cseg ;flash\n"@ + "____section_text__:\n"@
                        + render_parts_from(t@.parts, 0)));
                }
            },
            None => {
            },
        }
        let ghost mid2 = out@;
        proof {
            assert(mid2 =~= head + (match self@.text {
                Some(t) => ".cseg ;flash\n"@ + "____section_text__:\n"@ + render_parts_from(
                    t.parts,
                    0,
                ),
                None => Seq::<char>::empty(),
            }));
        }
        match &self.data {
            Some(d) => {
                out.append("\n");
                out.append(".cseg ;flash\n");
                out.append("____section_data__:\n");
                let ghost mid3 = out@;
                let n: usize = d.data.len();
                let mut k: usize = 0;
                while k < n
                    invariant
                        k <= n,
                        n == d.data@.len(),
                        out@ + render_data_from(d@.data, k as int) == mid3 + render_data_from(
                            d@.data,
                            0,
                        ),
                    decreases n - k,
                {
                    if k % 8 == 0 {
                        if k != 0 {
                            out.append("\n");
                        }
                        out.append(".db ");
                    } else {
                        out.append(", ");
                    }
                    byte_hex_push(&mut out, d.data[k]);
                    proof {
                        assert(d@.data[k as int] == d.data@[k as int]);
                        assert(out@ + render_data_from(d@.data, k + 1) =~= mid3
                            + render_data_from(d@.data, 0));
                    }
                    k += 1;
                }
                proof {
                    assert(out@ =~= mid2 + ("\n"@ + ".cseg ;flash\n"@ + "____section_data__:\n"@
                        + render_data_from(d@.data, 0)));
                }
            },
            None => {
            },
        }
        proof {
            assert(out@ =~= render_asm(self@));
        }
        Ok(out)
    }
}

} // verus!
