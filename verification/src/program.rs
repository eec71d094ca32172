//! The instruction graph: Program / CodeSection / DataSection / Part / Insn,
//! the staged-patch model attached to its nodes, and the single commit
//! traversal that applies every staged edit.

use vstd::prelude::*;
use crate::device::AvrDeviceInfoDesc;
use crate::error::Error;
use crate::text::str_eq;

verus! {

/// A staged edit to one instruction: remove it, or replace it by a run of
/// instructions in order.
pub enum InsnPatch {
    Delete,
    Replace(Vec<Insn>),
}

/// One machine instruction: mnemonic, operand tokens, an optional label
/// bound to its address, its 16-bit word address, and an optional staged
/// patch.
pub struct Insn {
    pub name: String,
    pub ops: Vec<String>,
    pub label: Option<String>,
    pub addr: u16,
    pub patch: Option<InsnPatch>,
}

/// A staged edit to one part: remove it wholly, or replace it wholly.
pub enum PartPatch {
    DeletePart,
    ReplacePart(Box<Part>),
}

/// One function/symbol-level code unit.
pub struct Part {
    pub name: String,
    pub demangled: String,
    pub insns: Vec<Insn>,
    pub patch: Option<PartPatch>,
}

/// One named code region: an ordered run of parts.
pub struct CodeSection {
    pub name: String,
    pub parts: Vec<Part>,
}

/// One named initialized-data region: a raw byte run.
pub struct DataSection {
    pub name: String,
    pub data: Vec<u8>,
}

/// The aggregate root of the instruction graph.
pub struct Program {
    pub text: Option<CodeSection>,
    pub data: Option<DataSection>,
    pub device: Option<AvrDeviceInfoDesc>,
}

// ---------------------------------------------------------------------------
// Mathematical models.  A staged replacement is modelled by the replacing
// instructions' cores alone: the commit traversal walks the graph once, so
// a patch staged on replacement content is never applied and drops out of
// the model.
// ---------------------------------------------------------------------------

#[verifier::ext_equal]
pub ghost struct InsnCore {
    pub name: Seq<char>,
    pub ops: Seq<Seq<char>>,
    pub label: Option<Seq<char>>,
    pub addr: u16,
}

pub ghost enum InsnPatchV {
    Delete,
    Replace(Seq<InsnCore>),
}

#[verifier::ext_equal]
pub ghost struct InsnV {
    pub core: InsnCore,
    pub patch: Option<InsnPatchV>,
}

#[verifier::ext_equal]
pub ghost struct PartReplV {
    pub name: Seq<char>,
    pub demangled: Seq<char>,
    pub insns: Seq<InsnCore>,
}

pub ghost enum PartPatchV {
    DeletePart,
    ReplacePart(PartReplV),
}

#[verifier::ext_equal]
pub ghost struct PartV {
    pub name: Seq<char>,
    pub demangled: Seq<char>,
    pub insns: Seq<InsnV>,
    pub patch: Option<PartPatchV>,
}

#[verifier::ext_equal]
pub ghost struct CodeSectionV {
    pub name: Seq<char>,
    pub parts: Seq<PartV>,
}

#[verifier::ext_equal]
pub ghost struct DataSectionV {
    pub name: Seq<char>,
    pub data: Seq<u8>,
}

#[verifier::ext_equal]
pub ghost struct DeviceV {
    pub flash_start: u32,
    pub flash_size: u32,
    pub sram_start: u32,
    pub sram_size: u32,
    pub eeprom_start: u32,
    pub eeprom_size: u32,
    pub device_name: Seq<char>,
}

#[verifier::ext_equal]
pub ghost struct ProgramV {
    pub text: Option<CodeSectionV>,
    pub data: Option<DataSectionV>,
    pub device: Option<DeviceV>,
}

pub open spec fn opt_str_view(l: Option<String>) -> Option<Seq<char>> {
    match l {
        Some(s) => Some(s@),
        None => None,
    }
}

pub open spec fn insn_core(i: Insn) -> InsnCore {
    InsnCore {
        name: i.name@,
        ops: i.ops@.map_values(|s: String| s@),
        label: opt_str_view(i.label),
        addr: i.addr,
    }
}

impl View for Insn {
    type V = InsnV;

    open spec fn view(&self) -> InsnV {
        InsnV {
            core: insn_core(*self),
            patch: match self.patch {
                None => None,
                Some(InsnPatch::Delete) => Some(InsnPatchV::Delete),
                Some(InsnPatch::Replace(v)) => Some(
                    InsnPatchV::Replace(v@.map_values(|j: Insn| insn_core(j))),
                ),
            },
        }
    }
}

pub open spec fn part_repl(p: Part) -> PartReplV {
    PartReplV {
        name: p.name@,
        demangled: p.demangled@,
        insns: p.insns@.map_values(|j: Insn| insn_core(j)),
    }
}

impl View for Part {
    type V = PartV;

    open spec fn view(&self) -> PartV {
        PartV {
            name: self.name@,
            demangled: self.demangled@,
            insns: self.insns@.map_values(|j: Insn| j@),
            patch: match self.patch {
                None => None,
                Some(PartPatch::DeletePart) => Some(PartPatchV::DeletePart),
                Some(PartPatch::ReplacePart(bp)) => Some(PartPatchV::ReplacePart(part_repl(*bp))),
            },
        }
    }
}

impl View for CodeSection {
    type V = CodeSectionV;

    open spec fn view(&self) -> CodeSectionV {
        CodeSectionV { name: self.name@, parts: self.parts@.map_values(|p: Part| p@) }
    }
}

impl View for DataSection {
    type V = DataSectionV;

    open spec fn view(&self) -> DataSectionV {
        DataSectionV { name: self.name@, data: self.data@ }
    }
}

impl View for AvrDeviceInfoDesc {
    type V = DeviceV;

    open spec fn view(&self) -> DeviceV {
        DeviceV {
            flash_start: self.flash_start,
            flash_size: self.flash_size,
            sram_start: self.sram_start,
            sram_size: self.sram_size,
            eeprom_start: self.eeprom_start,
            eeprom_size: self.eeprom_size,
            device_name: self.device_name@,
        }
    }
}

impl View for Program {
    type V = ProgramV;

    open spec fn view(&self) -> ProgramV {
        ProgramV {
            text: match self.text {
                Some(t) => Some(t@),
                None => None,
            },
            data: match self.data {
                Some(d) => Some(d@),
                None => None,
            },
            device: match self.device {
                Some(d) => Some(d@),
                None => None,
            },
        }
    }
}

// ---------------------------------------------------------------------------
// Instructions
// ---------------------------------------------------------------------------

impl Insn {
    /// A fresh instruction with no staged patch.
    pub fn new(name: &str, ops: Vec<String>, label: Option<String>, addr: u16) -> (r: Self)
        ensures
            r.name@ == name@,
            r.ops == ops,
            r.label == label,
            r.addr == addr,
            r.patch is None,
    {
        Insn { name: name.to_owned(), ops, label, addr, patch: None }
    }

    pub fn name(&self) -> (r: &str)
        ensures
            r@ == self.name@,
    {
        self.name.as_str()
    }

    pub fn ops(&self) -> (r: &Vec<String>)
        ensures
            r == &self.ops,
    {
        &self.ops
    }

    pub fn ops_mut(&mut self) -> (r: &mut Vec<String>)
        ensures
            *r == old(self).ops,
            final(self).ops == *final(r),
            final(self).name == old(self).name,
            final(self).label == old(self).label,
            final(self).addr == old(self).addr,
            final(self).patch == old(self).patch,
    {
        &mut self.ops
    }

    /// Replaces the operand at `index`.
    pub fn set_op(&mut self, index: usize, op: String)
        requires
            index < old(self).ops@.len(),
        ensures
            final(self).ops@ == old(self).ops@.update(index as int, op),
            final(self).name == old(self).name,
            final(self).label == old(self).label,
            final(self).addr == old(self).addr,
            final(self).patch == old(self).patch,
    {
        self.ops[index] = op;
    }

    pub fn label(&self) -> (r: Option<&str>)
        ensures
            match r {
                Some(l) => self.label matches Some(x) && l@ == x@,
                None => self.label is None,
            },
    {
        match &self.label {
            Some(l) => Some(l.as_str()),
            None => None,
        }
    }

    pub fn set_label(&mut self, label: Option<String>)
        ensures
            final(self).label == label,
            final(self).name == old(self).name,
            final(self).ops == old(self).ops,
            final(self).addr == old(self).addr,
            final(self).patch == old(self).patch,
    {
        self.label = label;
    }

    pub fn addr(&self) -> (r: u16)
        ensures
            r == self.addr,
    {
        self.addr
    }

    /// Stages, replaces, or clears this instruction's patch.
    pub fn set_patch(&mut self, patch: Option<InsnPatch>)
        ensures
            final(self).patch == patch,
            final(self).name == old(self).name,
            final(self).ops == old(self).ops,
            final(self).label == old(self).label,
            final(self).addr == old(self).addr,
    {
        self.patch = patch;
    }
}

// ---------------------------------------------------------------------------
// Parts
// ---------------------------------------------------------------------------

impl Part {
    /// A fresh, empty part with no staged patch.
    pub fn new(name: &str, demangled: &str) -> (r: Self)
        ensures
            r.name@ == name@,
            r.demangled@ == demangled@,
            r.insns@.len() == 0,
            r.patch is None,
    {
        Part { name: name.to_owned(), demangled: demangled.to_owned(), insns: Vec::new(), patch: None }
    }

    /// A part with the same name and demangled name, but no instructions
    /// and no staged patch.
    pub fn clone_empty(&self) -> (r: Self)
        ensures
            r.name@ == self.name@,
            r.demangled@ == self.demangled@,
            r.insns@.len() == 0,
            r.patch is None,
    {
        Part {
            name: self.name.as_str().to_owned(),
            demangled: self.demangled.as_str().to_owned(),
            insns: Vec::new(),
            patch: None,
        }
    }

    pub fn name(&self) -> (r: &str)
        ensures
            r@ == self.name@,
    {
        self.name.as_str()
    }

    pub fn demangled(&self) -> (r: &str)
        ensures
            r@ == self.demangled@,
    {
        self.demangled.as_str()
    }

    /// Appends one instruction, preserving disassembly order.
    pub fn add_insn(&mut self, insn: Insn)
        ensures
            final(self).insns@ == old(self).insns@.push(insn),
            final(self).name == old(self).name,
            final(self).demangled == old(self).demangled,
            final(self).patch == old(self).patch,
    {
        self.insns.push(insn);
    }

    pub fn insns(&self) -> (r: &Vec<Insn>)
        ensures
            r == &self.insns,
    {
        &self.insns
    }

    pub fn insns_mut(&mut self) -> (r: &mut Vec<Insn>)
        ensures
            *r == old(self).insns,
            final(self).insns == *final(r),
            final(self).name == old(self).name,
            final(self).demangled == old(self).demangled,
            final(self).patch == old(self).patch,
    {
        &mut self.insns
    }

    pub fn insn_at(&self, index: usize) -> (r: &Insn)
        requires
            index < self.insns@.len(),
        ensures
            *r == self.insns@[index as int],
    {
        &self.insns[index]
    }

    pub fn insn_at_mut(&mut self, index: usize) -> (r: &mut Insn)
        requires
            index < old(self).insns@.len(),
        ensures
            *r == old(self).insns@[index as int],
            final(self).insns@ == old(self).insns@.update(index as int, *final(r)),
            final(self).name == old(self).name,
            final(self).demangled == old(self).demangled,
            final(self).patch == old(self).patch,
    {
        &mut self.insns[index]
    }

    /// Stages, replaces, or clears this part's patch.
    pub fn set_patch(&mut self, patch: Option<PartPatch>)
        ensures
            final(self).patch == patch,
            final(self).name == old(self).name,
            final(self).demangled == old(self).demangled,
            final(self).insns == old(self).insns,
    {
        self.patch = patch;
    }

    /// Stages removal of the whole part.
    pub fn set_patch_delete_part(&mut self)
        ensures
            final(self).patch matches Some(p) && p is DeletePart,
            final(self).name == old(self).name,
            final(self).demangled == old(self).demangled,
            final(self).insns == old(self).insns,
    {
        self.patch = Some(PartPatch::DeletePart);
    }
}

// ---------------------------------------------------------------------------
// Sections
// ---------------------------------------------------------------------------

impl CodeSection {
    /// A fresh, empty code section.
    pub fn new(name: &str) -> (r: Self)
        ensures
            r.name@ == name@,
            r.parts@.len() == 0,
    {
        CodeSection { name: name.to_owned(), parts: Vec::new() }
    }

    pub fn name(&self) -> (r: &str)
        ensures
            r@ == self.name@,
    {
        self.name.as_str()
    }

    /// The most recently added part, the one new instructions belong to.
    pub fn cur_part_mut(&mut self) -> (r: Option<&mut Part>)
        ensures
            old(self).parts@.len() == 0 ==> (r is None && *final(self) == *old(self)),
            old(self).parts@.len() > 0 ==> (r matches Some(p) && *p == old(self).parts@.last()
                && final(self).parts@ == old(self).parts@.update(
                old(self).parts@.len() - 1,
                *final(p),
            ) && final(self).name == old(self).name),
    {
        let n: usize = self.parts.len();
        if n == 0 {
            None
        } else {
            Some(&mut self.parts[n - 1])
        }
    }

    pub fn parts(&self) -> (r: &Vec<Part>)
        ensures
            r == &self.parts,
    {
        &self.parts
    }

    pub fn part_at(&self, index: usize) -> (r: &Part)
        requires
            index < self.parts@.len(),
        ensures
            *r == self.parts@[index as int],
    {
        &self.parts[index]
    }

    pub fn part_at_mut(&mut self, index: usize) -> (r: &mut Part)
        requires
            index < old(self).parts@.len(),
        ensures
            *r == old(self).parts@[index as int],
            final(self).parts@ == old(self).parts@.update(index as int, *final(r)),
            final(self).name == old(self).name,
    {
        &mut self.parts[index]
    }

    /// Appends one part.
    pub fn add_part(&mut self, part: Part)
        ensures
            final(self).parts@ == old(self).parts@.push(part),
            final(self).name == old(self).name,
    {
        self.parts.push(part);
    }

    /// Index of the first part with the given sanitized name.
    pub fn find_part_index(&self, name: &str) -> (r: Option<usize>)
        ensures
            match r {
                Some(j) => j < self.parts@.len() && self.parts@[j as int].name@ == name@
                    && forall|k: int| 0 <= k < j ==> self.parts@[k].name@ != name@,
                None => forall|k: int| 0 <= k < self.parts@.len()
                    ==> self.parts@[k].name@ != name@,
            },
    {
        let n: usize = self.parts.len();
        let mut i: usize = 0;
        while i < n
            invariant
                i <= n,
                n == self.parts@.len(),
                forall|k: int| 0 <= k < i ==> self.parts@[k].name@ != name@,
            decreases n - i,
        {
            if str_eq(self.parts[i].name.as_str(), name) {
                return Some(i);
            }
            i += 1;
        }
        None
    }

    /// The first part with the given sanitized name.
    pub fn find_part(&self, name: &str) -> (r: Option<&Part>)
        ensures
            match r {
                Some(p) => exists|j: int|
                    0 <= j < self.parts@.len() && self.parts@[j] == *p && self.parts@[j].name@
                        == name@,
                None => forall|k: int| 0 <= k < self.parts@.len()
                    ==> self.parts@[k].name@ != name@,
            },
    {
        match self.find_part_index(name) {
            Some(i) => Some(&self.parts[i]),
            None => None,
        }
    }

    /// The first part with the given sanitized name, mutably.
    pub fn find_part_mut(&mut self, name: &str) -> (r: Option<&mut Part>)
        ensures
            match r {
                Some(p) => {
                    &&& *p == old(self).parts@[spec_first_part_named(
                        old(self).parts@,
                        name@,
                    )]
                    &&& p.name@ == name@
                    &&& spec_first_part_named(old(self).parts@, name@) >= 0
                    &&& final(self).parts@ == old(self).parts@.update(
                        spec_first_part_named(old(self).parts@, name@),
                        *final(p),
                    )
                    &&& final(self).name == old(self).name
                },
                None => *final(self) == *old(self) && forall|k: int|
                    0 <= k < old(self).parts@.len() ==> old(self).parts@[k].name@ != name@,
            },
    {
        match self.find_part_index(name) {
            Some(i) => {
                proof {
                    lemma_first_part_named(self.parts@, name@, i as int);
                }
                Some(&mut self.parts[i])
            },
            None => None,
        }
    }
}

/// The recursive first-match index is -1 or a valid index.
pub proof fn lemma_first_part_named_range(parts: Seq<Part>, name: Seq<char>)
    ensures
        -1 <= spec_first_part_named(parts, name) < parts.len() || spec_first_part_named(
            parts,
            name,
        ) == -1,
        spec_first_part_named(parts, name) >= 0 ==> spec_first_part_named(parts, name)
            < parts.len() && parts[spec_first_part_named(parts, name)].name@ == name,
    decreases parts.len(),
{
    if parts.len() > 0 {
        lemma_first_part_named_range(parts.drop_first(), name);
        if parts[0].name@ != name {
            let rest = spec_first_part_named(parts.drop_first(), name);
            if rest >= 0 {
                assert(parts.drop_first()[rest] == parts[rest + 1]);
            }
        }
    }
}

/// The recursive first-match index agrees with any witness of a first match.
proof fn lemma_first_part_named(parts: Seq<Part>, name: Seq<char>, j: int)
    requires
        0 <= j < parts.len(),
        parts[j].name@ == name,
        forall|k: int| 0 <= k < j ==> parts[k].name@ != name,
    ensures
        spec_first_part_named(parts, name) == j,
    decreases parts.len(),
{
    if j == 0 {
    } else {
        assert(parts[0].name@ != name);
        assert forall|k: int| 0 <= k < j - 1 implies parts.drop_first()[k].name@ != name by {
            assert(parts.drop_first()[k] == parts[k + 1]);
        }
        assert(parts.drop_first()[j - 1] == parts[j]);
        lemma_first_part_named(parts.drop_first(), name, j - 1);
    }
}

/// The recursive first-match index is negative exactly when no part matches.
proof fn lemma_no_part_named(parts: Seq<Part>, name: Seq<char>)
    requires
        forall|k: int| 0 <= k < parts.len() ==> parts[k].name@ != name,
    ensures
        spec_first_part_named(parts, name) == -1,
    decreases parts.len(),
{
    if parts.len() > 0 {
        assert forall|k: int| 0 <= k < parts.drop_first().len()
            implies parts.drop_first()[k].name@ != name by {
            assert(parts.drop_first()[k] == parts[k + 1]);
        }
        lemma_no_part_named(parts.drop_first(), name);
    }
}

/// Index of the first part with the given name, or -1 when there is none.
pub open spec fn spec_first_part_named(parts: Seq<Part>, name: Seq<char>) -> int
    decreases parts.len(),
{
    if parts.len() == 0 {
        -1
    } else if parts[0].name@ == name {
        0
    } else {
        let rest = spec_first_part_named(parts.drop_first(), name);
        if rest == -1 {
            -1
        } else {
            rest + 1
        }
    }
}

impl DataSection {
    /// A fresh data section over the given raw bytes.
    pub fn new(name: String, data: Vec<u8>) -> (r: Self)
        ensures
            r.name == name,
            r.data == data,
    {
        DataSection { name, data }
    }

    pub fn name(&self) -> (r: &str)
        ensures
            r@ == self.name@,
    {
        self.name.as_str()
    }

    pub fn data(&self) -> (r: &Vec<u8>)
        ensures
            r == &self.data,
    {
        &self.data
    }
}

// ---------------------------------------------------------------------------
// Program
// ---------------------------------------------------------------------------

impl Program {
    /// The empty program.
    pub fn new() -> (r: Self)
        ensures
            r.text is None,
            r.data is None,
            r.device is None,
    {
        Program { text: None, data: None, device: None }
    }

    pub fn set_section_text(&mut self, text: Option<CodeSection>)
        ensures
            final(self).text == text,
            final(self).data == old(self).data,
            final(self).device == old(self).device,
    {
        self.text = text;
    }

    pub fn section_text(&self) -> (r: Option<&CodeSection>)
        ensures
            match r {
                Some(t) => self.text matches Some(x) && *t == x,
                None => self.text is None,
            },
    {
        self.text.as_ref()
    }

    pub fn section_text_mut(&mut self) -> (r: Option<&mut CodeSection>)
        ensures
            match r {
                Some(t) => {
                    &&& old(self).text matches Some(x) && *t == x
                    &&& final(self).text matches Some(y) && y == *final(t)
                    &&& final(self).data == old(self).data
                    &&& final(self).device == old(self).device
                },
                None => old(self).text is None && *final(self) == *old(self),
            },
    {
        self.text.as_mut()
    }

    pub fn set_section_data(&mut self, data: Option<DataSection>)
        ensures
            final(self).data == data,
            final(self).text == old(self).text,
            final(self).device == old(self).device,
    {
        self.data = data;
    }

    pub fn section_data(&self) -> (r: Option<&DataSection>)
        ensures
            match r {
                Some(d) => self.data matches Some(x) && *d == x,
                None => self.data is None,
            },
    {
        self.data.as_ref()
    }

    pub fn section_data_mut(&mut self) -> (r: Option<&mut DataSection>)
        ensures
            match r {
                Some(d) => {
                    &&& old(self).data matches Some(x) && *d == x
                    &&& final(self).data matches Some(y) && y == *final(d)
                    &&& final(self).text == old(self).text
                    &&& final(self).device == old(self).device
                },
                None => old(self).data is None && *final(self) == *old(self),
            },
    {
        self.data.as_mut()
    }

    pub fn set_device(&mut self, device: Option<AvrDeviceInfoDesc>)
        ensures
            final(self).device == device,
            final(self).text == old(self).text,
            final(self).data == old(self).data,
    {
        self.device = device;
    }

    pub fn device(&self) -> (r: Option<&AvrDeviceInfoDesc>)
        ensures
            match r {
                Some(d) => self.device matches Some(x) && *d == x,
                None => self.device is None,
            },
    {
        self.device.as_ref()
    }
}


// ---------------------------------------------------------------------------
// Committing staged patches
// ---------------------------------------------------------------------------

pub open spec fn bare_core(c: InsnCore) -> InsnV {
    InsnV { core: c, patch: None }
}

/// What one instruction contributes to the committed graph.
pub open spec fn apply_insn(i: InsnV) -> Seq<InsnV> {
    match i.patch {
        None => seq![bare_core(i.core)],
        Some(InsnPatchV::Delete) => Seq::empty(),
        Some(InsnPatchV::Replace(cs)) => cs.map_values(|c: InsnCore| bare_core(c)),
    }
}

/// The committed instruction run of an unpatched part.
pub open spec fn apply_insns(insns: Seq<InsnV>) -> Seq<InsnV> {
    insns.map_values(|i: InsnV| apply_insn(i)).flatten()
}

/// What one part contributes to the committed graph.
pub open spec fn apply_part(p: PartV) -> Seq<PartV> {
    match p.patch {
        Some(PartPatchV::DeletePart) => Seq::empty(),
        Some(PartPatchV::ReplacePart(r)) => seq![
            (PartV {
                name: r.name,
                demangled: r.demangled,
                insns: r.insns.map_values(|c: InsnCore| bare_core(c)),
                patch: None,
            }),
        ],
        None => seq![
            (PartV { name: p.name, demangled: p.demangled, insns: apply_insns(p.insns), patch: None }),
        ],
    }
}

pub open spec fn apply_section(s: CodeSectionV) -> CodeSectionV {
    CodeSectionV { name: s.name, parts: s.parts.map_values(|p: PartV| apply_part(p)).flatten() }
}

/// The whole-graph commit: every staged edit applied, every patch slot
/// cleared, in one traversal ordered section, part, instruction.
pub open spec fn spec_apply_patches(p: ProgramV) -> ProgramV {
    ProgramV {
        text: match p.text {
            Some(t) => Some(apply_section(t)),
            None => None,
        },
        data: p.data,
        device: p.device,
    }
}

pub open spec fn all_insns_unstaged(s: Seq<InsnV>) -> bool {
    forall|i: int| 0 <= i < s.len() ==> (#[trigger] s[i]).patch is None
}

pub open spec fn part_unstaged(p: PartV) -> bool {
    p.patch is None && all_insns_unstaged(p.insns)
}

proof fn lemma_flatten_unstaged_insns(ss: Seq<Seq<InsnV>>)
    requires
        forall|j: int| 0 <= j < ss.len() ==> all_insns_unstaged(#[trigger] ss[j]),
    ensures
        all_insns_unstaged(ss.flatten()),
    decreases ss.len(),
{
    if ss.len() > 0 {
        assert forall|j: int| 0 <= j < ss.drop_first().len() implies all_insns_unstaged(
            #[trigger] ss.drop_first()[j],
        ) by {
            assert(ss.drop_first()[j] == ss[j + 1]);
        }
        lemma_flatten_unstaged_insns(ss.drop_first());
        assert(ss.flatten() == ss.first() + ss.drop_first().flatten());
        assert forall|i: int| 0 <= i < ss.flatten().len() implies (#[trigger] ss.flatten()[
            i
        ]).patch is None by {
            if i < ss.first().len() {
                assert(ss.flatten()[i] == ss.first()[i]);
                assert(ss.first() == ss[0]);
            } else {
                assert(ss.flatten()[i] == ss.drop_first().flatten()[i - ss.first().len()]);
            }
        }
    }
}

proof fn lemma_apply_part_unstaged(p: PartV)
    ensures
        forall|j: int| 0 <= j < apply_part(p).len() ==> part_unstaged(#[trigger] apply_part(p)[j]),
{
    match p.patch {
        Some(PartPatchV::DeletePart) => {
        },
        Some(PartPatchV::ReplacePart(r)) => {
            assert(apply_part(p)[0].insns == r.insns.map_values(|c: InsnCore| bare_core(c)));
            assert forall|i: int| 0 <= i < apply_part(p)[0].insns.len()
                implies (#[trigger] apply_part(p)[0].insns[i]).patch is None by {
                assert(apply_part(p)[0].insns[i] == bare_core(r.insns[i]));
            }
        },
        None => {
            let pieces = p.insns.map_values(|i: InsnV| apply_insn(i));
            assert forall|j: int| 0 <= j < pieces.len() implies all_insns_unstaged(
                #[trigger] pieces[j],
            ) by {
                assert(pieces[j] == apply_insn(p.insns[j]));
                match p.insns[j].patch {
                    None => {
                        assert(pieces[j][0] == bare_core(p.insns[j].core));
                    },
                    Some(InsnPatchV::Delete) => {
                    },
                    Some(InsnPatchV::Replace(cs)) => {
                        assert forall|i: int| 0 <= i < pieces[j].len()
                            implies (#[trigger] pieces[j][i]).patch is None by {
                            assert(pieces[j][i] == bare_core(cs[i]));
                        }
                    },
                }
            }
            lemma_flatten_unstaged_insns(pieces);
            assert(apply_part(p)[0].insns == apply_insns(p.insns));
        },
    }
}

/// After the commit traversal nothing is staged anywhere: every part of
/// the committed graph, and every instruction of every part, carries an
/// empty patch slot.
pub proof fn lemma_commit_leaves_nothing_staged(s: CodeSectionV)
    ensures
        forall|j: int| 0 <= j < apply_section(s).parts.len() ==> part_unstaged(
            #[trigger] apply_section(s).parts[j],
        ),
{
    let pieces = s.parts.map_values(|p: PartV| apply_part(p));
    assert forall|q: int, m: int| 0 <= q < pieces.len() && 0 <= m < pieces[q].len()
        implies part_unstaged(#[trigger] pieces[q][m]) by {
        assert(pieces[q] == apply_part(s.parts[q]));
        lemma_apply_part_unstaged(s.parts[q]);
    }
    assert forall|j: int| 0 <= j < apply_section(s).parts.len() implies part_unstaged(
        #[trigger] apply_section(s).parts[j],
    ) by {
        lemma_flatten_unstaged_parts(pieces, j);
    }
}

proof fn lemma_flatten_unstaged_parts(ss: Seq<Seq<PartV>>, j: int)
    requires
        0 <= j < ss.flatten().len(),
        forall|q: int, m: int| 0 <= q < ss.len() && 0 <= m < ss[q].len() ==> part_unstaged(
            #[trigger] ss[q][m],
        ),
    ensures
        part_unstaged(ss.flatten()[j]),
    decreases ss.len(),
{
    assert(ss.len() > 0) by {
        if ss.len() == 0 {
            assert(ss.flatten().len() == 0);
        }
    }
    assert(ss.flatten() == ss.first() + ss.drop_first().flatten());
    if j < ss.first().len() {
        assert(ss.flatten()[j] == ss.first()[j]);
        assert(ss.first() == ss[0]);
    } else {
        assert(ss.flatten()[j] == ss.drop_first().flatten()[j - ss.first().len()]);
        assert forall|q: int, m: int|
            0 <= q < ss.drop_first().len() && 0 <= m < ss.drop_first()[q].len()
                implies part_unstaged(#[trigger] ss.drop_first()[q][m]) by {
            assert(ss.drop_first()[q] == ss[q + 1]);
        }
        lemma_flatten_unstaged_parts(ss.drop_first(), j - ss.first().len());
    }
}

proof fn lemma_apply_insns_push(s: Seq<InsnV>, x: InsnV)
    ensures
        apply_insns(s.push(x)) == apply_insns(s) + apply_insn(x),
{
    assert(s.push(x).map_values(|i: InsnV| apply_insn(i)) =~= s.map_values(
        |i: InsnV| apply_insn(i),
    ).push(apply_insn(x)));
    s.map_values(|i: InsnV| apply_insn(i)).lemma_flatten_push(apply_insn(x));
}

proof fn lemma_apply_parts_push(s: Seq<PartV>, x: PartV)
    ensures
        s.push(x).map_values(|p: PartV| apply_part(p)).flatten() == s.map_values(
            |p: PartV| apply_part(p),
        ).flatten() + apply_part(x),
{
    assert(s.push(x).map_values(|p: PartV| apply_part(p)) =~= s.map_values(
        |p: PartV| apply_part(p),
    ).push(apply_part(x)));
    s.map_values(|p: PartV| apply_part(p)).lemma_flatten_push(apply_part(x));
}

/// Clears the patch slot of every instruction of a staged replacement run.
fn strip_insns(insns: Vec<Insn>) -> (r: Vec<Insn>)
    ensures
        r@.map_values(|j: Insn| j@) == insns@.map_values(|j: Insn| insn_core(j)).map_values(
            |c: InsnCore| bare_core(c),
        ),
{
    let ghost orig = insns@;
    let mut rest = insns;
    let mut out: Vec<Insn> = Vec::new();
    while rest.len() > 0
        invariant
            out@.len() + rest@.len() == orig.len(),
            orig.subrange(out@.len() as int, orig.len() as int) == rest@,
            out@.map_values(|j: Insn| j@) == orig.subrange(0, out@.len() as int).map_values(
                |j: Insn| insn_core(j),
            ).map_values(|c: InsnCore| bare_core(c)),
        decreases rest@.len(),
    {
        let ghost k = out@.len() as int;
        let j = rest.remove(0);
        assert(j == orig[k]);
        assert(orig.subrange(k, orig.len() as int).remove(0) =~= orig.subrange(
            k + 1,
            orig.len() as int,
        ));
        let ghost prev_out = out@;
        let bare = Insn { name: j.name, ops: j.ops, label: j.label, addr: j.addr, patch: None };
        assert(bare@ =~~= bare_core(insn_core(j)));
        out.push(bare);
        proof {
            let f = |j: Insn| j@;
            let g = |j: Insn| insn_core(j);
            let h = |c: InsnCore| bare_core(c);
            let rhs = orig.subrange(0, k + 1).map_values(g).map_values(h);
            assert forall|m: int| 0 <= m < out@.len() implies out@.map_values(f)[m] == rhs[m] by {
                assert(rhs[m] == h(orig.subrange(0, k + 1).map_values(g)[m]));
                assert(orig.subrange(0, k + 1).map_values(g)[m] == g(orig.subrange(0, k + 1)[m]));
                assert(orig.subrange(0, k + 1)[m] == orig[m]);
                if m < k {
                    assert(out@.map_values(f)[m] == f(prev_out[m]));
                    assert(prev_out.map_values(f)[m] == f(prev_out[m]));
                    assert(prev_out.map_values(f)[m] == orig.subrange(0, k).map_values(g).map_values(h)[m]);
                    assert(orig.subrange(0, k).map_values(g).map_values(h)[m] == h(
                        orig.subrange(0, k).map_values(g)[m],
                    ));
                    assert(orig.subrange(0, k).map_values(g)[m] == g(orig.subrange(0, k)[m]));
                    assert(orig.subrange(0, k)[m] == orig[m]);
                } else {
                    assert(out@[m] == bare);
                    assert(out@.map_values(f)[m] == f(bare));
                }
            }
            assert(out@.map_values(f) =~= rhs);
        }
    }
    assert(orig.subrange(0, orig.len() as int) =~= orig);
    out
}

/// Commits the instruction-level patches of one unpatched part.
fn commit_insns(insns: Vec<Insn>) -> (r: Vec<Insn>)
    ensures
        r@.map_values(|j: Insn| j@) == apply_insns(insns@.map_values(|j: Insn| j@)),
{
    let ghost orig_exec = insns@;
    let ghost orig = insns@.map_values(|j: Insn| j@);
    let mut rest = insns;
    let mut out: Vec<Insn> = Vec::new();
    let ghost mut k: int = 0;
    assert(orig.subrange(0, 0).map_values(|i: InsnV| apply_insn(i)).flatten() =~= Seq::<
        InsnV,
    >::empty());
    while rest.len() > 0
        invariant
            0 <= k,
            k + rest@.len() == orig_exec.len(),
            orig == orig_exec.map_values(|j: Insn| j@),
            rest@ == orig_exec.subrange(k, orig_exec.len() as int),
            out@.map_values(|j: Insn| j@) == apply_insns(orig.subrange(0, k)),
        decreases rest@.len(),
    {
        let j = rest.remove(0);
        assert(j == orig_exec[k]);
        assert(j@ == orig[k]);
        proof {
            assert(rest@ =~= orig_exec.subrange(k + 1, orig_exec.len() as int));
            assert(orig.subrange(0, k + 1) =~= orig.subrange(0, k).push(orig[k]));
            lemma_apply_insns_push(orig.subrange(0, k), orig[k]);
        }
        match j.patch {
            None => {
                let bare = Insn {
                    name: j.name,
                    ops: j.ops,
                    label: j.label,
                    addr: j.addr,
                    patch: None,
                };
                out.push(bare);
                assert(out@.map_values(|j: Insn| j@) =~= apply_insns(orig.subrange(0, k + 1)));
            },
            Some(InsnPatch::Delete) => {
                assert(out@.map_values(|j: Insn| j@) =~= apply_insns(orig.subrange(0, k + 1)));
            },
            Some(InsnPatch::Replace(v)) => {
                let mut w = strip_insns(v);
                out.append(&mut w);
                assert(out@.map_values(|j: Insn| j@) =~= apply_insns(orig.subrange(0, k + 1)));
            },
        }
        proof {
            k = k + 1;
        }
    }
    assert(orig_exec.subrange(0, k) =~= orig_exec);
    assert(orig.subrange(0, k) =~= orig);
    out
}

/// Commits the part-level and instruction-level patches of a part run.
fn commit_parts(parts: Vec<Part>) -> (r: Vec<Part>)
    ensures
        r@.map_values(|p: Part| p@) == parts@.map_values(|p: Part| p@).map_values(
            |p: PartV| apply_part(p),
        ).flatten(),
{
    let ghost orig_exec = parts@;
    let ghost orig = parts@.map_values(|p: Part| p@);
    let mut rest = parts;
    let mut out: Vec<Part> = Vec::new();
    let ghost mut k: int = 0;
    assert(orig.subrange(0, 0).map_values(|p: PartV| apply_part(p)).flatten() =~= Seq::<
        PartV,
    >::empty());
    while rest.len() > 0
        invariant
            0 <= k,
            k + rest@.len() == orig_exec.len(),
            orig == orig_exec.map_values(|p: Part| p@),
            rest@ == orig_exec.subrange(k, orig_exec.len() as int),
            out@.map_values(|p: Part| p@) == orig.subrange(0, k).map_values(
                |p: PartV| apply_part(p),
            ).flatten(),
        decreases rest@.len(),
    {
        let p = rest.remove(0);
        assert(p == orig_exec[k]);
        assert(p@ == orig[k]);
        proof {
            assert(rest@ =~= orig_exec.subrange(k + 1, orig_exec.len() as int));
            assert(orig.subrange(0, k + 1) =~= orig.subrange(0, k).push(orig[k]));
            lemma_apply_parts_push(orig.subrange(0, k), orig[k]);
        }
        match p.patch {
            Some(PartPatch::DeletePart) => {
                assert(out@.map_values(|p: Part| p@) =~= orig.subrange(0, k + 1).map_values(
                    |p: PartV| apply_part(p),
                ).flatten());
            },
            Some(PartPatch::ReplacePart(bp)) => {
                let repl = *bp;
                let fresh = Part {
                    name: repl.name,
                    demangled: repl.demangled,
                    insns: strip_insns(repl.insns),
                    patch: None,
                };
                out.push(fresh);
                assert(out@.map_values(|p: Part| p@) =~= orig.subrange(0, k + 1).map_values(
                    |p: PartV| apply_part(p),
                ).flatten());
            },
            None => {
                let fresh = Part {
                    name: p.name,
                    demangled: p.demangled,
                    insns: commit_insns(p.insns),
                    patch: None,
                };
                out.push(fresh);
                assert(out@.map_values(|p: Part| p@) =~= orig.subrange(0, k + 1).map_values(
                    |p: PartV| apply_part(p),
                ).flatten());
            },
        }
        proof {
            k = k + 1;
        }
    }
    assert(orig_exec.subrange(0, k) =~= orig_exec);
    assert(orig.subrange(0, k) =~= orig);
    out
}

impl Program {
    /// The commit traversal: applies every staged patch in one walk over
    /// the graph and clears every patch slot.
    pub fn apply_patches(&mut self)
        ensures
            final(self)@ == spec_apply_patches(old(self)@),
    {
        let text = self.text.take();
        match text {
            None => {
                assert(self@ =~~= spec_apply_patches(old(self)@));
            },
            Some(sect) => {
                let CodeSection { name, parts } = sect;
                let new_parts = commit_parts(parts);
                self.text = Some(CodeSection { name, parts: new_parts });
                assert(self@ =~~= spec_apply_patches(old(self)@));
            },
        }
    }
}


// ---------------------------------------------------------------------------
// Data-section load-address fixup
// ---------------------------------------------------------------------------

/// An immediate load of a literal into the given register, the shape the
/// startup copy routine uses to set the address-pointer register pair.
pub open spec fn is_ldi_to(i: InsnV, reg: Seq<char>) -> bool {
    i.core.name == "ldi"@ && i.core.ops.len() == 2 && i.core.ops[0] == reg
}

pub open spec fn set_op1(i: InsnV, v: Seq<char>) -> InsnV {
    InsnV {
        core: InsnCore {
            name: i.core.name,
            ops: i.core.ops.update(1, v),
            label: i.core.label,
            addr: i.core.addr,
        },
        patch: i.patch,
    }
}

pub open spec fn low_expr() -> Seq<char> {
    "low(____section_data__ * 2)"@
}

pub open spec fn high_expr() -> Seq<char> {
    "high(____section_data__ * 2)"@
}

/// The load-address scan: rewrites the low/high immediate loads of the
/// pointer pair to track the data section's symbolic base, stops at the
/// first unrelated instruction after a rewrite, and reports whether both
/// halves were found.
pub open spec fn spec_fixup_insns(insns: Seq<InsnV>, zl: bool, zh: bool) -> (Seq<InsnV>, bool)
    decreases insns.len(),
{
    if zl && zh {
        (insns, true)
    } else if insns.len() == 0 {
        (insns, false)
    } else {
        let i0 = insns[0];
        if is_ldi_to(i0, "r30"@) {
            let rec = spec_fixup_insns(insns.drop_first(), true, zh);
            (seq![set_op1(i0, low_expr())] + rec.0, rec.1)
        } else if is_ldi_to(i0, "r31"@) {
            let rec = spec_fixup_insns(insns.drop_first(), zl, true);
            (seq![set_op1(i0, high_expr())] + rec.0, rec.1)
        } else if zl || zh {
            (insns, false)
        } else {
            let rec = spec_fixup_insns(insns.drop_first(), false, false);
            (seq![i0] + rec.0, rec.1)
        }
    }
}

/// Runs the load-address scan over an instruction run in place.
fn fixup_insns(insns: &mut Vec<Insn>) -> (r: bool)
    ensures
        ({
            let scan = spec_fixup_insns(old(insns)@.map_values(|j: Insn| j@), false, false);
            &&& r == scan.1
            &&& final(insns)@.map_values(|j: Insn| j@) == scan.0
        }),
{
    let ghost orig = insns@.map_values(|j: Insn| j@);
    let ghost scan = spec_fixup_insns(orig, false, false);
    let n: usize = insns.len();
    let mut zl: bool = false;
    let mut zh: bool = false;
    let mut stop: bool = false;
    let mut k: usize = 0;
    assert(orig.subrange(0, n as int) =~= orig);
    assert(insns@.map_values(|j: Insn| j@).subrange(0, 0) =~= Seq::<InsnV>::empty());
    while k < n && !stop
        invariant
            k <= n,
            n == insns@.len(),
            orig.len() == n,
            orig == old(insns)@.map_values(|j: Insn| j@),
            scan == spec_fixup_insns(orig, false, false),
            !(zl && zh),
            insns@.map_values(|j: Insn| j@).subrange(k as int, n as int) == orig.subrange(
                k as int,
                n as int,
            ),
            !stop ==> scan.0 == insns@.map_values(|j: Insn| j@).subrange(0, k as int)
                + spec_fixup_insns(orig.subrange(k as int, n as int), zl, zh).0,
            !stop ==> scan.1 == spec_fixup_insns(orig.subrange(k as int, n as int), zl, zh).1,
            stop ==> scan.0 == insns@.map_values(|j: Insn| j@) && scan.1 == false,
        decreases n - k, (if stop { 0int } else { 1int }),
    {
        let ghost zl0 = zl;
        let ghost zh0 = zh;
        let ghost cur = insns@.map_values(|j: Insn| j@);
        let ghost suffix = orig.subrange(k as int, n as int);
        proof {
            assert(cur.subrange(k as int, n as int)[0] == cur[k as int]);
            assert(suffix[0] == orig[k as int]);
            assert(cur[k as int] == orig[k as int]);
            assert(suffix.drop_first() =~= orig.subrange(k + 1, n as int));
        }
        let insn: &mut Insn = &mut insns[k];
        assert(insn@ == cur[k as int]);
        let is_ldi2: bool = str_eq(insn.name.as_str(), "ldi") && insn.ops.len() == 2;
        let r30: bool = if is_ldi2 {
            str_eq(insn.ops[0].as_str(), "r30")
        } else {
            false
        };
        let r31: bool = if is_ldi2 {
            str_eq(insn.ops[0].as_str(), "r31")
        } else {
            false
        };
        proof {
            if is_ldi2 {
                assert(insn@.core.ops[0] == insn.ops@[0]@);
            }
            assert(r30 == is_ldi_to(orig[k as int], "r30"@));
            assert(r31 == is_ldi_to(orig[k as int], "r31"@));
        }
        let ghost expect: InsnV = if r30 {
            set_op1(orig[k as int], low_expr())
        } else if r31 {
            set_op1(orig[k as int], high_expr())
        } else {
            orig[k as int]
        };
        if r30 {
            insn.set_op(1, "low(____section_data__ * 2)".to_owned());
            zl = true;
            proof {
                assert(insn@.core.ops =~= orig[k as int].core.ops.update(1, low_expr()));
                assert(insn@ =~~= set_op1(orig[k as int], low_expr()));
                assert(insn@ == expect);
                assert(spec_fixup_insns(suffix, zl0, zh0).0 == seq![
                    set_op1(orig[k as int], low_expr()),
                ] + spec_fixup_insns(suffix.drop_first(), true, zh0).0);
                assert(spec_fixup_insns(suffix, zl0, zh0).1 == spec_fixup_insns(
                    suffix.drop_first(),
                    true,
                    zh0,
                ).1);
            }
        } else if r31 {
            insn.set_op(1, "high(____section_data__ * 2)".to_owned());
            zh = true;
            proof {
                assert(insn@.core.ops =~= orig[k as int].core.ops.update(1, high_expr()));
                assert(insn@ =~~= set_op1(orig[k as int], high_expr()));
                assert(insn@ == expect);
                assert(spec_fixup_insns(suffix, zl0, zh0).0 == seq![
                    set_op1(orig[k as int], high_expr()),
                ] + spec_fixup_insns(suffix.drop_first(), zl0, true).0);
                assert(spec_fixup_insns(suffix, zl0, zh0).1 == spec_fixup_insns(
                    suffix.drop_first(),
                    zl0,
                    true,
                ).1);
            }
        } else if zl || zh {
            stop = true;
            proof {
                assert(spec_fixup_insns(suffix, zl0, zh0).0 == suffix);
                assert(spec_fixup_insns(suffix, zl0, zh0).1 == false);
                let cur2 = insns@.map_values(|j: Insn| j@);
                assert(cur2 =~= cur);
                assert(scan.0 =~= cur2.subrange(0, k as int) + cur2.subrange(k as int, n as int));
                assert(scan.0 =~= cur2);
            }
            continue;
        } else {
            proof {
                assert(insn@ == orig[k as int]);
                assert(insn@ == expect);
                assert(spec_fixup_insns(suffix, false, false).0 == seq![orig[k as int]]
                    + spec_fixup_insns(suffix.drop_first(), false, false).0);
                assert(spec_fixup_insns(suffix, zl0, zh0).1 == spec_fixup_insns(
                    suffix.drop_first(),
                    zl0,
                    zh0,
                ).1);
            }
        }
        proof {
            let cur2 = insns@.map_values(|j: Insn| j@);
            assert(cur2.len() == n);
            assert forall|m: int| 0 <= m < n && m != k implies cur2[m] == cur[m] by {
            }
            assert(cur2[k as int] == expect);
            assert(cur2.subrange(k + 1, n as int) =~= orig.subrange(k + 1, n as int));
            assert(cur2.subrange(0, k as int) =~= cur.subrange(0, k as int));
            assert(cur2.subrange(0, k + 1) =~= cur2.subrange(0, k as int).push(cur2[k as int]));
            assert(scan.0 =~= cur2.subrange(0, k + 1) + spec_fixup_insns(
                orig.subrange(k + 1, n as int),
                zl,
                zh,
            ).0);
        }
        if zl && zh {
            proof {
                let cur2 = insns@.map_values(|j: Insn| j@);
                assert(spec_fixup_insns(orig.subrange(k + 1, n as int), true, true).0
                    == orig.subrange(k + 1, n as int));
                assert(spec_fixup_insns(orig.subrange(k + 1, n as int), true, true).1);
                assert(cur2 =~= cur2.subrange(0, k + 1) + cur2.subrange(k + 1, n as int));
                assert(scan.0 =~= cur2);
                assert(scan.1);
                assert(insns@.map_values(|j: Insn| j@) == scan.0);
            }
            return true;
        }
        k += 1;
    }
    if stop {
        return false;
    }
    assert(orig.subrange(k as int, n as int).len() == 0);
    assert(scan.0 =~= insns@.map_values(|j: Insn| j@));
    false
}

impl Program {
    /// Rewrites the startup copy routine's compiled-in flash load address
    /// to the data section's symbolic base, split into low and high halves.
    pub fn fixup_data_load_addr(&mut self) -> (r: Result<(), Error>)
        ensures
            old(self).text is None ==> (r matches Err(e) && e is NoTextSection) && *final(self)
                == *old(self),
            (old(self).text is Some && spec_first_part_named(
                old(self).text->0.parts@,
                "__do_copy_data"@,
            ) < 0) ==> (r matches Err(e) && e is CopyDataNotFound) && *final(self) == *old(self),
            (old(self).text is Some && spec_first_part_named(
                old(self).text->0.parts@,
                "__do_copy_data"@,
            ) >= 0) ==> ({
                let parts = old(self).text->0.parts@;
                let j = spec_first_part_named(parts, "__do_copy_data"@);
                let scan = spec_fixup_insns(parts[j]@.insns, false, false);
                &&& (r is Ok <==> scan.1)
                &&& (r matches Err(e) ==> e is NoDataLoadAddr)
                &&& final(self).text matches Some(ft) && ft@ == (CodeSectionV {
                    name: old(self).text->0.name@,
                    parts: parts.map_values(|p: Part| p@).update(
                        j,
                        (PartV {
                            name: parts[j].name@,
                            demangled: parts[j].demangled@,
                            insns: scan.0,
                            patch: parts[j]@.patch,
                        }),
                    ),
                })
                &&& final(self).data == old(self).data
                &&& final(self).device == old(self).device
            }),
    {
        let text = match self.text.as_mut() {
            None => {
                return Err(Error::NoTextSection);
            },
            Some(t) => t,
        };
        let fi = match text.find_part_index("__do_copy_data") {
            None => {
                proof {
                    lemma_no_part_named(text.parts@, "__do_copy_data"@);
                }
                return Err(Error::CopyDataNotFound);
            },
            Some(i) => {
                proof {
                    lemma_first_part_named(text.parts@, "__do_copy_data"@, i as int);
                }
                i
            },
        };
        let fcopy = text.part_at_mut(fi);
        let ok = fixup_insns(&mut fcopy.insns);
        proof {
            let parts = old(self).text->0.parts@;
            let j = spec_first_part_named(parts, "__do_copy_data"@);
            assert(parts[j]@.insns == parts[j].insns@.map_values(|x: Insn| x@));
        }
        if ok {
            Ok(())
        } else {
            Err(Error::NoDataLoadAddr)
        }
    }
}

} // verus!
