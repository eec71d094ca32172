use avr_rewrite::abi::reg_is_callee_saved;
use avr_rewrite::device::AvrDeviceInfoDesc;
use avr_rewrite::error::Error;
use avr_rewrite::parse::{process_dasm, sanitize_label};
use avr_rewrite::passes::{elide_entry_prologue, run_bad_interrupt_exit, run_main_prologue};
use avr_rewrite::pipeline::patch_program;
use avr_rewrite::program::{
    CodeSection, DataSection, Insn, InsnPatch, Part, PartPatch, Program,
};
use avr_rewrite::resolve::{compute_target, resolve_references};

fn demo_device() -> AvrDeviceInfoDesc {
    AvrDeviceInfoDesc {
        flash_start: 0,
        flash_size: 8192,
        sram_start: 0x100,
        sram_size: 512,
        eeprom_start: 0,
        eeprom_size: 256,
        device_name: "attiny85".to_string(),
    }
}

fn insn(name: &str, ops: &[&str], addr: u16) -> Insn {
    Insn::new(
        name,
        ops.iter().map(|o| o.to_string()).collect(),
        None,
        addr,
    )
}

fn descriptor_blob(flash_size: u32, name_offset: u32, table: &[u8]) -> Vec<u8> {
    let mut blob = Vec::new();
    blob.extend_from_slice(&0u32.to_le_bytes());
    blob.extend_from_slice(&flash_size.to_le_bytes());
    blob.extend_from_slice(&0x100u32.to_le_bytes());
    blob.extend_from_slice(&512u32.to_le_bytes());
    blob.extend_from_slice(&0u32.to_le_bytes());
    blob.extend_from_slice(&256u32.to_le_bytes());
    blob.extend_from_slice(&8u32.to_le_bytes());
    blob.extend_from_slice(&name_offset.to_le_bytes());
    blob.extend_from_slice(table);
    blob
}

#[test]
fn descriptor_decodes_fields_and_name() {
    let blob = descriptor_blob(8192, 0, b"atmega328p\0");
    let d = AvrDeviceInfoDesc::from_bytes(&blob).ok().unwrap();
    assert_eq!(d.flash_start, 0);
    assert_eq!(d.flash_size, 8192);
    assert_eq!(d.sram_start, 0x100);
    assert_eq!(d.sram_size, 512);
    assert_eq!(d.eeprom_start, 0);
    assert_eq!(d.eeprom_size, 256);
    assert_eq!(d.device_name, "atmega328p");
}

#[test]
fn descriptor_too_small_is_rejected() {
    let r = AvrDeviceInfoDesc::from_bytes(&[0u8; 31]);
    assert!(matches!(r, Err(Error::DescriptorTooSmall)));
}

#[test]
fn descriptor_flash_size_must_be_power_of_two() {
    let blob = descriptor_blob(8190, 0, b"x\0");
    assert!(matches!(
        AvrDeviceInfoDesc::from_bytes(&blob),
        Err(Error::FlashSizeNotPowerOfTwo)
    ));
    let blob0 = descriptor_blob(0, 0, b"x\0");
    assert!(matches!(
        AvrDeviceInfoDesc::from_bytes(&blob0),
        Err(Error::FlashSizeNotPowerOfTwo)
    ));
}

#[test]
fn descriptor_bad_name_offset_is_rejected() {
    let blob = descriptor_blob(8192, 100, b"x\0");
    assert!(matches!(
        AvrDeviceInfoDesc::from_bytes(&blob),
        Err(Error::DeviceNameNotFound)
    ));
}

#[test]
fn note_type_and_name_are_checked() {
    let blob = descriptor_blob(8192, 0, b"x\0");
    assert!(matches!(
        avr_rewrite::device::deviceinfo_from_note(2, "AVR", &blob),
        Err(Error::NoteWrongType)
    ));
    assert!(matches!(
        avr_rewrite::device::deviceinfo_from_note(1, "GNU", &blob),
        Err(Error::NoteWrongName)
    ));
    assert!(avr_rewrite::device::deviceinfo_from_note(1, "AVR", &blob).is_ok());
}

#[test]
fn callee_saved_register_set() {
    assert!(reg_is_callee_saved("r2"));
    assert!(reg_is_callee_saved("r17"));
    assert!(reg_is_callee_saved("r28"));
    assert!(reg_is_callee_saved("r29"));
    assert!(!reg_is_callee_saved("r0"));
    assert!(!reg_is_callee_saved("r18"));
    assert!(!reg_is_callee_saved("r30"));
    assert!(!reg_is_callee_saved(""));
}

#[test]
fn sanitize_label_replaces_punctuation() {
    assert_eq!(sanitize_label("a.b$c^d"), "a__dot__b__dollar__c__caret__d");
    assert_eq!(sanitize_label("plain"), "plain");
    assert_eq!(sanitize_label(""), "");
}

const DASM_SMALL: &str = "\
input.elf:     file format elf32-avr\n\
\n\
\n\
Disassembly of section .text:\n\
\n\
00000000 <start>:\n\
   0:\t01 c0       \trjmp\t.+2\n\
   2:\t00 00       \tnop\n\
   4:\t00 00       \tnop\n\
\n\
00000006 <other>:\n\
   6:\t08 95       \tret\n";

#[test]
fn parser_builds_graph_and_resolves_labels() {
    // The relative branch at address 0 targets 0 + 2 + 2 = 4, so its
    // operand must become a label carried by the instruction at address 4.
    let mut prog = Program::new();
    prog.set_device(Some(demo_device()));
    let warns = process_dasm(&mut prog, DASM_SMALL).ok().unwrap();
    assert!(warns.is_empty());
    let text = prog.section_text().unwrap();
    assert_eq!(text.parts().len(), 2);
    assert_eq!(text.parts()[0].name(), "start");
    assert_eq!(text.parts()[1].name(), "other");
    let start = &text.parts()[0];
    assert_eq!(start.insns().len(), 3);
    assert_eq!(start.insns()[0].name(), "rjmp");
    assert_eq!(start.insns()[0].ops()[0], "__reltgt0");
    assert_eq!(start.insns()[2].addr(), 4);
    assert_eq!(start.insns()[2].label(), Some("__reltgt0"));
}

#[test]
fn parser_reuses_existing_labels_over_fresh_ones() {
    let dasm = "\
Disassembly of section .text:\n\
\n\
00000000 <start>:\n\
   0:\t01 c0       \trjmp\t.+2\n\
   2:\t01 c0       \trjmp\t.+0\n\
   4:\t00 00       \tnop\n";
    // Both branches target address 4: the first resolution labels it, the
    // second must reuse that label rather than invent another.
    let mut prog = Program::new();
    prog.set_device(Some(demo_device()));
    process_dasm(&mut prog, dasm).ok().unwrap();
    let text = prog.section_text().unwrap();
    let start = &text.parts()[0];
    assert_eq!(start.insns()[0].ops()[0], "__reltgt0");
    assert_eq!(start.insns()[1].ops()[0], "__reltgt0");
    assert_eq!(start.insns()[2].label(), Some("__reltgt0"));
}

#[test]
fn parser_collects_warnings_for_unknown_lines() {
    let dasm = "\
Disassembly of section .text:\n\
something the grammar does not know\n\
00000000 <start>:\n\
   0:\t00 00       \tnop\n";
    let mut prog = Program::new();
    prog.set_device(Some(demo_device()));
    let warns = process_dasm(&mut prog, dasm).ok().unwrap();
    assert_eq!(warns.len(), 1);
    assert_eq!(warns[0], "something the grammar does not know");
}

#[test]
fn parser_ignores_compiler_local_symbols() {
    let dasm = "\
Disassembly of section .text:\n\
00000000 <.Llocal>:\n\
00000000 <start>:\n\
   0:\t00 00       \tnop\n";
    let mut prog = Program::new();
    prog.set_device(Some(demo_device()));
    process_dasm(&mut prog, dasm).ok().unwrap();
    assert_eq!(prog.section_text().unwrap().parts().len(), 1);
}

#[test]
fn parser_demangles_symbol_names() {
    let dasm = "\
Disassembly of section .text:\n\
00000000 <_ZN3foo3bar17h0123456789abcdefE>:\n\
   0:\t00 00       \tnop\n";
    let mut prog = Program::new();
    prog.set_device(Some(demo_device()));
    process_dasm(&mut prog, dasm).ok().unwrap();
    let text = prog.section_text().unwrap();
    assert_eq!(text.parts()[0].name(), "_ZN3foo3bar17h0123456789abcdefE");
    assert_eq!(text.parts()[0].demangled(), "foo::bar");
}

#[test]
fn parser_splits_operands_and_strips_comments() {
    let dasm = "\
Disassembly of section .text:\n\
00000000 <start>:\n\
   0:\te0 e5       \tldi\tr30, 0x50\t; 0x50 <__data>\n";
    let mut prog = Program::new();
    prog.set_device(Some(demo_device()));
    process_dasm(&mut prog, dasm).ok().unwrap();
    let text = prog.section_text().unwrap();
    let i = &text.parts()[0].insns()[0];
    assert_eq!(i.name(), "ldi");
    assert_eq!(i.ops().len(), 2);
    assert_eq!(i.ops()[0], "r30");
    assert_eq!(i.ops()[1], "0x50");
    assert_eq!(i.addr(), 0);
}

#[test]
fn parser_gives_empty_operand_to_bare_mnemonics() {
    let dasm = "\
Disassembly of section .text:\n\
00000000 <start>:\n\
   0:\t08 95       \tret\n";
    let mut prog = Program::new();
    prog.set_device(Some(demo_device()));
    process_dasm(&mut prog, dasm).ok().unwrap();
    let text = prog.section_text().unwrap();
    let i = &text.parts()[0].insns()[0];
    assert_eq!(i.name(), "ret");
    assert_eq!(i.ops().len(), 1);
    assert_eq!(i.ops()[0], "");
}

#[test]
fn parser_rejects_wrong_section() {
    let dasm = "Disassembly of section .data:\n";
    let mut prog = Program::new();
    prog.set_device(Some(demo_device()));
    let r = process_dasm(&mut prog, dasm);
    assert!(matches!(r, Err(Error::UnsupportedSection(n)) if n == ".data"));
}

#[test]
fn parser_rejects_instruction_outside_section() {
    let dasm = "   0:\t00 00       \tnop\n";
    let mut prog = Program::new();
    let r = process_dasm(&mut prog, dasm);
    assert!(matches!(r, Err(Error::InsnOutsideSection(_))));
}

#[test]
fn parser_rejects_instruction_outside_part() {
    let dasm = "\
Disassembly of section .text:\n\
   0:\t00 00       \tnop\n";
    let mut prog = Program::new();
    let r = process_dasm(&mut prog, dasm);
    assert!(matches!(r, Err(Error::InsnOutsidePart(_))));
}

#[test]
fn parser_rejects_oversized_address() {
    let dasm = "\
Disassembly of section .text:\n\
00000000 <start>:\n\
   12345:\t00 00       \tnop\n";
    let mut prog = Program::new();
    let r = process_dasm(&mut prog, dasm);
    assert!(matches!(r, Err(Error::BadInsnAddress(a)) if a == "12345"));
}

#[test]
fn resolver_requires_device_info() {
    let mut prog = Program::new();
    let mut sect = CodeSection::new(".text");
    sect.add_part(Part::new("start", "start"));
    prog.set_section_text(Some(sect));
    assert!(matches!(resolve_references(&mut prog), Err(Error::NoDevice)));
}

#[test]
fn resolver_rejects_unreachable_target() {
    let mut prog = Program::new();
    prog.set_device(Some(demo_device()));
    let mut part = Part::new("start", "start");
    part.add_insn(insn("rjmp", &[".+100"], 0));
    let mut sect = CodeSection::new(".text");
    sect.add_part(part);
    prog.set_section_text(Some(sect));
    assert!(matches!(
        resolve_references(&mut prog),
        Err(Error::RelTargetNotFound(_))
    ));
}

#[test]
fn target_address_wraps_at_flash_boundary() {
    // With mask 0x1FFF, an instruction at 0x1FFE with offset +4 resolves to
    // 0x0004, not 0x2002.
    assert_eq!(compute_target(0x1FFE, 4, 0x1FFF), 0x0004);
    assert_eq!(compute_target(0, -2, 0x1FFF), 0);
    assert_eq!(compute_target(0, -4, 0x1FFF), 0x1FFE);
    assert_eq!(compute_target(0x10, 4, 0x1FFF), 0x16);
}

#[test]
fn resolver_wraps_at_flash_boundary_end_to_end() {
    let mut prog = Program::new();
    prog.set_device(Some(demo_device()));
    let mut part = Part::new("start", "start");
    part.add_insn(insn("rjmp", &[".+4"], 0x1FFE));
    part.add_insn(insn("nop", &[""], 0x0004));
    let mut sect = CodeSection::new(".text");
    sect.add_part(part);
    prog.set_section_text(Some(sect));
    resolve_references(&mut prog).ok().unwrap();
    let text = prog.section_text().unwrap();
    assert_eq!(text.parts()[0].insns()[0].ops()[0], "__reltgt0");
    assert_eq!(text.parts()[0].insns()[1].label(), Some("__reltgt0"));
}

fn entry_part() -> Part {
    let mut p = Part::new("entry", "firmware::__avr_device_rt_main");
    p.add_insn(insn("push", &["r16"], 0x10));
    p.add_insn(insn("push", &["r28"], 0x11));
    p.add_insn(insn("push", &["r0"], 0x12));
    p.add_insn(insn("push", &["r29"], 0x13));
    p.add_insn(insn("ldi", &["r24", "0x01"], 0x14));
    p
}

fn full_program() -> Program {
    let mut vectors = Part::new("__vectors", "__vectors");
    for v in 0..10u16 {
        vectors.add_insn(insn("rjmp", &["__bad_interrupt"], v));
    }
    vectors.add_insn(insn("rjmp", &["user_isr"], 10));
    let mut bad = Part::new("__bad_interrupt", "__bad_interrupt");
    bad.add_insn(insn("rjmp", &["__vectors"], 0x20));
    let mut copy = Part::new("__do_copy_data", "__do_copy_data");
    copy.add_insn(insn("ldi", &["r30", "0x60"], 0x30));
    copy.add_insn(insn("ldi", &["r31", "0x00"], 0x31));
    let mut centry = Part::new("__ctors_end", "__ctors_end");
    centry.add_insn(insn("call", &["main"], 0x40));
    let mut cmain = Part::new("main", "main");
    cmain.add_insn(insn("call", &["entry"], 0x50));
    let mut sect = CodeSection::new(".text");
    sect.add_part(vectors);
    sect.add_part(bad);
    sect.add_part(copy);
    sect.add_part(centry);
    sect.add_part(cmain);
    sect.add_part(entry_part());
    let mut prog = Program::new();
    prog.set_section_text(Some(sect));
    prog.set_section_data(Some(DataSection::new(
        ".data".to_string(),
        vec![1, 2, 3],
    )));
    prog.set_device(Some(demo_device()));
    prog
}

#[test]
fn prologue_elision_scans_the_leading_push_run() {
    // exactly the pushes of r16, r28 and r29 are staged for deletion;
    // push r0 stays, and the scan never passes the first non-push.
    let mut p = entry_part();
    elide_entry_prologue(&mut p);
    assert!(matches!(p.insns()[0].patch, Some(InsnPatch::Delete)));
    assert!(matches!(p.insns()[1].patch, Some(InsnPatch::Delete)));
    assert!(p.insns()[2].patch.is_none());
    assert!(matches!(p.insns()[3].patch, Some(InsnPatch::Delete)));
    assert!(p.insns()[4].patch.is_none());
}

#[test]
fn prologue_elision_stops_at_first_non_push() {
    let mut p = Part::new("entry", "x::__avr_device_rt_main");
    p.add_insn(insn("push", &["r16"], 0));
    p.add_insn(insn("nop", &[""], 1));
    p.add_insn(insn("push", &["r17"], 2));
    elide_entry_prologue(&mut p);
    assert!(matches!(p.insns()[0].patch, Some(InsnPatch::Delete)));
    assert!(p.insns()[1].patch.is_none());
    assert!(p.insns()[2].patch.is_none());
}

#[test]
fn vector_retargeting_replaces_only_bad_interrupt_jumps() {
    // The ten jumps to __bad_interrupt are replaced, the user ISR's
    // entry stays, and the handler part is staged for deletion.
    let mut prog = full_program();
    run_bad_interrupt_exit(&mut prog).ok().unwrap();
    let text = prog.section_text().unwrap();
    let vectors = text.find_part("__vectors").unwrap();
    for v in 0..10 {
        match &vectors.insns()[v].patch {
            Some(InsnPatch::Replace(new_insns)) => {
                assert_eq!(new_insns.len(), 1);
                assert_eq!(new_insns[0].name(), "rjmp");
                assert_eq!(new_insns[0].ops()[0], "_exit");
            }
            other => panic!("vector {} not replaced: {:?}", v, other.is_some()),
        }
    }
    assert!(vectors.insns()[10].patch.is_none());
    assert_eq!(vectors.insns()[10].ops()[0], "user_isr");
    let bad = text.find_part("__bad_interrupt").unwrap();
    assert!(matches!(bad.patch, Some(PartPatch::DeletePart)));
}

#[test]
fn vector_retargeting_requires_the_table() {
    let mut prog = Program::new();
    prog.set_section_text(Some(CodeSection::new(".text")));
    assert!(matches!(
        run_bad_interrupt_exit(&mut prog),
        Err(Error::VectorTableNotFound)
    ));
}

#[test]
fn splice_rewrites_the_c_entry_and_deletes_c_main() {
    let mut prog = full_program();
    run_main_prologue(&mut prog).ok().unwrap();
    let text = prog.section_text().unwrap();
    let centry = text.find_part("__ctors_end").unwrap();
    match &centry.patch {
        Some(PartPatch::ReplacePart(np)) => {
            assert_eq!(np.name(), "__ctors_end");
            assert_eq!(np.insns().len(), 1);
            assert_eq!(np.insns()[0].name(), "rjmp");
            assert_eq!(np.insns()[0].ops()[0], "entry");
        }
        _ => panic!("C entry not replaced"),
    }
    let cmain = text.find_part("main").unwrap();
    assert!(matches!(cmain.patch, Some(PartPatch::DeletePart)));
    let entry = text.find_part("entry").unwrap();
    assert!(matches!(entry.insns()[0].patch, Some(InsnPatch::Delete)));
}

#[test]
fn splice_fails_naming_main_when_it_is_missing() {
    // lacking a part literally named `main`, the splice fails with the
    // error that identifies `main` specifically.
    let mut vectors = Part::new("__vectors", "__vectors");
    vectors.add_insn(insn("rjmp", &["__bad_interrupt"], 0));
    let mut centry = Part::new("__ctors_end", "__ctors_end");
    centry.add_insn(insn("call", &["main"], 0x40));
    let mut sect = CodeSection::new(".text");
    sect.add_part(vectors);
    sect.add_part(centry);
    sect.add_part(entry_part());
    let mut prog = Program::new();
    prog.set_section_text(Some(sect));
    prog.set_device(Some(demo_device()));
    let r = run_main_prologue(&mut prog);
    assert!(matches!(r, Err(Error::CMainNotFound)));
}

#[test]
fn splice_fails_when_entry_is_missing() {
    let mut sect = CodeSection::new(".text");
    sect.add_part(Part::new("main", "main"));
    let mut prog = Program::new();
    prog.set_section_text(Some(sect));
    assert!(matches!(
        run_main_prologue(&mut prog),
        Err(Error::EntryNotFound)
    ));
}

#[test]
fn unknown_step_rejects_before_mutating() {
    // an unknown pass name fails the pipeline before it touches the
    // program at all.
    let mut prog = full_program();
    let before = prog.to_asm().ok().unwrap();
    let steps = vec!["main-prologue".to_string(), "does-not-exist".to_string()];
    let r = patch_program(&mut prog, &steps);
    assert!(matches!(r, Err(Error::UnknownStep(n)) if n == "does-not-exist"));
    let after = prog.to_asm().ok().unwrap();
    assert_eq!(before, after);
}

#[test]
fn request_order_does_not_change_the_result() {
    // requesting the steps in either order yields the identical final
    // graph, because passes run in priority order.
    let mut prog1 = full_program();
    let mut prog2 = full_program();
    let fwd = vec![
        "main-prologue".to_string(),
        "bad-interrupt-exit".to_string(),
    ];
    let rev = vec![
        "bad-interrupt-exit".to_string(),
        "main-prologue".to_string(),
    ];
    patch_program(&mut prog1, &fwd).ok().unwrap();
    patch_program(&mut prog2, &rev).ok().unwrap();
    assert_eq!(prog1.to_asm().ok().unwrap(), prog2.to_asm().ok().unwrap());
}

#[test]
fn duplicate_step_names_run_once() {
    let mut prog1 = full_program();
    let mut prog2 = full_program();
    let once = vec!["bad-interrupt-exit".to_string()];
    let twice = vec![
        "bad-interrupt-exit".to_string(),
        "bad-interrupt-exit".to_string(),
    ];
    patch_program(&mut prog1, &once).ok().unwrap();
    patch_program(&mut prog2, &twice).ok().unwrap();
    assert_eq!(prog1.to_asm().ok().unwrap(), prog2.to_asm().ok().unwrap());
}

#[test]
fn pipeline_commits_staged_patches() {
    let mut prog = full_program();
    let steps = vec![
        "bad-interrupt-exit".to_string(),
        "main-prologue".to_string(),
    ];
    patch_program(&mut prog, &steps).ok().unwrap();
    let text = prog.section_text().unwrap();
    // __bad_interrupt and the C main are gone.
    assert!(text.find_part("__bad_interrupt").is_none());
    assert!(text.find_part("main").is_none());
    // the C entry is a single jump to the runtime entry
    let centry = text.find_part("__ctors_end").unwrap();
    assert_eq!(centry.insns().len(), 1);
    assert_eq!(centry.insns()[0].name(), "rjmp");
    assert_eq!(centry.insns()[0].ops()[0], "entry");
    // the callee-saved pushes are gone, push r0 stays
    let entry = text.find_part("entry").unwrap();
    assert_eq!(entry.insns().len(), 2);
    assert_eq!(entry.insns()[0].ops()[0], "r0");
    assert_eq!(entry.insns()[1].name(), "ldi");
    // the vectors now jump to _exit
    let vectors = text.find_part("__vectors").unwrap();
    assert_eq!(vectors.insns()[0].ops()[0], "_exit");
    assert_eq!(vectors.insns()[10].ops()[0], "user_isr");
    // the copy routine tracks the data section's base
    let copy = text.find_part("__do_copy_data").unwrap();
    assert_eq!(copy.insns()[0].ops()[1], "low(____section_data__ * 2)");
    assert_eq!(copy.insns()[1].ops()[1], "high(____section_data__ * 2)");
}

#[test]
fn fixup_rewrites_the_pointer_pair() {
    let mut prog = full_program();
    prog.fixup_data_load_addr().ok().unwrap();
    let text = prog.section_text().unwrap();
    let copy = text.find_part("__do_copy_data").unwrap();
    assert_eq!(copy.insns()[0].ops()[1], "low(____section_data__ * 2)");
    assert_eq!(copy.insns()[1].ops()[1], "high(____section_data__ * 2)");
}

#[test]
fn fixup_fails_without_the_copy_routine() {
    let mut prog = Program::new();
    prog.set_section_text(Some(CodeSection::new(".text")));
    assert!(matches!(
        prog.fixup_data_load_addr(),
        Err(Error::CopyDataNotFound)
    ));
    let mut prog2 = Program::new();
    assert!(matches!(
        prog2.fixup_data_load_addr(),
        Err(Error::NoTextSection)
    ));
}

#[test]
fn fixup_fails_without_the_load_pair() {
    let mut copy = Part::new("__do_copy_data", "__do_copy_data");
    copy.add_insn(insn("ret", &[""], 0));
    let mut sect = CodeSection::new(".text");
    sect.add_part(copy);
    let mut prog = Program::new();
    prog.set_section_text(Some(sect));
    assert!(matches!(
        prog.fixup_data_load_addr(),
        Err(Error::NoDataLoadAddr)
    ));
}

#[test]
fn renderer_emits_label_and_indented_instruction() {
    // one part named foo holding `ldi r16, 0x05` renders as the two
    // lines `foo:` and `    ldi r16, 0x05`.
    let mut part = Part::new("foo", "foo");
    part.add_insn(insn("ldi", &["r16", "0x05"], 0));
    let mut sect = CodeSection::new(".text");
    sect.add_part(part);
    let mut prog = Program::new();
    prog.set_section_text(Some(sect));
    prog.set_device(Some(demo_device()));
    let listing = prog.to_asm().ok().unwrap();
    assert_eq!(
        listing,
        ".device attiny85\n\n.cseg ;flash\n____section_text__:\nfoo:\n    ldi r16, 0x05\n"
    );
}

#[test]
fn renderer_comments_differing_demangled_names() {
    let mut part = Part::new("mangled", "nice::name");
    part.add_insn(insn("ret", &[""], 0));
    let mut sect = CodeSection::new(".text");
    sect.add_part(part);
    let mut prog = Program::new();
    prog.set_section_text(Some(sect));
    prog.set_device(Some(demo_device()));
    let listing = prog.to_asm().ok().unwrap();
    assert!(listing.contains("mangled: ; nice::name\n"));
}

#[test]
fn renderer_emits_labels_on_instructions() {
    let mut part = Part::new("foo", "foo");
    part.add_insn(Insn::new(
        "nop",
        vec!["".to_string()],
        Some("__reltgt0".to_string()),
        0,
    ));
    let mut sect = CodeSection::new(".text");
    sect.add_part(part);
    let mut prog = Program::new();
    prog.set_section_text(Some(sect));
    prog.set_device(Some(demo_device()));
    let listing = prog.to_asm().ok().unwrap();
    assert!(listing.contains("    __reltgt0: nop \n"));
}

#[test]
fn renderer_emits_data_bytes_eight_per_line() {
    let mut prog = Program::new();
    prog.set_device(Some(demo_device()));
    prog.set_section_data(Some(DataSection::new(
        ".data".to_string(),
        vec![0, 1, 2, 3, 4, 5, 6, 7, 8, 255],
    )));
    let listing = prog.to_asm().ok().unwrap();
    assert_eq!(
        listing,
        ".device attiny85\n\n\n.cseg ;flash\n____section_data__:\n\
         .db 0x00, 0x01, 0x02, 0x03, 0x04, 0x05, 0x06, 0x07\n.db 0x08, 0xFF"
    );
}

#[test]
fn renderer_requires_device_info() {
    let prog = Program::new();
    assert!(matches!(prog.to_asm(), Err(Error::NoDevice)));
}

#[test]
fn apply_patches_commits_every_kind_of_edit() {
    let mut keep = insn("nop", &[""], 0);
    let mut del = insn("push", &["r16"], 1);
    del.set_patch(Some(InsnPatch::Delete));
    let mut repl = insn("rjmp", &["__bad_interrupt"], 2);
    repl.set_patch(Some(InsnPatch::Replace(vec![
        insn("rjmp", &["_exit"], 2),
        insn("nop", &[""], 2),
    ])));
    let mut part = Part::new("a", "a");
    part.add_insn(keep);
    part.add_insn(del);
    part.add_insn(repl);
    let mut gone = Part::new("b", "b");
    gone.set_patch_delete_part();
    let mut swapped = Part::new("c", "c");
    swapped.add_insn(insn("call", &["main"], 3));
    let mut body = Part::new("c", "c");
    body.add_insn(insn("rjmp", &["entry"], 0));
    swapped.set_patch(Some(PartPatch::ReplacePart(Box::new(body))));
    let mut sect = CodeSection::new(".text");
    sect.add_part(part);
    sect.add_part(gone);
    sect.add_part(swapped);
    let mut prog = Program::new();
    prog.set_section_text(Some(sect));
    prog.apply_patches();
    let text = prog.section_text().unwrap();
    assert_eq!(text.parts().len(), 2);
    let a = &text.parts()[0];
    assert_eq!(a.insns().len(), 3);
    assert_eq!(a.insns()[0].name(), "nop");
    assert_eq!(a.insns()[1].ops()[0], "_exit");
    assert_eq!(a.insns()[2].name(), "nop");
    let c = &text.parts()[1];
    assert_eq!(c.name(), "c");
    assert_eq!(c.insns().len(), 1);
    assert_eq!(c.insns()[0].ops()[0], "entry");
}

#[test]
fn error_messages_name_the_failure() {
    let m = Error::UnknownStep("bogus".to_string()).message();
    assert!(m.contains("bogus"));
    let wrapped = Error::InStep(
        "main-prologue".to_string(),
        Box::new(Error::CMainNotFound),
    )
    .message();
    assert!(wrapped.contains("main-prologue"));
    assert!(wrapped.contains("C main"));
}
