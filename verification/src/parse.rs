//! The disassembly listing grammar: the five line classes the single-pass
//! parser recognizes, their exact character-level definitions, and the
//! executable matchers proved against them.

use vstd::prelude::*;
use vstd::string::*;
use crate::error::Error;
use crate::program::{CodeSection, CodeSectionV, Insn, InsnCore, InsnV, Part, PartV, Program, ProgramV};
use crate::text::{
    find_char_from, has_prefix, has_suffix, is_hex_char, is_ws_char, spec_parse_hex_u16,
    spec_trim, str_ends_with, str_starts_with, trim_str, parse_hex_u16, hex_val, ws_char,
};

verus! {

// ---------------------------------------------------------------------------
// Scanning primitives
// ---------------------------------------------------------------------------

/// First index at or after `i` holding a non-whitespace character.
pub open spec fn first_non_ws_from(s: Seq<char>, i: int) -> int
    decreases s.len() - i,
{
    if i < 0 || i >= s.len() {
        s.len() as int
    } else if is_ws_char(s[i]) {
        first_non_ws_from(s, i + 1)
    } else {
        i
    }
}

/// First index at or after `i` holding a non-hexadecimal character.
pub open spec fn hex_run_end(s: Seq<char>, i: int) -> int
    decreases s.len() - i,
{
    if i < 0 || i >= s.len() {
        s.len() as int
    } else if is_hex_char(s[i]) {
        hex_run_end(s, i + 1)
    } else {
        i
    }
}

/// First index at or after `i` holding a whitespace character.
pub open spec fn nonws_run_end(s: Seq<char>, i: int) -> int
    decreases s.len() - i,
{
    if i < 0 || i >= s.len() {
        s.len() as int
    } else if !is_ws_char(s[i]) {
        nonws_run_end(s, i + 1)
    } else {
        i
    }
}

/// End of the raw-byte column: the maximal run of `two hex digits and a
/// space` groups starting at `i`.
pub open spec fn byte_groups_end(s: Seq<char>, i: int) -> int
    decreases s.len() - i,
{
    if i < 0 || i + 3 > s.len() {
        i
    } else if is_hex_char(s[i]) && is_hex_char(s[i + 1]) && s[i + 2] == ' ' {
        byte_groups_end(s, i + 3)
    } else {
        i
    }
}

fn find_non_ws_from(s: &str, i: usize) -> (r: usize)
    requires
        i <= s@.len(),
    ensures
        r == first_non_ws_from(s@, i as int),
        i <= r <= s@.len(),
{
    let n: usize = s.unicode_len();
    let mut j: usize = i;
    while j < n && ws_char(s.get_char(j))
        invariant
            i <= j <= n,
            n == s@.len(),
            first_non_ws_from(s@, i as int) == first_non_ws_from(s@, j as int),
        decreases n - j,
    {
        j += 1;
    }
    j
}

fn find_hex_run_end(s: &str, i: usize) -> (r: usize)
    requires
        i <= s@.len(),
    ensures
        r == hex_run_end(s@, i as int),
        i <= r <= s@.len(),
{
    let n: usize = s.unicode_len();
    let mut j: usize = i;
    while j < n && hex_val(s.get_char(j)).is_some()
        invariant
            i <= j <= n,
            n == s@.len(),
            hex_run_end(s@, i as int) == hex_run_end(s@, j as int),
        decreases n - j,
    {
        j += 1;
    }
    j
}

fn find_nonws_run_end(s: &str, i: usize) -> (r: usize)
    requires
        i <= s@.len(),
    ensures
        r == nonws_run_end(s@, i as int),
        i <= r <= s@.len(),
{
    let n: usize = s.unicode_len();
    let mut j: usize = i;
    while j < n && !ws_char(s.get_char(j))
        invariant
            i <= j <= n,
            n == s@.len(),
            nonws_run_end(s@, i as int) == nonws_run_end(s@, j as int),
        decreases n - j,
    {
        j += 1;
    }
    j
}

fn find_byte_groups_end(s: &str, i: usize) -> (r: usize)
    requires
        i <= s@.len(),
    ensures
        r == byte_groups_end(s@, i as int),
        i <= r <= s@.len(),
{
    let n: usize = s.unicode_len();
    let mut j: usize = i;
    loop
        invariant
            i <= j <= n,
            n == s@.len(),
            byte_groups_end(s@, i as int) == byte_groups_end(s@, j as int),
        decreases n - j,
    {
        if n - j >= 3 && hex_val(s.get_char(j)).is_some() && hex_val(s.get_char(j + 1)).is_some()
            && s.get_char(j + 2) == ' ' {
            j += 3;
        } else {
            return j;
        }
    }
}

// ---------------------------------------------------------------------------
// The five line classes, matched in the parser's priority order
// ---------------------------------------------------------------------------

/// The file-format banner: recognized and ignored.
pub open spec fn is_banner_line(s: Seq<char>) -> bool {
    has_suffix(s, "file format elf32-avr"@)
}

pub fn match_banner(s: &str) -> (r: bool)
    ensures
        r == is_banner_line(s@),
{
    str_ends_with(s, "file format elf32-avr")
}

/// A section header: the fixed prefix, a non-empty colon-free section
/// name, and a final colon.
pub open spec fn is_section_line(s: Seq<char>) -> bool {
    let p = "Disassembly of section "@;
    &&& has_prefix(s, p)
    &&& s.len() >= p.len() + 2
    &&& s.last() == ':'
    &&& forall|k: int| p.len() <= k < s.len() - 1 ==> s[k] != ':'
}

/// The section name of a section header line.
pub open spec fn section_line_name(s: Seq<char>) -> Seq<char> {
    s.subrange("Disassembly of section "@.len() as int, s.len() - 1)
}

pub fn match_section(s: &str) -> (r: Option<String>)
    ensures
        r is Some <==> is_section_line(s@),
        r matches Some(n) ==> n@ == section_line_name(s@),
{
    let p = "Disassembly of section ";
    if !str_starts_with(s, p) {
        return None;
    }
    let pn: usize = p.unicode_len();
    let n: usize = s.unicode_len();
    if n < pn || n - pn < 2 {
        return None;
    }
    if s.get_char(n - 1) != ':' {
        return None;
    }
    match find_char_from(s, pn, ':') {
        Some(j) if j == n - 1 => Some(s.substring_char(pn, n - 1).to_owned()),
        _ => None,
    }
}

/// A symbol header: eight hexadecimal digits, whitespace, then the symbol
/// name in angle brackets and a final colon.
pub open spec fn is_symbol_line(s: Seq<char>) -> bool {
    let w = first_non_ws_from(s, 8);
    &&& s.len() >= 13
    &&& (forall|k: int| 0 <= k < 8 ==> is_hex_char(s[k]))
    &&& !is_hex_char(s[8])
    &&& w > 8
    &&& w < s.len()
    &&& s[w] == '<'
    &&& s.last() == ':'
    &&& s[s.len() - 2] == '>'
    &&& s.len() - 2 > w + 1
    &&& forall|k: int| w + 1 <= k < s.len() - 2 ==> s[k] != '>'
}

/// The symbol name of a symbol header line.
pub open spec fn symbol_line_name(s: Seq<char>) -> Seq<char> {
    s.subrange(first_non_ws_from(s, 8) + 1, s.len() - 2)
}

pub fn match_symbol(s: &str) -> (r: Option<String>)
    ensures
        r is Some <==> is_symbol_line(s@),
        r matches Some(n) ==> n@ == symbol_line_name(s@),
{
    let n: usize = s.unicode_len();
    if n < 13 {
        return None;
    }
    let mut i: usize = 0;
    while i < 8
        invariant
            i <= 8,
            n == s@.len(),
            n >= 13,
            forall|k: int| 0 <= k < i ==> is_hex_char(s@[k]),
        decreases 8 - i,
    {
        if hex_val(s.get_char(i)).is_none() {
            return None;
        }
        i += 1;
    }
    if hex_val(s.get_char(8)).is_some() {
        return None;
    }
    let w: usize = find_non_ws_from(s, 8);
    if w == 8 || w >= n {
        return None;
    }
    if s.get_char(w) != '<' {
        return None;
    }
    if s.get_char(n - 1) != ':' || s.get_char(n - 2) != '>' {
        return None;
    }
    if n - 2 <= w + 1 {
        return None;
    }
    let mut k: usize = w + 1;
    while k < n - 2
        invariant
            w + 1 <= k <= n - 2,
            n == s@.len(),
            w == first_non_ws_from(s@, 8),
            8 < w < n,
            forall|m: int| w + 1 <= m < k ==> s@[m] != '>',
        decreases n - k,
    {
        if s.get_char(k) == '>' {
            return None;
        }
        k += 1;
    }
    Some(s.substring_char(w + 1, n - 2).to_owned())
}

/// An instruction line: a hexadecimal address and colon, the raw-byte
/// column, the mnemonic, then operand text running to the first comment
/// semicolon.
pub open spec fn is_insn_line(s: Seq<char>) -> bool {
    let a = hex_run_end(s, 0);
    let w1 = first_non_ws_from(s, a + 1);
    let g = byte_groups_end(s, w1);
    let w2 = first_non_ws_from(s, g);
    &&& a > 0
    &&& a < s.len()
    &&& s[a] == ':'
    &&& w1 > a + 1
    &&& g > w1
    &&& w2 > g
    &&& w2 < s.len()
}

/// The address digits of an instruction line.
pub open spec fn insn_line_addr(s: Seq<char>) -> Seq<char> {
    s.subrange(0, hex_run_end(s, 0))
}

/// The mnemonic of an instruction line.
pub open spec fn insn_line_mnemonic(s: Seq<char>) -> Seq<char> {
    let a = hex_run_end(s, 0);
    let w1 = first_non_ws_from(s, a + 1);
    let g = byte_groups_end(s, w1);
    let w2 = first_non_ws_from(s, g);
    s.subrange(w2, nonws_run_end(s, w2))
}

/// First index at or after `i` holding a semicolon, or the length.
pub open spec fn first_semi_from(s: Seq<char>, i: int) -> int
    decreases s.len() - i,
{
    if i < 0 || i >= s.len() {
        s.len() as int
    } else if s[i] == ';' {
        i
    } else {
        first_semi_from(s, i + 1)
    }
}

/// The trimmed operand text of an instruction line: everything after the
/// mnemonic up to a comment semicolon.
pub open spec fn insn_line_ops_text(s: Seq<char>) -> Seq<char> {
    let a = hex_run_end(s, 0);
    let w1 = first_non_ws_from(s, a + 1);
    let g = byte_groups_end(s, w1);
    let w2 = first_non_ws_from(s, g);
    let m = nonws_run_end(s, w2);
    spec_trim(s.subrange(m, first_semi_from(s, m)))
}

fn find_semi_from(s: &str, i: usize) -> (r: usize)
    requires
        i <= s@.len(),
    ensures
        r == first_semi_from(s@, i as int),
        i <= r <= s@.len(),
{
    let n: usize = s.unicode_len();
    let mut j: usize = i;
    while j < n && s.get_char(j) != ';'
        invariant
            i <= j <= n,
            n == s@.len(),
            first_semi_from(s@, i as int) == first_semi_from(s@, j as int),
        decreases n - j,
    {
        j += 1;
    }
    j
}

pub fn match_insn(s: &str) -> (r: Option<(String, String, String)>)
    ensures
        r is Some <==> is_insn_line(s@),
        r matches Some(t) ==> t.0@ == insn_line_addr(s@) && t.1@ == insn_line_mnemonic(s@)
            && t.2@ == insn_line_ops_text(s@),
{
    let n: usize = s.unicode_len();
    let a: usize = find_hex_run_end(s, 0);
    if a == 0 || a >= n {
        return None;
    }
    if s.get_char(a) != ':' {
        return None;
    }
    let w1: usize = find_non_ws_from(s, a + 1);
    if w1 == a + 1 {
        return None;
    }
    let g: usize = find_byte_groups_end(s, w1);
    if g == w1 {
        return None;
    }
    let w2: usize = find_non_ws_from(s, g);
    if w2 == g || w2 >= n {
        return None;
    }
    let m: usize = find_nonws_run_end(s, w2);
    let semi: usize = find_semi_from(s, m);
    let addr = s.substring_char(0, a).to_owned();
    let mnem = s.substring_char(w2, m).to_owned();
    let ops = trim_str(s.substring_char(m, semi)).to_owned();
    Some((addr, mnem, ops))
}


// ---------------------------------------------------------------------------
// Symbol-name handling
// ---------------------------------------------------------------------------

/// How one character of a symbol name is made safe for assembly syntax.
pub open spec fn sanitize_char_seq(c: char) -> Seq<char> {
    if c == '.' {
        "__dot__"@
    } else if c == '$' {
        "__dollar__"@
    } else if c == '^' {
        "__caret__"@
    } else {
        seq![c]
    }
}

/// A symbol name with the punctuation the assembler rejects replaced by
/// fixed textual escapes.
pub open spec fn spec_sanitize(s: Seq<char>) -> Seq<char>
    decreases s.len(),
{
    if s.len() == 0 {
        Seq::empty()
    } else {
        spec_sanitize(s.drop_last()) + sanitize_char_seq(s.last())
    }
}

/// Sanitizes a symbol name into a valid assembly identifier.
pub fn sanitize_label(label: &str) -> (r: String)
    ensures
        r@ == spec_sanitize(label@),
{
    let n: usize = label.unicode_len();
    let mut out = String::new();
    let mut i: usize = 0;
    while i < n
        invariant
            i <= n,
            n == label@.len(),
            out@ == spec_sanitize(label@.subrange(0, i as int)),
        decreases n - i,
    {
        let c: char = label.get_char(i);
        proof {
            assert(label@.subrange(0, i + 1).drop_last() =~= label@.subrange(0, i as int));
            assert(label@.subrange(0, i + 1).last() == label@[i as int]);
        }
        if c == '.' {
            out.append("__dot__");
        } else if c == '$' {
            out.append("__dollar__");
        } else if c == '^' {
            out.append("__caret__");
        } else {
            crate::text::push_char(&mut out, c);
            assert(out@ =~= spec_sanitize(label@.subrange(0, i as int)) + seq![c]);
        }
        i += 1;
    }
    assert(label@.subrange(0, n as int) =~= label@);
    out
}

/// The human-readable form of a possibly mangled symbol name.
pub uninterp spec fn demangled_of(s: Seq<char>) -> Seq<char>;

/// Relies on rustc_demangle::demangle, rendered without the trailing hash:
/// the demangling depends on the symbol text alone.
#[verifier::external_body]
pub fn demangle_symbol(s: &str) -> (r: String)
    ensures
        r@ == demangled_of(s@),
{
    format!("{:#}", rustc_demangle::demangle(s))
}

// ---------------------------------------------------------------------------
// Operand splitting
// ---------------------------------------------------------------------------

/// First index at or after `i` holding a comma, or the length.
pub open spec fn first_comma_from(s: Seq<char>, i: int) -> int
    decreases s.len() - i,
{
    if i < 0 || i >= s.len() {
        s.len() as int
    } else if s[i] == ',' {
        i
    } else {
        first_comma_from(s, i + 1)
    }
}

/// Operand text split on commas, each token trimmed.  Empty operand text
/// yields one empty token.
pub open spec fn split_ops(s: Seq<char>) -> Seq<Seq<char>>
    decreases s.len(),
{
    let c = first_comma_from(s, 0);
    if 0 <= c < s.len() {
        seq![spec_trim(s.subrange(0, c))] + split_ops(s.subrange(c + 1, s.len() as int))
    } else {
        seq![spec_trim(s)]
    }
}

fn find_comma_from(s: &str, i: usize) -> (r: usize)
    requires
        i <= s@.len(),
    ensures
        r == first_comma_from(s@, i as int),
        i <= r <= s@.len(),
{
    let n: usize = s.unicode_len();
    let mut j: usize = i;
    while j < n && s.get_char(j) != ','
        invariant
            i <= j <= n,
            n == s@.len(),
            first_comma_from(s@, i as int) == first_comma_from(s@, j as int),
        decreases n - j,
    {
        j += 1;
    }
    j
}

/// Splits operand text on commas and trims each token.
pub fn split_ops_exec(s: &str) -> (r: Vec<String>)
    ensures
        r@.map_values(|x: String| x@) == split_ops(s@),
    decreases s@.len(),
{
    let n: usize = s.unicode_len();
    let c: usize = find_comma_from(s, 0);
    if c >= n {
        let mut v: Vec<String> = Vec::new();
        v.push(trim_str(s).to_owned());
        assert(v@.map_values(|x: String| x@) =~= split_ops(s@));
        v
    } else {
        let head = trim_str(s.substring_char(0, c)).to_owned();
        let rest = s.substring_char(c + 1, n);
        let mut v = split_ops_exec(rest);
        v.insert(0, head);
        assert(v@.map_values(|x: String| x@) =~= split_ops(s@));
        v
    }
}

// ---------------------------------------------------------------------------
// The line fold
// ---------------------------------------------------------------------------

/// The parse failures a disassembly line can raise, with their payloads.
pub ghost enum ParseErr {
    UnsupportedSection(Seq<char>),
    SymbolOutsideSection(Seq<char>),
    InsnOutsideSection(Seq<char>),
    InsnOutsidePart(Seq<char>),
    BadInsnAddress(Seq<char>),
}

/// Which library error a parse failure surfaces as.
pub open spec fn err_matches(e: crate::error::Error, pe: ParseErr) -> bool {
    match pe {
        ParseErr::UnsupportedSection(n) => e matches crate::error::Error::UnsupportedSection(s)
            && s@ == n,
        ParseErr::SymbolOutsideSection(n) => e matches crate::error::Error::SymbolOutsideSection(
            s,
        ) && s@ == n,
        ParseErr::InsnOutsideSection(n) => e matches crate::error::Error::InsnOutsideSection(s)
            && s@ == n,
        ParseErr::InsnOutsidePart(n) => e matches crate::error::Error::InsnOutsidePart(s) && s@
            == n,
        ParseErr::BadInsnAddress(n) => e matches crate::error::Error::BadInsnAddress(s) && s@
            == n,
    }
}

pub open spec fn empty_insn_v(name: Seq<char>, ops: Seq<Seq<char>>, addr: u16) -> InsnV {
    InsnV { core: InsnCore { name, ops, label: None, addr }, patch: None }
}

/// The section with one instruction appended to its current (last) part.
pub open spec fn push_insn_v(t: CodeSectionV, i: InsnV) -> CodeSectionV {
    let lastp = t.parts.last();
    CodeSectionV {
        name: t.name,
        parts: t.parts.update(
            t.parts.len() - 1,
            PartV {
                name: lastp.name,
                demangled: lastp.demangled,
                insns: lastp.insns.push(i),
                patch: lastp.patch,
            },
        ),
    }
}

/// One step of the line-oriented parser: how one trimmed line transforms
/// the program, raises a warning, or fails.  The five classes are tried
/// in priority order.
pub open spec fn spec_line_step(p: ProgramV, line: Seq<char>) -> Result<
    (ProgramV, Option<Seq<char>>),
    ParseErr,
> {
    if line.len() == 0 {
        Ok((p, None))
    } else if is_insn_line(line) {
        let mn = insn_line_mnemonic(line);
        match spec_parse_hex_u16(insn_line_addr(line)) {
            None => Err(ParseErr::BadInsnAddress(insn_line_addr(line))),
            Some(addr) => match p.text {
                None => Err(ParseErr::InsnOutsideSection(mn)),
                Some(t) => if t.parts.len() == 0 {
                    Err(ParseErr::InsnOutsidePart(mn))
                } else {
                    Ok(
                        (
                            ProgramV {
                                text: Some(
                                    push_insn_v(
                                        t,
                                        empty_insn_v(
                                            mn,
                                            split_ops(insn_line_ops_text(line)),
                                            addr,
                                        ),
                                    ),
                                ),
                                data: p.data,
                                device: p.device,
                            },
                            None,
                        ),
                    )
                },
            },
        }
    } else if is_symbol_line(line) {
        let nm = symbol_line_name(line);
        if has_prefix(nm, ".L"@) {
            Ok((p, None))
        } else {
            match p.text {
                None => Err(ParseErr::SymbolOutsideSection(nm)),
                Some(t) => Ok(
                    (
                        ProgramV {
                            text: Some(
                                CodeSectionV {
                                    name: t.name,
                                    parts: t.parts.push(
                                        PartV {
                                            name: spec_sanitize(nm),
                                            demangled: demangled_of(nm),
                                            insns: Seq::empty(),
                                            patch: None,
                                        },
                                    ),
                                },
                            ),
                            data: p.data,
                            device: p.device,
                        },
                        None,
                    ),
                ),
            }
        }
    } else if is_section_line(line) {
        let nm = section_line_name(line);
        if nm != ".text"@ {
            Err(ParseErr::UnsupportedSection(nm))
        } else {
            Ok(
                (
                    ProgramV {
                        text: Some(CodeSectionV { name: nm, parts: Seq::empty() }),
                        data: p.data,
                        device: p.device,
                    },
                    None,
                ),
            )
        }
    } else if is_banner_line(line) {
        Ok((p, None))
    } else {
        Ok((p, Some(line)))
    }
}

/// The whole single pass: lines folded in order, each trimmed first;
/// unknown lines are collected as warnings, the first failure aborts.
pub open spec fn spec_parse_lines(p: ProgramV, lines: Seq<Seq<char>>) -> Result<
    (ProgramV, Seq<Seq<char>>),
    ParseErr,
>
    decreases lines.len(),
{
    if lines.len() == 0 {
        Ok((p, Seq::empty()))
    } else {
        match spec_line_step(p, spec_trim(lines[0])) {
            Err(e) => Err(e),
            Ok((p2, w)) => match spec_parse_lines(p2, lines.drop_first()) {
                Err(e) => Err(e),
                Ok((p3, ws)) => Ok(
                    (
                        p3,
                        match w {
                            Some(x) => seq![x] + ws,
                            None => ws,
                        },
                    ),
                ),
            },
        }
    }
}

/// First index at or after `i` holding a line break, or the length.
pub open spec fn first_nl_from(s: Seq<char>, i: int) -> int
    decreases s.len() - i,
{
    if i < 0 || i >= s.len() {
        s.len() as int
    } else if s[i] == '\n' {
        i
    } else {
        first_nl_from(s, i + 1)
    }
}

/// The raw text split at line breaks.
pub open spec fn split_nl(s: Seq<char>) -> Seq<Seq<char>>
    decreases s.len(),
{
    if s.len() == 0 {
        Seq::empty()
    } else {
        let c = first_nl_from(s, 0);
        if 0 <= c < s.len() {
            seq![s.subrange(0, c)] + split_nl(s.subrange(c + 1, s.len() as int))
        } else {
            seq![s]
        }
    }
}


fn find_nl_from(s: &str, i: usize) -> (r: usize)
    requires
        i <= s@.len(),
    ensures
        r == first_nl_from(s@, i as int),
        i <= r <= s@.len(),
{
    let n: usize = s.unicode_len();
    let mut j: usize = i;
    while j < n && s.get_char(j) != '\n'
        invariant
            i <= j <= n,
            n == s@.len(),
            first_nl_from(s@, i as int) == first_nl_from(s@, j as int),
        decreases n - j,
    {
        j += 1;
    }
    j
}

/// Applies one already-trimmed line to the program.
fn exec_line_step(program: &mut Program, line: &str) -> (r: Result<Option<String>, Error>)
    ensures
        match spec_line_step(old(program)@, line@) {
            Ok((pv, w)) => r matches Ok(wo) && final(program)@ == pv && (match w {
                Some(x) => wo matches Some(ws) && ws@ == x,
                None => wo is None,
            }),
            Err(pe) => r matches Err(e) && err_matches(e, pe),
        },
{
    if line.unicode_len() == 0 {
        return Ok(None);
    }
    if let Some((addr_text, mnem, ops_text)) = match_insn(line) {
        let addr = match parse_hex_u16(addr_text.as_str()) {
            None => {
                return Err(Error::BadInsnAddress(addr_text));
            },
            Some(a) => a,
        };
        let ops = split_ops_exec(ops_text.as_str());
        let insn = Insn::new(mnem.as_str(), ops, None, addr);
        let ghost iv = insn@;
        proof {
            assert(iv =~~= empty_insn_v(
                insn_line_mnemonic(line@),
                split_ops(insn_line_ops_text(line@)),
                spec_parse_hex_u16(insn_line_addr(line@))->0,
            ));
        }
        match program.section_text_mut() {
            None => Err(Error::InsnOutsideSection(mnem)),
            Some(sect) => {
                let ghost tv = sect@;
                let ghost parts_exec = sect.parts@;
                match sect.cur_part_mut() {
                    None => Err(Error::InsnOutsidePart(mnem)),
                    Some(part) => {
                        let ghost last_exec = parts_exec.last();
                        let ghost prev_insns = part.insns@;
                        part.add_insn(insn);
                        let ghost newpv = part@;
                        proof {
                            assert(tv.parts[tv.parts.len() - 1] == parts_exec[parts_exec.len()
                                - 1]@);
                            assert(part.insns@.map_values(|j: Insn| j@) =~= last_exec.insns@
                                .map_values(|j: Insn| j@).push(iv));
                            assert(newpv =~~= (PartV {
                                name: tv.parts.last().name,
                                demangled: tv.parts.last().demangled,
                                insns: tv.parts.last().insns.push(iv),
                                patch: tv.parts.last().patch,
                            }));
                        }
                        proof {
                            assert(sect.parts@ == parts_exec.update(
                                parts_exec.len() - 1,
                                sect.parts@[parts_exec.len() - 1],
                            ));
                            assert(sect.parts@[parts_exec.len() - 1]@ == newpv);
                            assert forall|m: int| 0 <= m < parts_exec.len() implies #[trigger] (
                            sect.parts@[m]@) == tv.parts.update(
                                tv.parts.len() - 1,
                                newpv,
                            )[m] by {
                                if m < parts_exec.len() - 1 {
                                    assert(sect.parts@[m] == parts_exec[m]);
                                    assert(tv.parts[m] == parts_exec[m]@);
                                }
                            }
                            assert forall|m: int| 0 <= m < parts_exec.len() implies sect.parts@
                                .map_values(|p: Part| p@)[m] == sect.parts@[m]@ by {
                            }
                            assert(sect@.parts =~= tv.parts.update(tv.parts.len() - 1, newpv));
                            assert(sect@ =~~= push_insn_v(tv, iv));
                        }
                        proof {
                            assert(program@ =~~= spec_line_step(old(program)@, line@)->Ok_0.0);
                        }
                        Ok(None)
                    },
                }
            },
        }
    } else if let Some(symname) = match_symbol(line) {
        if str_starts_with(symname.as_str(), ".L") {
            Ok(None)
        } else {
            match program.section_text_mut() {
                None => Err(Error::SymbolOutsideSection(symname)),
                Some(sect) => {
                    let ghost tv = sect@;
                    let ghost parts_exec = sect.parts@;
                    let san = sanitize_label(symname.as_str());
                    let dem = demangle_symbol(symname.as_str());
                    let part = Part::new(san.as_str(), dem.as_str());
                    let ghost pv = part@;
                    sect.add_part(part);
                    proof {
                        assert(pv.insns =~= Seq::<InsnV>::empty());
                        assert(pv =~~= (PartV {
                            name: spec_sanitize(symbol_line_name(line@)),
                            demangled: demangled_of(symbol_line_name(line@)),
                            insns: Seq::empty(),
                            patch: None,
                        }));
                        assert(sect.parts@.map_values(|p: Part| p@) =~= parts_exec.map_values(
                            |p: Part| p@,
                        ).push(pv));
                        assert(sect@.parts =~= tv.parts.push(pv));
                    }
                    proof {
                        assert(program@ =~~= spec_line_step(old(program)@, line@)->Ok_0.0);
                    }
                    Ok(None)
                },
            }
        }
    } else if let Some(secname) = match_section(line) {
        if !crate::text::str_eq(secname.as_str(), ".text") {
            Err(Error::UnsupportedSection(secname))
        } else {
            program.set_section_text(Some(CodeSection::new(secname.as_str())));
            proof {
                assert(program.text->0@.parts =~= Seq::<PartV>::empty());
                assert(program@ =~~= spec_line_step(old(program)@, line@)->Ok_0.0);
            }
            Ok(None)
        }
    } else if match_banner(line) {
        Ok(None)
    } else {
        Ok(Some(line.to_owned()))
    }
}

/// The single pass over the raw disassembler output, line by line.
fn process_lines(program: &mut Program, s: &str) -> (r: Result<Vec<String>, Error>)
    ensures
        match spec_parse_lines(old(program)@, split_nl(s@)) {
            Ok((pv, ws)) => r matches Ok(v) && final(program)@ == pv && v@.map_values(
                |x: String| x@,
            ) == ws,
            Err(pe) => r matches Err(e) && err_matches(e, pe),
        },
    decreases s@.len(),
{
    let n: usize = s.unicode_len();
    if n == 0 {
        let v: Vec<String> = Vec::new();
        assert(v@.map_values(|x: String| x@) =~= Seq::<Seq<char>>::empty());
        return Ok(v);
    }
    let c: usize = find_nl_from(s, 0);
    if c >= n {
        let trimmed = trim_str(s);
        let w = match exec_line_step(program, trimmed) {
            Err(e) => {
                return Err(e);
            },
            Ok(w) => w,
        };
        proof {
            reveal_with_fuel(spec_parse_lines, 3);
            assert(split_nl(s@) =~= seq![s@]);
            assert(split_nl(s@).len() == 1);
            assert(split_nl(s@)[0] == s@);
            assert(split_nl(s@).drop_first() =~= Seq::<Seq<char>>::empty());
            assert(trimmed@ == spec_trim(split_nl(s@)[0]));
        }
        let mut v: Vec<String> = Vec::new();
        match w {
            Some(x) => {
                v.push(x);
                assert(v@.map_values(|x: String| x@) =~= spec_parse_lines(
                    old(program)@,
                    split_nl(s@),
                )->Ok_0.1);
            },
            None => {
                assert(v@.map_values(|x: String| x@) =~= spec_parse_lines(
                    old(program)@,
                    split_nl(s@),
                )->Ok_0.1);
            },
        }
        Ok(v)
    } else {
        let line = s.substring_char(0, c);
        let trimmed = trim_str(line);
        proof {
            assert(split_nl(s@) == seq![s@.subrange(0, c as int)] + split_nl(
                s@.subrange(c + 1, s@.len() as int),
            ));
            assert(split_nl(s@)[0] == s@.subrange(0, c as int));
            assert(split_nl(s@).len() > 0);
            assert(trimmed@ == spec_trim(split_nl(s@)[0]));
            assert(split_nl(s@).drop_first() =~= split_nl(s@.subrange(c + 1, s@.len() as int)));
        }
        let w = match exec_line_step(program, trimmed) {
            Err(e) => {
                return Err(e);
            },
            Ok(w) => w,
        };
        let rest = s.substring_char(c + 1, n);
        let mut v = match process_lines(program, rest) {
            Err(e) => {
                return Err(e);
            },
            Ok(v) => v,
        };
        match w {
            Some(x) => {
                let ghost before = v@;
                v.insert(0, x);
                assert(v@.map_values(|y: String| y@) =~= seq![x@] + before.map_values(
                    |y: String| y@,
                ));
            },
            None => {
            },
        }
        Ok(v)
    }
}


/// The disassembly parser: a single pass over the raw disassembler
/// output, folding every line into the program and collecting a warning
/// for each unrecognized line, followed by the reference resolver.  The
/// returned strings are the unrecognized lines.
pub fn process_dasm(program: &mut Program, raw: &str) -> (r: Result<Vec<String>, Error>)
    ensures
        match spec_parse_lines(old(program)@, split_nl(raw@)) {
            Err(pe) => r matches Err(e) && err_matches(e, pe),
            Ok((mid, ws)) => {
                &&& (mid.device is None ==> (r matches Err(e) && e is NoDevice)
                    && final(program)@ == mid)
                &&& ((mid.device matches Some(d) && (d.flash_size == 0 || d.flash_size
                    > 0x10000)) ==> (r matches Err(e) && e is FlashMaskTooWide)
                    && final(program)@ == mid)
                &&& ((mid.device matches Some(d) && 0 < d.flash_size && d.flash_size <= 0x10000)
                    ==> ({
                    let mask = (mid.device->0.flash_size - 1) as u16;
                    &&& final(program)@.device == mid.device
                    &&& final(program)@.data == mid.data
                    &&& (mid.text is None ==> (r matches Ok(v) && v@.map_values(
                        |x: String| x@,
                    ) == ws) && final(program)@ == mid)
                    &&& (mid.text is Some ==> ({
                        let o = mid.text->0.parts;
                        &&& final(program)@.text matches Some(t) && t.name == mid.text->0.name
                            && crate::resolve::parts_shape_kept(o, t.parts) && (r is Ok
                            ==> crate::resolve::resolved_all(o, t.parts, mask))
                        &&& (r is Ok <==> crate::resolve::all_rel_ok(o, mask))
                        &&& (r matches Ok(v) ==> v@.map_values(|x: String| x@) == ws)
                        &&& (r matches Err(e) ==> e is BadRelOffset || e is RelTargetNotFound)
                    }))
                }))
            },
        },
{
    let warns = match process_lines(program, raw) {
        Err(e) => {
            return Err(e);
        },
        Ok(v) => v,
    };
    match crate::resolve::resolve_references(program) {
        Err(e) => Err(e),
        Ok(()) => Ok(warns),
    }
}

} // verus!
