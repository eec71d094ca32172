//! The fixed AVR calling-convention facts the transformation passes rely on.

use vstd::prelude::*;
use crate::text::str_eq;

verus! {

/// The callee-saved register set of the AVR ABI: r2 through r17, r28 and r29.
pub open spec fn spec_callee_saved(r: Seq<char>) -> bool {
    ||| r == "r2"@
    ||| r == "r3"@
    ||| r == "r4"@
    ||| r == "r5"@
    ||| r == "r6"@
    ||| r == "r7"@
    ||| r == "r8"@
    ||| r == "r9"@
    ||| r == "r10"@
    ||| r == "r11"@
    ||| r == "r12"@
    ||| r == "r13"@
    ||| r == "r14"@
    ||| r == "r15"@
    ||| r == "r16"@
    ||| r == "r17"@
    ||| r == "r28"@
    ||| r == "r29"@
}

/// Whether a register name belongs to the callee-saved set.
pub fn reg_is_callee_saved(reg: &str) -> (r: bool)
    ensures
        r == spec_callee_saved(reg@),
{
    str_eq(reg, "r2") || str_eq(reg, "r3") || str_eq(reg, "r4") || str_eq(reg, "r5") || str_eq(
        reg,
        "r6",
    ) || str_eq(reg, "r7") || str_eq(reg, "r8") || str_eq(reg, "r9") || str_eq(reg, "r10")
        || str_eq(reg, "r11") || str_eq(reg, "r12") || str_eq(reg, "r13") || str_eq(reg, "r14")
        || str_eq(reg, "r15") || str_eq(reg, "r16") || str_eq(reg, "r17") || str_eq(reg, "r28")
        || str_eq(reg, "r29")
}

} // verus!
