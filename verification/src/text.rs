//! Character-level text utilities: the exact lexical grammar of the
//! disassembly listing (whitespace, hex/decimal numerals, relative-offset
//! tokens) and small string builders used by the renderer.

use vstd::prelude::*;
use vstd::string::*;

verus! {

/// ASCII whitespace as the line grammar understands it.
pub open spec fn is_ws_char(c: char) -> bool {
    c == ' ' || c == '\t' || c == '\n' || c == '\r' || c == '\u{b}' || c == '\u{c}'
}

pub fn ws_char(c: char) -> (r: bool)
    ensures
        r == is_ws_char(c),
{
    c == ' ' || c == '\t' || c == '\n' || c == '\r' || c == '\u{b}' || c == '\u{c}'
}

pub open spec fn is_hex_char(c: char) -> bool {
    ||| '0' as u32 <= c as u32 && c as u32 <= '9' as u32
    ||| 'a' as u32 <= c as u32 && c as u32 <= 'f' as u32
    ||| 'A' as u32 <= c as u32 && c as u32 <= 'F' as u32
}

/// Numeric value of a hexadecimal digit (0 for non-digits).
pub open spec fn hex_char_val(c: char) -> nat {
    if '0' as u32 <= c as u32 && c as u32 <= '9' as u32 {
        (c as u32 - '0' as u32) as nat
    } else if 'a' as u32 <= c as u32 && c as u32 <= 'f' as u32 {
        (c as u32 - 'a' as u32 + 10) as nat
    } else if 'A' as u32 <= c as u32 && c as u32 <= 'F' as u32 {
        (c as u32 - 'A' as u32 + 10) as nat
    } else {
        0
    }
}

/// Classifies a hexadecimal digit and yields its value.
pub fn hex_val(c: char) -> (r: Option<u8>)
    ensures
        r is Some <==> is_hex_char(c),
        r is Some ==> r->0 == hex_char_val(c),
{
    let u: u32 = c as u32;
    if '0' as u32 <= u && u <= '9' as u32 {
        Some((u - '0' as u32) as u8)
    } else if 'a' as u32 <= u && u <= 'f' as u32 {
        Some((u - 'a' as u32 + 10) as u8)
    } else if 'A' as u32 <= u && u <= 'F' as u32 {
        Some((u - 'A' as u32 + 10) as u8)
    } else {
        None
    }
}

pub open spec fn is_dec_char(c: char) -> bool {
    '0' as u32 <= c as u32 && c as u32 <= '9' as u32
}

pub open spec fn dec_char_val(c: char) -> nat {
    if is_dec_char(c) {
        (c as u32 - '0' as u32) as nat
    } else {
        0
    }
}

pub fn dec_val(c: char) -> (r: Option<u8>)
    ensures
        r is Some <==> is_dec_char(c),
        r is Some ==> r->0 == dec_char_val(c),
{
    let u: u32 = c as u32;
    if '0' as u32 <= u && u <= '9' as u32 {
        Some((u - '0' as u32) as u8)
    } else {
        None
    }
}

pub open spec fn has_prefix(s: Seq<char>, p: Seq<char>) -> bool {
    p.len() <= s.len() && s.subrange(0, p.len() as int) == p
}

pub open spec fn has_suffix(s: Seq<char>, p: Seq<char>) -> bool {
    p.len() <= s.len() && s.subrange(s.len() - p.len(), s.len() as int) == p
}

/// Character-wise string equality.
pub fn str_eq(a: &str, b: &str) -> (r: bool)
    ensures
        r == (a@ == b@),
{
    let an: usize = a.unicode_len();
    let bn: usize = b.unicode_len();
    if an != bn {
        assert(a@ != b@);
        return false;
    }
    let mut i: usize = 0;
    while i < an
        invariant
            i <= an,
            an == a@.len(),
            an == b@.len(),
            forall|k: int| 0 <= k < i ==> a@[k] == b@[k],
        decreases an - i,
    {
        if a.get_char(i) != b.get_char(i) {
            assert(a@ != b@);
            return false;
        }
        i += 1;
    }
    assert(a@ =~= b@);
    true
}

pub fn str_starts_with(s: &str, p: &str) -> (r: bool)
    ensures
        r == has_prefix(s@, p@),
{
    let sn: usize = s.unicode_len();
    let pn: usize = p.unicode_len();
    if pn > sn {
        return false;
    }
    let mut i: usize = 0;
    while i < pn
        invariant
            i <= pn <= sn,
            sn == s@.len(),
            pn == p@.len(),
            forall|k: int| 0 <= k < i ==> s@[k] == p@[k],
        decreases pn - i,
    {
        if s.get_char(i) != p.get_char(i) {
            assert(s@.subrange(0, p@.len() as int)[i as int] != p@[i as int]);
            return false;
        }
        i += 1;
    }
    assert(s@.subrange(0, p@.len() as int) =~= p@);
    true
}

pub fn str_ends_with(s: &str, p: &str) -> (r: bool)
    ensures
        r == has_suffix(s@, p@),
{
    let sn: usize = s.unicode_len();
    let pn: usize = p.unicode_len();
    if pn > sn {
        return false;
    }
    let off: usize = sn - pn;
    let mut i: usize = 0;
    while i < pn
        invariant
            i <= pn <= sn,
            off == sn - pn,
            sn == s@.len(),
            pn == p@.len(),
            forall|k: int| 0 <= k < i ==> s@[off + k] == p@[k],
        decreases pn - i,
    {
        if s.get_char(off + i) != p.get_char(i) {
            assert(s@.subrange(s@.len() - p@.len(), s@.len() as int)[i as int] != p@[i as int]);
            return false;
        }
        i += 1;
    }
    assert(s@.subrange(s@.len() - p@.len(), s@.len() as int) =~= p@);
    true
}

/// First position of `c` in `s` at or after `from`.
pub fn find_char_from(s: &str, from: usize, c: char) -> (r: Option<usize>)
    requires
        from <= s@.len(),
    ensures
        match r {
            Some(j) => from <= j < s@.len() && s@[j as int] == c && forall|k: int|
                from <= k < j ==> s@[k] != c,
            None => forall|k: int| from <= k < s@.len() ==> s@[k] != c,
        },
{
    let n: usize = s.unicode_len();
    let mut i: usize = from;
    while i < n
        invariant
            from <= i <= n,
            n == s@.len(),
            forall|k: int| from <= k < i ==> s@[k] != c,
        decreases n - i,
    {
        if s.get_char(i) == c {
            return Some(i);
        }
        i += 1;
    }
    None
}

pub open spec fn spec_ltrim(s: Seq<char>) -> Seq<char>
    decreases s.len(),
{
    if s.len() == 0 {
        s
    } else if is_ws_char(s[0]) {
        spec_ltrim(s.drop_first())
    } else {
        s
    }
}

pub open spec fn spec_rtrim(s: Seq<char>) -> Seq<char>
    decreases s.len(),
{
    if s.len() == 0 {
        s
    } else if is_ws_char(s.last()) {
        spec_rtrim(s.drop_last())
    } else {
        s
    }
}

/// Surrounding ASCII whitespace removed.
pub open spec fn spec_trim(s: Seq<char>) -> Seq<char> {
    spec_rtrim(spec_ltrim(s))
}

pub fn trim_str(s: &str) -> (r: &str)
    ensures
        r@ == spec_trim(s@),
{
    let n: usize = s.unicode_len();
    assert(s@.subrange(0, n as int) =~= s@);
    let mut i: usize = 0;
    while i < n && ws_char(s.get_char(i))
        invariant
            i <= n,
            n == s@.len(),
            spec_ltrim(s@) == spec_ltrim(s@.subrange(i as int, n as int)),
        decreases n - i,
    {
        assert(s@.subrange(i as int, n as int).drop_first() =~= s@.subrange(
            i + 1,
            n as int,
        ));
        i += 1;
    }
    assert(spec_ltrim(s@) =~= s@.subrange(i as int, n as int));
    let mut j: usize = n;
    while j > i && ws_char(s.get_char(j - 1))
        invariant
            i <= j <= n,
            n == s@.len(),
            spec_ltrim(s@) == s@.subrange(i as int, n as int),
            spec_rtrim(s@.subrange(i as int, n as int)) == spec_rtrim(
                s@.subrange(i as int, j as int),
            ),
        decreases j,
    {
        assert(s@.subrange(i as int, j as int).drop_last() =~= s@.subrange(
            i as int,
            j - 1,
        ));
        j -= 1;
    }
    assert(spec_rtrim(s@.subrange(i as int, j as int)) =~= s@.subrange(i as int, j as int));
    s.substring_char(i, j)
}

pub open spec fn all_hex(s: Seq<char>) -> bool {
    forall|k: int| 0 <= k < s.len() ==> is_hex_char(s[k])
}

/// Value of a hexadecimal numeral, most significant digit first.
pub open spec fn hex_seq_val(s: Seq<char>) -> nat
    decreases s.len(),
{
    if s.len() == 0 {
        0
    } else {
        hex_seq_val(s.drop_last()) * 16 + hex_char_val(s.last())
    }
}

proof fn lemma_hex_prefix_le(s: Seq<char>, k: int)
    requires
        0 <= k <= s.len(),
    ensures
        hex_seq_val(s.subrange(0, k)) <= hex_seq_val(s),
    decreases s.len(),
{
    if k == s.len() {
        assert(s.subrange(0, k) =~= s);
    } else {
        assert(s.drop_last().subrange(0, k) =~= s.subrange(0, k));
        lemma_hex_prefix_le(s.drop_last(), k);
    }
}

pub open spec fn spec_parse_hex_u16(s: Seq<char>) -> Option<u16> {
    if s.len() > 0 && all_hex(s) && hex_seq_val(s) <= 0xFFFF {
        Some(hex_seq_val(s) as u16)
    } else {
        None
    }
}

/// Parses a 16-bit hexadecimal numeral; overflow is a parse failure.
pub fn parse_hex_u16(s: &str) -> (r: Option<u16>)
    ensures
        r == spec_parse_hex_u16(s@),
{
    let n: usize = s.unicode_len();
    if n == 0 {
        return None;
    }
    let mut acc: u32 = 0;
    let mut i: usize = 0;
    while i < n
        invariant
            i <= n,
            n == s@.len(),
            n > 0,
            acc <= 0xFFFF,
            acc == hex_seq_val(s@.subrange(0, i as int)),
            forall|k: int| 0 <= k < i ==> is_hex_char(s@[k]),
        decreases n - i,
    {
        let c: char = s.get_char(i);
        match hex_val(c) {
            None => {
                assert(!all_hex(s@));
                return None;
            },
            Some(d) => {
                assert(s@.subrange(0, i + 1).drop_last() =~= s@.subrange(0, i as int));
                assert(s@.subrange(0, i + 1).last() == s@[i as int]);
                if acc > 0x0FFF {
                    proof {
                        lemma_hex_prefix_le(s@, i + 1);
                    }
                    assert(hex_seq_val(s@) > 0xFFFF);
                    return None;
                }
                acc = acc * 16 + (d as u32);
            },
        }
        i += 1;
    }
    assert(s@.subrange(0, n as int) =~= s@);
    Some(acc as u16)
}

pub open spec fn all_dec(s: Seq<char>) -> bool {
    forall|k: int| 0 <= k < s.len() ==> is_dec_char(s[k])
}

/// Value of a decimal numeral, most significant digit first.
pub open spec fn dec_seq_val(s: Seq<char>) -> nat
    decreases s.len(),
{
    if s.len() == 0 {
        0
    } else {
        dec_seq_val(s.drop_last()) * 10 + dec_char_val(s.last())
    }
}

proof fn lemma_dec_prefix_le(s: Seq<char>, k: int)
    requires
        0 <= k <= s.len(),
    ensures
        dec_seq_val(s.subrange(0, k)) <= dec_seq_val(s),
    decreases s.len(),
{
    if k == s.len() {
        assert(s.subrange(0, k) =~= s);
    } else {
        assert(s.drop_last().subrange(0, k) =~= s.subrange(0, k));
        lemma_dec_prefix_le(s.drop_last(), k);
    }
}

/// The relative-branch operand syntax: a dot, a sign, then decimal digits.
pub open spec fn is_rel_offset(s: Seq<char>) -> bool {
    &&& s.len() >= 3
    &&& s[0] == '.'
    &&& (s[1] == '+' || s[1] == '-')
    &&& all_dec(s.subrange(2, s.len() as int))
}

/// Signed value of a relative-branch operand.
pub open spec fn rel_offset_val(s: Seq<char>) -> int {
    if s[1] == '-' {
        -(dec_seq_val(s.subrange(2, s.len() as int)) as int)
    } else {
        dec_seq_val(s.subrange(2, s.len() as int)) as int
    }
}

pub fn match_rel_offset(s: &str) -> (r: bool)
    ensures
        r == is_rel_offset(s@),
{
    let n: usize = s.unicode_len();
    if n < 3 {
        return false;
    }
    if s.get_char(0) != '.' {
        return false;
    }
    let sign: char = s.get_char(1);
    if sign != '+' && sign != '-' {
        return false;
    }
    let mut i: usize = 2;
    while i < n
        invariant
            2 <= i <= n,
            n == s@.len(),
            forall|k: int| 2 <= k < i ==> is_dec_char(s@[k]),
        decreases n - i,
    {
        if dec_val(s.get_char(i)).is_none() {
            assert(!all_dec(s@.subrange(2, s@.len() as int))) by {
                assert(s@.subrange(2, s@.len() as int)[i - 2] == s@[i as int]);
            }
            return false;
        }
        i += 1;
    }
    assert forall|k: int| 0 <= k < s@.subrange(2, s@.len() as int).len() implies is_dec_char(
        s@.subrange(2, s@.len() as int)[k],
    ) by {
        assert(s@.subrange(2, s@.len() as int)[k] == s@[k + 2]);
    }
    true
}

/// The signed value of a relative-branch operand when it fits in 32 bits;
/// a too-wide numeral is a parse failure.
pub fn rel_offset_i32(s: &str) -> (r: Option<i32>)
    requires
        is_rel_offset(s@),
    ensures
        r is Some <==> -0x8000_0000 <= rel_offset_val(s@) <= 0x7FFF_FFFF,
        r is Some ==> r->0 == rel_offset_val(s@),
{
    let n: usize = s.unicode_len();
    let neg: bool = s.get_char(1) == '-';
    let ghost digits = s@.subrange(2, s@.len() as int);
    let mut acc: u64 = 0;
    let mut i: usize = 2;
    while i < n
        invariant
            is_rel_offset(s@),
            2 <= i <= n,
            n == s@.len(),
            digits == s@.subrange(2, s@.len() as int),
            acc <= 0x8000_0000,
            acc == dec_seq_val(digits.subrange(0, i - 2)),
        decreases n - i,
    {
        let c: char = s.get_char(i);
        assert(is_dec_char(s@[i as int])) by {
            assert(digits[i - 2] == s@[i as int]);
        }
        let d: u8 = dec_val(c).unwrap();
        assert(digits.subrange(0, i - 1).drop_last() =~= digits.subrange(0, i - 2));
        assert(digits.subrange(0, i - 1).last() == s@[i as int]);
        acc = acc * 10 + (d as u64);
        if acc > 0x8000_0000 {
            proof {
                lemma_dec_prefix_le(digits, i - 1);
            }
            assert(dec_seq_val(digits) > 0x8000_0000);
            return None;
        }
        i += 1;
    }
    assert(digits.subrange(0, n - 2) =~= digits);
    if neg {
        if acc == 0x8000_0000 {
            Some(i32::MIN)
        } else {
            Some(-(acc as i32))
        }
    } else {
        if acc == 0x8000_0000 {
            None
        } else {
            Some(acc as i32)
        }
    }
}

/// Relies on String::push: appends one character to the string.
#[verifier::external_body]
pub fn push_char(s: &mut String, c: char)
    ensures
        final(s)@ == old(s)@.push(c),
{
    s.push(c);
}

pub open spec fn dec_digit_char(d: nat) -> char {
    if d == 0 {
        '0'
    } else if d == 1 {
        '1'
    } else if d == 2 {
        '2'
    } else if d == 3 {
        '3'
    } else if d == 4 {
        '4'
    } else if d == 5 {
        '5'
    } else if d == 6 {
        '6'
    } else if d == 7 {
        '7'
    } else if d == 8 {
        '8'
    } else {
        '9'
    }
}

fn dec_digit(d: u32) -> (c: char)
    requires
        d < 10,
    ensures
        c == dec_digit_char(d as nat),
{
    if d == 0 {
        '0'
    } else if d == 1 {
        '1'
    } else if d == 2 {
        '2'
    } else if d == 3 {
        '3'
    } else if d == 4 {
        '4'
    } else if d == 5 {
        '5'
    } else if d == 6 {
        '6'
    } else if d == 7 {
        '7'
    } else if d == 8 {
        '8'
    } else {
        '9'
    }
}

/// Decimal rendering of a number, most significant digit first.
pub open spec fn dec_str_of(n: nat) -> Seq<char>
    decreases n,
{
    if n < 10 {
        seq![dec_digit_char(n)]
    } else {
        dec_str_of(n / 10).push(dec_digit_char(n % 10))
    }
}

pub fn u64_dec_string(n: u64) -> (s: String)
    ensures
        s@ == dec_str_of(n as nat),
    decreases n,
{
    if n < 10 {
        let mut s = String::new();
        push_char(&mut s, dec_digit(n as u32));
        assert(s@ =~= dec_str_of(n as nat));
        s
    } else {
        let mut s = u64_dec_string(n / 10);
        push_char(&mut s, dec_digit((n % 10) as u32));
        s
    }
}

pub open spec fn hex_digit_char(d: nat) -> char {
    if d == 0 {
        '0'
    } else if d == 1 {
        '1'
    } else if d == 2 {
        '2'
    } else if d == 3 {
        '3'
    } else if d == 4 {
        '4'
    } else if d == 5 {
        '5'
    } else if d == 6 {
        '6'
    } else if d == 7 {
        '7'
    } else if d == 8 {
        '8'
    } else if d == 9 {
        '9'
    } else if d == 10 {
        'A'
    } else if d == 11 {
        'B'
    } else if d == 12 {
        'C'
    } else if d == 13 {
        'D'
    } else if d == 14 {
        'E'
    } else {
        'F'
    }
}

fn hex_digit(d: u8) -> (c: char)
    requires
        d < 16,
    ensures
        c == hex_digit_char(d as nat),
{
    if d == 0 {
        '0'
    } else if d == 1 {
        '1'
    } else if d == 2 {
        '2'
    } else if d == 3 {
        '3'
    } else if d == 4 {
        '4'
    } else if d == 5 {
        '5'
    } else if d == 6 {
        '6'
    } else if d == 7 {
        '7'
    } else if d == 8 {
        '8'
    } else if d == 9 {
        '9'
    } else if d == 10 {
        'A'
    } else if d == 11 {
        'B'
    } else if d == 12 {
        'C'
    } else if d == 13 {
        'D'
    } else if d == 14 {
        'E'
    } else {
        'F'
    }
}

/// A byte rendered as `0x` and two uppercase hexadecimal digits.
pub open spec fn byte_hex(b: u8) -> Seq<char> {
    seq!['0', 'x', hex_digit_char(b as nat / 16), hex_digit_char(b as nat % 16)]
}

pub fn byte_hex_push(out: &mut String, b: u8)
    ensures
        final(out)@ == old(out)@ + byte_hex(b),
{
    push_char(out, '0');
    push_char(out, 'x');
    push_char(out, hex_digit(b / 16));
    push_char(out, hex_digit(b % 16));
    assert(out@ =~= old(out)@ + byte_hex(b));
}

} // verus!
