//! Byte-level groundwork for the cell file format: character classes,
//! whitespace skipping, digit runs and their numeric value, and the canonical
//! digit strings that the serializer emits.

use vstd::prelude::*;

verus! {

/// Space, tab, carriage return or line feed.
pub open spec fn is_ws(b: u8) -> bool {
    b == 32 || b == 9 || b == 10 || b == 13
}

/// ASCII decimal digit.
pub open spec fn is_digit(b: u8) -> bool {
    48 <= b <= 57
}

/// ASCII letter or underscore: the characters of field and variant names.
pub open spec fn is_ident(b: u8) -> bool {
    (97 <= b <= 122) || (65 <= b <= 90) || b == 95
}

pub open spec fn digit_val(b: u8) -> nat {
    (b - 48) as nat
}

/// First position at or after `pos` that does not hold whitespace.
pub open spec fn skip_ws(s: Seq<u8>, pos: int) -> int
    decreases s.len() - pos,
{
    if 0 <= pos < s.len() && is_ws(s[pos]) {
        skip_ws(s, pos + 1)
    } else {
        pos
    }
}

/// First position at or after `pos` that does not hold a digit.
pub open spec fn digits_end(s: Seq<u8>, pos: int) -> int
    decreases s.len() - pos,
{
    if 0 <= pos < s.len() && is_digit(s[pos]) {
        digits_end(s, pos + 1)
    } else {
        pos
    }
}

/// First position at or after `pos` that does not hold an identifier byte.
pub open spec fn ident_end(s: Seq<u8>, pos: int) -> int
    decreases s.len() - pos,
{
    if 0 <= pos < s.len() && is_ident(s[pos]) {
        ident_end(s, pos + 1)
    } else {
        pos
    }
}

/// Value of the digit run `s[pos..end]`, most significant digit first.
pub open spec fn digits_val(s: Seq<u8>, pos: int, end: int) -> nat
    decreases end - pos,
{
    if pos < end {
        digits_val(s, pos, end - 1) * 10 + digit_val(s[end - 1])
    } else {
        0
    }
}

/// The canonical (no leading zero) digit string of `n`.
pub open spec fn dig_seq(n: nat) -> Seq<u8>
    decreases n,
{
    if n < 10 {
        seq![(48 + n) as u8]
    } else {
        dig_seq(n / 10).push((48 + n % 10) as u8)
    }
}

/// The digit string of `n` padded with leading zeros to exactly `w` digits.
pub open spec fn dig_seq_pad(n: nat, w: nat) -> Seq<u8>
    decreases w,
{
    if w == 0 {
        Seq::empty()
    } else {
        dig_seq_pad(n / 10, (w - 1) as nat).push((48 + n % 10) as u8)
    }
}

pub open spec fn pow10(e: nat) -> nat
    decreases e,
{
    if e == 0 {
        1
    } else {
        10 * pow10((e - 1) as nat)
    }
}

pub proof fn lemma_pow10_pos(e: nat)
    ensures
        pow10(e) >= 1,
    decreases e,
{
    if e > 0 {
        lemma_pow10_pos((e - 1) as nat);
    }
}

pub proof fn lemma_digits_end_bounds(s: Seq<u8>, pos: int)
    requires
        0 <= pos <= s.len(),
    ensures
        pos <= digits_end(s, pos) <= s.len(),
    decreases s.len() - pos,
{
    if pos < s.len() && is_digit(s[pos]) {
        lemma_digits_end_bounds(s, pos + 1);
    }
}

/// A digit run that stops being a digit right at `end` has `digits_end == end`.
pub proof fn lemma_digits_end_exact(s: Seq<u8>, pos: int, end: int)
    requires
        0 <= pos <= end <= s.len(),
        forall|i: int| pos <= i < end ==> is_digit(s[i]),
        end == s.len() || !is_digit(s[end]),
    ensures
        digits_end(s, pos) == end,
    decreases end - pos,
{
    if pos < end {
        lemma_digits_end_exact(s, pos + 1, end);
    }
}

pub proof fn lemma_ident_end_exact(s: Seq<u8>, pos: int, end: int)
    requires
        0 <= pos <= end <= s.len(),
        forall|i: int| pos <= i < end ==> is_ident(s[i]),
        end == s.len() || !is_ident(s[end]),
    ensures
        ident_end(s, pos) == end,
    decreases end - pos,
{
    if pos < end {
        lemma_ident_end_exact(s, pos + 1, end);
    }
}

/// A digit run of width `w` is worth less than `10^w`.
pub proof fn lemma_digits_val_bound(s: Seq<u8>, pos: int, end: int)
    requires
        0 <= pos <= end <= digits_end(s, pos),
    ensures
        digits_val(s, pos, end) < pow10((end - pos) as nat),
    decreases end - pos,
{
    if pos < end {
        lemma_digits_run_at(s, pos, end - 1);
        lemma_digits_val_bound(s, pos, end - 1);
    } else {
        lemma_pow10_pos((end - pos) as nat);
    }
}

/// Every byte of a canonical digit string is a digit, and it is never empty.
pub proof fn lemma_dig_seq_digits(n: nat)
    ensures
        dig_seq(n).len() >= 1,
        forall|i: int| 0 <= i < dig_seq(n).len() ==> is_digit(#[trigger] dig_seq(n)[i]),
    decreases n,
{
    if n >= 10 {
        lemma_dig_seq_digits(n / 10);
    }
}

pub proof fn lemma_dig_seq_pad_digits(n: nat, w: nat)
    ensures
        dig_seq_pad(n, w).len() == w,
        forall|i: int| 0 <= i < w ==> is_digit(#[trigger] dig_seq_pad(n, w)[i]),
    decreases w,
{
    if w > 0 {
        lemma_dig_seq_pad_digits(n / 10, (w - 1) as nat);
    }
}

/// Reading back the canonical digit string embedded in a larger text yields
/// `n` again and consumes exactly its digits.
pub proof fn lemma_digits_roundtrip(s: Seq<u8>, pos: int, n: nat)
    requires
        0 <= pos,
        pos + dig_seq(n).len() <= s.len(),
        s.subrange(pos, pos + dig_seq(n).len() as int) == dig_seq(n),
        pos + dig_seq(n).len() == s.len() || !is_digit(s[pos + dig_seq(n).len()]),
    ensures
        digits_end(s, pos) == pos + dig_seq(n).len(),
        digits_val(s, pos, pos + dig_seq(n).len() as int) == n,
{
    lemma_dig_seq_digits(n);
    assert forall|i: int| pos <= i < pos + dig_seq(n).len() implies is_digit(s[i]) by {
        assert(s[i] == dig_seq(n)[i - pos]);
    }
    lemma_digits_end_exact(s, pos, pos + dig_seq(n).len() as int);
    lemma_digits_val_of_dig_seq(s, pos, n);
}

proof fn lemma_digits_val_of_dig_seq(s: Seq<u8>, pos: int, n: nat)
    requires
        0 <= pos,
        pos + dig_seq(n).len() <= s.len(),
        s.subrange(pos, pos + dig_seq(n).len() as int) == dig_seq(n),
    ensures
        digits_val(s, pos, pos + dig_seq(n).len() as int) == n,
    decreases n,
{
    let l = dig_seq(n).len() as int;
    lemma_dig_seq_digits(n);
    if n < 10 {
        assert(s.subrange(pos, pos + l)[0] == dig_seq(n)[0]);
        assert(s[pos] == (48 + n) as u8);
        assert(digits_val(s, pos, pos + 1) == digits_val(s, pos, pos) * 10 + digit_val(s[pos]));
    } else {
        let l0 = dig_seq(n / 10).len() as int;
        assert(s.subrange(pos, pos + l0) =~= dig_seq(n / 10)) by {
            assert forall|i: int| 0 <= i < l0 implies #[trigger] s.subrange(pos, pos + l0)[i]
                == dig_seq(n / 10)[i] by {
                assert(s[pos + i] == s.subrange(pos, pos + l)[i]);
            }
        }
        lemma_digits_val_of_dig_seq(s, pos, n / 10);
        assert(s[pos + l - 1] == s.subrange(pos, pos + l)[l - 1]);
        assert(digit_val(s[pos + l - 1]) == n % 10);
        assert(digits_val(s, pos, pos + l) == digits_val(s, pos, pos + l - 1) * 10 + digit_val(
            s[pos + l - 1],
        ));
        assert(n / 10 * 10 + n % 10 == n);
    }
}

/// Reading back a zero-padded digit string of width `w` yields `n` when
/// `n < 10^w`.
pub proof fn lemma_digits_pad_roundtrip(s: Seq<u8>, pos: int, n: nat, w: nat)
    requires
        0 <= pos,
        pos + w <= s.len(),
        n < pow10(w),
        s.subrange(pos, pos + w) == dig_seq_pad(n, w),
        pos + w == s.len() || !is_digit(s[pos + w]),
    ensures
        digits_end(s, pos) == pos + w,
        digits_val(s, pos, pos + w) == n,
{
    lemma_dig_seq_pad_digits(n, w);
    assert forall|i: int| pos <= i < pos + w implies is_digit(s[i]) by {
        assert(s[i] == dig_seq_pad(n, w)[i - pos]);
    }
    lemma_digits_end_exact(s, pos, pos + w);
    lemma_digits_val_of_pad(s, pos, n, w);
}

proof fn lemma_digits_val_of_pad(s: Seq<u8>, pos: int, n: nat, w: nat)
    requires
        0 <= pos,
        pos + w <= s.len(),
        n < pow10(w),
        s.subrange(pos, pos + w) == dig_seq_pad(n, w),
    ensures
        digits_val(s, pos, pos + w) == n,
    decreases w,
{
    lemma_dig_seq_pad_digits(n, w);
    if w == 0 {
    } else {
        let l0 = w - 1;
        assert(s.subrange(pos, pos + l0) =~= dig_seq_pad(n / 10, l0 as nat)) by {
            assert forall|i: int| 0 <= i < l0 implies #[trigger] s.subrange(pos, pos + l0)[i]
                == dig_seq_pad(n / 10, l0 as nat)[i] by {
                assert(s[pos + i] == s.subrange(pos, pos + w)[i]);
            }
        }
        assert(n / 10 < pow10(l0 as nat)) by {
            assert(pow10(w) == 10 * pow10(l0 as nat));
        }
        lemma_digits_val_of_pad(s, pos, n / 10, l0 as nat);
        assert(s[pos + w - 1] == s.subrange(pos, pos + w)[w - 1]);
        assert(digit_val(s[pos + w - 1]) == n % 10);
    }
}

// ---------------------------------------------------------------------------
// Executable mirrors.
// ---------------------------------------------------------------------------

pub fn ws_at(s: &Vec<u8>, pos: usize) -> (r: bool)
    requires
        pos < s.len(),
    ensures
        r == is_ws(s@[pos as int]),
{
    let b = s[pos];
    b == 32 || b == 9 || b == 10 || b == 13
}

pub fn skip_ws_from(s: &Vec<u8>, pos: usize) -> (r: usize)
    requires
        pos <= s.len(),
    ensures
        r == skip_ws(s@, pos as int),
        pos <= r <= s.len(),
    decreases s.len() - pos,
{
    if pos < s.len() && ws_at(s, pos) {
        skip_ws_from(s, pos + 1)
    } else {
        pos
    }
}

pub fn digit_at(s: &Vec<u8>, pos: usize) -> (r: bool)
    requires
        pos < s.len(),
    ensures
        r == is_digit(s@[pos as int]),
{
    let b = s[pos];
    48 <= b && b <= 57
}

pub fn digits_end_from(s: &Vec<u8>, pos: usize) -> (r: usize)
    requires
        pos <= s.len(),
    ensures
        r == digits_end(s@, pos as int),
        pos <= r <= s.len(),
    decreases s.len() - pos,
{
    if pos < s.len() && digit_at(s, pos) {
        digits_end_from(s, pos + 1)
    } else {
        pos
    }
}

pub fn ident_at(s: &Vec<u8>, pos: usize) -> (r: bool)
    requires
        pos < s.len(),
    ensures
        r == is_ident(s@[pos as int]),
{
    let b = s[pos];
    (97 <= b && b <= 122) || (65 <= b && b <= 90) || b == 95
}

pub fn ident_end_from(s: &Vec<u8>, pos: usize) -> (r: usize)
    requires
        pos <= s.len(),
    ensures
        r == ident_end(s@, pos as int),
        pos <= r <= s.len(),
    decreases s.len() - pos,
{
    if pos < s.len() && ident_at(s, pos) {
        ident_end_from(s, pos + 1)
    } else {
        pos
    }
}

/// An executable parse result, with its resume position widened for use in
/// contracts.
pub open spec fn lifted<T>(r: Option<(T, usize)>) -> Option<(T, int)> {
    match r {
        Some((v, p)) => Some((v, p as int)),
        None => None,
    }
}

/// The numeric value of the digit run starting at `pos`, read with an upper
/// bound: at most 19 digits, value at most `max`.
pub fn read_uint(s: &Vec<u8>, pos: usize, max: u64) -> (r: Option<(u64, usize)>)
    requires
        pos <= s.len(),
    ensures
        lifted(r) == spec_read_uint(s@, pos as int, max),
{
    let end = digits_end_from(s, pos);
    if end == pos || end - pos > 19 {
        return None;
    }
    let mut acc: u64 = 0;
    let mut i: usize = pos;
    proof {
        lemma_pow10_pos(0);
    }
    while i < end
        invariant
            pos <= i <= end <= s.len(),
            end - pos <= 19,
            end == digits_end(s@, pos as int),
            acc == digits_val(s@, pos as int, i as int),
            acc < pow10((i - pos) as nat),
        decreases end - i,
    {
        proof {
            lemma_digits_run_at(s@, pos as int, i as int);
            assert(is_digit(s@[i as int]));
            assert(pow10(((i + 1) - pos) as nat) == 10 * pow10((i - pos) as nat));
            lemma_pow10_le(((i + 1) - pos) as nat, 19);
            lemma_pow10_19();
        }
        let d = s[i] - 48;
        acc = acc * 10 + (d as u64);
        i += 1;
    }
    if acc > max {
        None
    } else {
        Some((acc, end))
    }
}

pub open spec fn spec_read_uint(s: Seq<u8>, pos: int, max: u64) -> Option<(u64, int)> {
    let end = digits_end(s, pos);
    if end == pos || end - pos > 19 {
        None
    } else {
        let v = digits_val(s, pos, end);
        if v > max {
            None
        } else {
            Some((v as u64, end))
        }
    }
}

/// Every byte strictly before `digits_end` is a digit.
pub proof fn lemma_digits_run_at(s: Seq<u8>, pos: int, i: int)
    requires
        0 <= pos <= i < digits_end(s, pos),
    ensures
        0 <= i < s.len(),
        is_digit(s[i]),
    decreases i - pos,
{
    if i > pos {
        lemma_digits_run_at(s, pos + 1, i);
    }
}

/// Every byte strictly before `ident_end` is an identifier byte.
pub proof fn lemma_ident_run_at(s: Seq<u8>, pos: int, i: int)
    requires
        0 <= pos <= i < ident_end(s, pos),
    ensures
        0 <= i < s.len(),
        is_ident(s[i]),
    decreases i - pos,
{
    if i > pos {
        lemma_ident_run_at(s, pos + 1, i);
    }
}

pub proof fn lemma_pow10_le(a: nat, b: nat)
    requires
        a <= b,
    ensures
        pow10(a) <= pow10(b),
    decreases b,
{
    if a < b && b > 0 {
        lemma_pow10_le(a, (b - 1) as nat);
        lemma_pow10_pos((b - 1) as nat);
    }
}

pub proof fn lemma_pow10_19()
    ensures
        pow10(19) == 10_000_000_000_000_000_000,
{
    reveal_with_fuel(pow10, 20);
}

/// Whether two byte vectors hold the same bytes.
pub fn vec_eq(a: &Vec<u8>, b: &Vec<u8>) -> (r: bool)
    ensures
        r == (a@ == b@),
{
    if a.len() != b.len() {
        proof {
            assert(a@ != b@);
        }
        return false;
    }
    let mut i: usize = 0;
    while i < a.len()
        invariant
            0 <= i <= a.len() == b.len(),
            forall|j: int| 0 <= j < i ==> a@[j] == b@[j],
        decreases a.len() - i,
    {
        if a[i] != b[i] {
            proof {
                assert(a@[i as int] != b@[i as int]);
            }
            return false;
        }
        i += 1;
    }
    proof {
        assert(a@ =~= b@);
    }
    true
}

/// A fresh vector holding `s[from..to]`.
pub fn copy_range(s: &Vec<u8>, from: usize, to: usize) -> (r: Vec<u8>)
    requires
        from <= to <= s.len(),
    ensures
        r@ == s@.subrange(from as int, to as int),
{
    let mut out: Vec<u8> = Vec::new();
    let mut i: usize = from;
    while i < to
        invariant
            from <= i <= to <= s.len(),
            out@ == s@.subrange(from as int, i as int),
        decreases to - i,
    {
        out.push(s[i]);
        proof {
            assert(out@ =~= s@.subrange(from as int, (i + 1) as int));
        }
        i += 1;
    }
    out
}

/// `skip_ws` never moves backwards, and only moves inside the text.
pub proof fn lemma_skip_ws_ge(s: Seq<u8>, pos: int)
    ensures
        pos <= skip_ws(s, pos),
        skip_ws(s, pos) <= s.len() || skip_ws(s, pos) == pos,
    decreases s.len() - pos,
{
    if 0 <= pos < s.len() && is_ws(s[pos]) {
        lemma_skip_ws_ge(s, pos + 1);
    }
}

/// `digits_end` never moves backwards, and only moves inside the text.
pub proof fn lemma_digits_end_ge(s: Seq<u8>, pos: int)
    ensures
        pos <= digits_end(s, pos),
        digits_end(s, pos) <= s.len() || digits_end(s, pos) == pos,
    decreases s.len() - pos,
{
    if 0 <= pos < s.len() && is_digit(s[pos]) {
        lemma_digits_end_ge(s, pos + 1);
    }
}

/// `ident_end` never moves backwards, and only moves inside the text.
pub proof fn lemma_ident_end_ge(s: Seq<u8>, pos: int)
    ensures
        pos <= ident_end(s, pos),
        ident_end(s, pos) <= s.len() || ident_end(s, pos) == pos,
    decreases s.len() - pos,
{
    if 0 <= pos < s.len() && is_ident(s[pos]) {
        lemma_ident_end_ge(s, pos + 1);
    }
}

} // verus!
