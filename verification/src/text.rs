//! Character- and byte-level text primitives shared by the decoders:
//! digit classification, decimal values of digit runs, and string equality.

use vstd::prelude::*;

verus! {

// ---------------------------------------------------------------------------
// Byte classifiers (tile-layer data works on the bytes of the payload text).
// ---------------------------------------------------------------------------

/// An ASCII decimal digit, as a byte.
pub open spec fn is_digit_byte(b: u8) -> bool {
    48 <= b && b <= 57
}

/// Numeric value of an ASCII digit byte.
pub open spec fn digit_byte_val(b: u8) -> int {
    b as int - 48
}

/// ASCII whitespace: space, tab, line feed, vertical tab, form feed,
/// carriage return.
pub open spec fn is_space_byte(b: u8) -> bool {
    b == 32 || (9 <= b && b <= 13)
}

pub open spec fn all_digit_bytes(s: Seq<u8>) -> bool {
    forall|i: int| 0 <= i < s.len() ==> is_digit_byte(#[trigger] s[i])
}

/// The decimal value of a run of digit bytes, most significant first.
pub open spec fn dec_val_bytes(s: Seq<u8>) -> int
    decreases s.len(),
{
    if s.len() == 0 {
        0
    } else {
        dec_val_bytes(s.drop_last()) * 10 + digit_byte_val(s.last())
    }
}

pub proof fn lemma_dec_val_bytes_nonneg(s: Seq<u8>)
    requires
        all_digit_bytes(s),
    ensures
        dec_val_bytes(s) >= 0,
    decreases s.len(),
{
    if s.len() > 0 {
        assert(all_digit_bytes(s.drop_last()));
        lemma_dec_val_bytes_nonneg(s.drop_last());
    }
}

// ---------------------------------------------------------------------------
// Character classifiers (properties, colors, and points work on characters).
// ---------------------------------------------------------------------------

/// An ASCII decimal digit, as a character.
pub open spec fn is_digit_char(c: char) -> bool {
    48 <= c as u32 && c as u32 <= 57
}

/// Numeric value of an ASCII digit character.
pub open spec fn digit_char_val(c: char) -> int {
    c as u32 - 48
}

pub open spec fn all_digit_chars(s: Seq<char>) -> bool {
    forall|i: int| 0 <= i < s.len() ==> is_digit_char(#[trigger] s[i])
}

/// The decimal value of a run of digit characters, most significant first.
pub open spec fn dec_val_chars(s: Seq<char>) -> int
    decreases s.len(),
{
    if s.len() == 0 {
        0
    } else {
        dec_val_chars(s.drop_last()) * 10 + digit_char_val(s.last())
    }
}

pub proof fn lemma_dec_val_chars_nonneg(s: Seq<char>)
    requires
        all_digit_chars(s),
    ensures
        dec_val_chars(s) >= 0,
    decreases s.len(),
{
    if s.len() > 0 {
        assert(all_digit_chars(s.drop_last()));
        lemma_dec_val_chars_nonneg(s.drop_last());
    }
}

pub proof fn lemma_dec_val_chars_push(s: Seq<char>, i: int)
    requires
        0 <= i < s.len(),
    ensures
        dec_val_chars(s.take(i + 1)) == dec_val_chars(s.take(i)) * 10 + digit_char_val(s[i]),
{
    assert(s.take(i + 1).drop_last() =~= s.take(i));
    assert(s.take(i + 1).last() == s[i]);
}

pub proof fn lemma_dec_val_chars_prefix_le(s: Seq<char>, i: int, j: int)
    requires
        all_digit_chars(s),
        0 <= i <= j <= s.len(),
    ensures
        dec_val_chars(s.take(i)) <= dec_val_chars(s.take(j)),
    decreases j - i,
{
    if i < j {
        lemma_dec_val_chars_prefix_le(s, i, j - 1);
        lemma_dec_val_chars_push(s, j - 1);
        assert(all_digit_chars(s.take(j - 1))) by {
            assert(forall|k: int|
                0 <= k < s.take(j - 1).len() ==> is_digit_char(#[trigger] s.take(j - 1)[k]));
        }
        lemma_dec_val_chars_nonneg(s.take(j - 1));
    }
}

// ---------------------------------------------------------------------------
// Signed-integer text.
// ---------------------------------------------------------------------------

/// The text carries a minus sign.
pub open spec fn int_sign_neg(s: Seq<char>) -> bool {
    s.len() > 0 && s[0] == '-'
}

/// The text without its optional leading sign.
pub open spec fn strip_sign(s: Seq<char>) -> Seq<char> {
    if s.len() > 0 && (s[0] == '-' || s[0] == '+') {
        s.drop_first()
    } else {
        s
    }
}

/// The text matches `[+-]? digit+`.
pub open spec fn is_int_text(s: Seq<char>) -> bool {
    strip_sign(s).len() > 0 && all_digit_chars(strip_sign(s))
}

/// The signed value the digits denote (meaningful when `is_int_text`).
pub open spec fn int_text_value(s: Seq<char>) -> int {
    if int_sign_neg(s) {
        -dec_val_chars(strip_sign(s))
    } else {
        dec_val_chars(strip_sign(s))
    }
}

/// What parsing the text as a signed 64-bit integer yields: its value when
/// the grammar matches and the value fits, nothing otherwise.
pub open spec fn i64_text_parsed(s: Seq<char>) -> Option<int> {
    if is_int_text(s) && i64::MIN <= int_text_value(s) <= i64::MAX {
        Some(int_text_value(s))
    } else {
        None
    }
}

/// Parse a signed 64-bit integer: optional sign, then decimal digits,
/// nothing else; rejects values outside the `i64` range.
pub fn parse_i64(s: &str) -> (r: Option<i64>)
    ensures
        match r {
            Some(v) => i64_text_parsed(s@) == Some(v as int),
            None => i64_text_parsed(s@) is None,
        },
{
    let len = s.unicode_len();
    if len == 0 {
        return None;
    }
    let c0 = s.get_char(0);
    let neg = c0 == '-';
    let start: usize = if c0 == '-' || c0 == '+' {
        1
    } else {
        0
    };
    let ghost digs = strip_sign(s@);
    proof {
        assert(digs =~= s@.skip(start as int));
    }
    if start == len {
        return None;
    }
    let limit: u128 = if neg {
        9223372036854775808
    } else {
        9223372036854775807
    };
    let mut mag: u128 = 0;
    let mut i: usize = start;
    while i < len
        invariant
            start <= i <= len,
            len == s@.len(),
            start == 0 || start == 1,
            digs == strip_sign(s@),
            digs == s@.skip(start as int),
            digs.len() == len - start,
            all_digit_chars(digs.take(i - start)),
            mag == dec_val_chars(digs.take(i - start)),
            mag <= limit,
            limit == 9223372036854775807 + if neg { 1int } else { 0int },
            neg == int_sign_neg(s@),
            forall|j: int| 0 <= j < digs.len() ==> digs[j] == s@[start + j],
        decreases len - i,
    {
        let c = s.get_char(i);
        let u = c as u32;
        if u < 48 || u > 57 {
            proof {
                assert(digs[i - start as int] == s@[i as int]);
                assert(!is_digit_char(digs[i - start as int]));
                assert(!all_digit_chars(digs));
            }
            return None;
        }
        let d = (u - 48) as u128;
        let m2 = mag * 10 + d;
        proof {
            lemma_dec_val_chars_push(digs, i - start as int);
            assert(digs[i - start as int] == s@[i as int]);
            assert(digit_char_val(digs[i - start as int]) == d);
        }
        if m2 > limit {
            proof {
                if all_digit_chars(digs) {
                    lemma_dec_val_chars_prefix_le(digs, i - start as int + 1, digs.len() as int);
                    assert(digs.take(digs.len() as int) =~= digs);
                    assert(dec_val_chars(digs) >= m2);
                    if neg {
                        assert(int_text_value(s@) < i64::MIN);
                    } else {
                        assert(int_text_value(s@) > i64::MAX);
                    }
                }
            }
            return None;
        }
        mag = m2;
        i = i + 1;
    }
    proof {
        assert(digs.take(digs.len() as int) =~= digs);
        assert(all_digit_chars(digs));
        assert(mag == dec_val_chars(digs));
        assert(is_int_text(s@));
        assert(neg == int_sign_neg(s@));
    }
    if neg {
        if mag == 9223372036854775808 {
            Some(i64::MIN)
        } else {
            Some(-(mag as i64))
        }
    } else {
        Some(mag as i64)
    }
}

// ---------------------------------------------------------------------------
// Floating-point literal text (decimal with optional fraction and exponent).
// ---------------------------------------------------------------------------

/// The length of the longest all-digit prefix.
pub open spec fn digits_prefix_len(s: Seq<char>) -> int
    decreases s.len(),
{
    if s.len() == 0 || !is_digit_char(s[0]) {
        0
    } else {
        1 + digits_prefix_len(s.drop_first())
    }
}

pub proof fn lemma_digits_prefix(s: Seq<char>)
    ensures
        0 <= digits_prefix_len(s) <= s.len(),
        forall|i: int| 0 <= i < digits_prefix_len(s) ==> is_digit_char(#[trigger] s[i]),
        digits_prefix_len(s) < s.len() ==> !is_digit_char(s[digits_prefix_len(s)]),
    decreases s.len(),
{
    if s.len() > 0 && is_digit_char(s[0]) {
        lemma_digits_prefix(s.drop_first());
        assert forall|i: int| 0 <= i < digits_prefix_len(s) implies is_digit_char(
            #[trigger] s[i],
        ) by {
            if i > 0 {
                assert(s.drop_first()[i - 1] == s[i]);
                assert(is_digit_char(s.drop_first()[i - 1]));
            }
        }
        if digits_prefix_len(s) < s.len() {
            assert(s[digits_prefix_len(s)] == s.drop_first()[digits_prefix_len(s) - 1]);
        }
    }
}

/// A whole suffix of sign-stripped digits, at least one: the exponent's tail.
pub open spec fn exp_tail_ok(s: Seq<char>) -> bool {
    strip_sign(s).len() > 0 && all_digit_chars(strip_sign(s))
}

/// Nothing at all, or an exponent marker followed by a well-formed tail.
pub open spec fn exp_ok_or_empty(s: Seq<char>) -> bool {
    s.len() == 0 || ((s[0] == 'e' || s[0] == 'E') && exp_tail_ok(s.drop_first()))
}

/// The text matches a decimal floating-point literal: optional sign, digits
/// with an optional point (at least one digit on some side of it), and an
/// optional exponent part `e`/`E`, optional sign, digits.
pub open spec fn is_float_text(s: Seq<char>) -> bool {
    let t = strip_sign(s);
    let d1 = digits_prefix_len(t);
    let r1 = t.skip(d1);
    if r1.len() > 0 && r1[0] == '.' {
        let frac = r1.drop_first();
        let d2 = digits_prefix_len(frac);
        d1 + d2 > 0 && exp_ok_or_empty(frac.skip(d2))
    } else {
        d1 > 0 && exp_ok_or_empty(r1)
    }
}

fn is_digit_c(c: char) -> (r: bool)
    ensures
        r == is_digit_char(c),
{
    let u = c as u32;
    48 <= u && u <= 57
}

/// Advance past the digits starting at `from`; the distance moved is the
/// digit-prefix length of the suffix.
pub(crate) fn scan_digits(s: &str, from: usize) -> (r: usize)
    requires
        from <= s@.len(),
    ensures
        from <= r <= s@.len(),
        r - from == digits_prefix_len(s@.skip(from as int)),
    decreases s@.len() - from,
{
    let len = s.unicode_len();
    let mut i: usize = from;
    while i < len && is_digit_c(s.get_char(i))
        invariant
            from <= i <= len,
            len == s@.len(),
            digits_prefix_len(s@.skip(from as int)) == (i - from) + digits_prefix_len(
                s@.skip(i as int),
            ),
        decreases len - i,
    {
        proof {
            let rest = s@.skip(i as int);
            assert(rest[0] == s@[i as int]);
            assert(rest.drop_first() =~= s@.skip(i as int + 1));
        }
        i = i + 1;
    }
    proof {
        let rest = s@.skip(i as int);
        if i < len {
            assert(rest[0] == s@[i as int]);
            assert(digits_prefix_len(rest) == 0);
        } else {
            assert(rest =~= Seq::<char>::empty());
        }
    }
    i
}

/// The exponent part beginning at `from` is well formed or absent.
fn check_exp(s: &str, from: usize) -> (r: bool)
    requires
        from <= s@.len(),
    ensures
        r == exp_ok_or_empty(s@.skip(from as int)),
{
    let len = s.unicode_len();
    let ghost rest = s@.skip(from as int);
    if from == len {
        proof {
            assert(rest =~= Seq::<char>::empty());
        }
        return true;
    }
    let c = s.get_char(from);
    proof {
        assert(rest[0] == s@[from as int]);
    }
    if c != 'e' && c != 'E' {
        return false;
    }
    let ghost tail = rest.drop_first();
    proof {
        assert(tail =~= s@.skip(from as int + 1));
    }
    let mut p: usize = from + 1;
    if p < len {
        let c2 = s.get_char(p);
        if c2 == '+' || c2 == '-' {
            p = p + 1;
        }
    }
    let ghost t2 = strip_sign(tail);
    proof {
        assert(t2 =~= s@.skip(p as int));
    }
    let q = scan_digits(s, p);
    proof {
        lemma_digits_prefix(t2);
        if q == len && q > p {
            assert(t2.len() > 0);
            assert(digits_prefix_len(t2) == t2.len());
            assert(all_digit_chars(t2));
        } else if q < len {
            assert(!is_digit_char(t2[q - p as int]) || t2.len() == 0) by {
                if t2.len() > 0 {
                    assert(t2[digits_prefix_len(t2)] == s@[p + digits_prefix_len(t2)]);
                }
            }
            assert(!(t2.len() > 0 && all_digit_chars(t2)));
        } else {
            assert(q == p);
            assert(t2.len() == 0);
        }
    }
    q == len && q > p
}

/// The text is a decimal floating-point literal (optional sign, digits with
/// an optional point, optional exponent).
pub fn is_float_literal(s: &str) -> (r: bool)
    ensures
        r == is_float_text(s@),
{
    let len = s.unicode_len();
    let mut sign: usize = 0;
    if len > 0 {
        let c = s.get_char(0);
        if c == '+' || c == '-' {
            sign = 1;
        }
    }
    let ghost t = strip_sign(s@);
    proof {
        assert(t =~= s@.skip(sign as int));
    }
    let p1 = scan_digits(s, sign);
    let d1 = p1 - sign;
    let ghost r1 = t.skip(digits_prefix_len(t));
    proof {
        assert(r1 =~= s@.skip(p1 as int));
    }
    if p1 < len && s.get_char(p1) == '.' {
        proof {
            assert(r1[0] == s@[p1 as int]);
        }
        let ghost frac = r1.drop_first();
        proof {
            assert(frac =~= s@.skip(p1 as int + 1));
        }
        let p2 = scan_digits(s, p1 + 1);
        let d2 = p2 - (p1 + 1);
        if d1 + d2 == 0 {
            return false;
        }
        let ghost after = frac.skip(digits_prefix_len(frac));
        proof {
            assert(after =~= s@.skip(p2 as int));
        }
        check_exp(s, p2)
    } else {
        proof {
            if p1 < len {
                assert(r1[0] == s@[p1 as int]);
            } else {
                assert(r1.len() == 0);
            }
        }
        if d1 == 0 {
            return false;
        }
        check_exp(s, p1)
    }
}

// ---------------------------------------------------------------------------
// Executable helpers.
// ---------------------------------------------------------------------------

/// Character-for-character string equality.
pub fn str_eq(a: &str, b: &str) -> (r: bool)
    ensures
        r == (a@ == b@),
{
    let la = a.unicode_len();
    let lb = b.unicode_len();
    if la != lb {
        return false;
    }
    let mut i: usize = 0;
    while i < la
        invariant
            la == a@.len(),
            la == b@.len(),
            0 <= i <= la,
            forall|j: int| 0 <= j < i ==> a@[j] == b@[j],
        decreases la - i,
    {
        if a.get_char(i) != b.get_char(i) {
            return false;
        }
        i = i + 1;
    }
    proof {
        assert(a@ =~= b@);
    }
    true
}

} // verus!
