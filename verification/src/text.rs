//! Text: the characters of strings, numbers in decimal notation, quoting.

use vstd::prelude::*;
use vstd::std_specs::iter::IteratorSpec;
use vstd::string::*;
use vstd::utf8::{decode_utf8, valid_utf8};

use crate::error::{FloatErrorKind, IntErrorKind};

verus! {

/// The characters of a string, in order.
pub fn chars_of(s: &str) -> (v: Vec<char>)
    ensures
        v@ == s@,
{
    let mut v: Vec<char> = Vec::new();
    let n = s.unicode_len();
    let mut it = s.chars();
    proof {
        vstd::string::axiom_spec_iter(s);
    }
    loop
        invariant
            v@ + it.remaining() == s@,
            it.obeys_prophetic_iter_laws(),
            n == s@.len(),
        decreases n - v@.len(),
    {
        let ghost before = it;
        match it.next() {
            Some(c) => {
                proof {
                    vstd::string::next_postcondition(&before, &it, Some(c));
                    assert(v@.push(c) + it.remaining() =~= v@ + before.remaining());
                }
                v.push(c);
            },
            None => {
                proof {
                    vstd::string::next_postcondition(&before, &it, None);
                    assert(v@ =~= v@ + it.remaining());
                }
                return v;
            },
        }
    }
}

/// `String::push`: the character is added at the end.
#[verifier::external_body]
pub(crate) fn push_char(s: &mut String, c: char)
    ensures
        final(s)@ == old(s)@.push(c),
{
    s.push(c)
}

/// True if the two texts are the same.
pub fn same_text(a: &str, b: &str) -> (r: bool)
    ensures
        r == (a@ == b@),
{
    let x = String::from_str(a);
    let y = String::from_str(b);
    x == y
}

/// A text in quotation marks, with the characters that cannot stand for
/// themselves escaped: the form that `Debug` gives to a `str`.
pub uninterp spec fn debug_quoted(text: Seq<char>) -> Seq<char>;

/// `format!("{:?}", ..)` on a `str`: the text in its `Debug` form.
#[verifier::external_body]
pub(crate) fn quoted(text: &str) -> (r: String)
    ensures
        r@ == debug_quoted(text@),
{
    format!("{:?}", text)
}

/// What `String::from_utf8` has to say of bytes that are no valid UTF-8: its
/// error, in the form that `Debug` gives it.
pub uninterp spec fn utf8_failure(bytes: Seq<u8>) -> Seq<char>;

/// `String::from_utf8`: the text that the bytes encode, if they are valid
/// UTF-8; else the error in the form that `Debug` gives it.
#[verifier::external_body]
pub(crate) fn utf8_text(bytes: Vec<u8>) -> (r: Result<String, String>)
    ensures
        r is Ok <==> valid_utf8(bytes@),
        r matches Ok(s) ==> s@ == decode_utf8(bytes@),
        r matches Err(m) ==> m@ == utf8_failure(bytes@),
{
    match String::from_utf8(bytes) {
        Ok(s) => Ok(s),
        Err(e) => Err(format!("{:?}", e)),
    }
}

/// The decimal digit that stands for a number below ten.
pub open spec fn digit(d: int) -> char {
    if d == 0 {
        '0'
    } else if d == 1 {
        '1'
    } else if d == 2 {
        '2'
    } else if d == 3 {
        '3'
    } else if d == 4 {
        '4'
    } else if d == 5 {
        '5'
    } else if d == 6 {
        '6'
    } else if d == 7 {
        '7'
    } else if d == 8 {
        '8'
    } else {
        '9'
    }
}

/// The number that a decimal digit stands for.
pub open spec fn digit_value(c: char) -> Option<int> {
    if c == '0' {
        Some(0)
    } else if c == '1' {
        Some(1)
    } else if c == '2' {
        Some(2)
    } else if c == '3' {
        Some(3)
    } else if c == '4' {
        Some(4)
    } else if c == '5' {
        Some(5)
    } else if c == '6' {
        Some(6)
    } else if c == '7' {
        Some(7)
    } else if c == '8' {
        Some(8)
    } else if c == '9' {
        Some(9)
    } else {
        None
    }
}

/// A natural number in decimal notation, without leading zeros.
pub open spec fn decimal(n: nat) -> Seq<char>
    decreases n,
{
    if n < 10 {
        seq![digit(n as int)]
    } else {
        decimal(n / 10).push(digit((n % 10) as int))
    }
}

/// An integer in decimal notation, with a minus sign if it is negative.
pub open spec fn int_decimal(v: int) -> Seq<char> {
    if v < 0 {
        seq!['-'] + decimal((-v) as nat)
    } else {
        decimal(v as nat)
    }
}

fn digit_char(d: u64) -> (c: char)
    requires
        d < 10,
    ensures
        c == digit(d as int),
{
    if d == 0 {
        '0'
    } else if d == 1 {
        '1'
    } else if d == 2 {
        '2'
    } else if d == 3 {
        '3'
    } else if d == 4 {
        '4'
    } else if d == 5 {
        '5'
    } else if d == 6 {
        '6'
    } else if d == 7 {
        '7'
    } else if d == 8 {
        '8'
    } else {
        '9'
    }
}

fn value_of_digit(c: char) -> (r: Option<i64>)
    ensures
        match r {
            Some(d) => digit_value(c) == Some(d as int) && 0 <= d < 10,
            None => digit_value(c) is None,
        },
{
    if c == '0' {
        Some(0)
    } else if c == '1' {
        Some(1)
    } else if c == '2' {
        Some(2)
    } else if c == '3' {
        Some(3)
    } else if c == '4' {
        Some(4)
    } else if c == '5' {
        Some(5)
    } else if c == '6' {
        Some(6)
    } else if c == '7' {
        Some(7)
    } else if c == '8' {
        Some(8)
    } else if c == '9' {
        Some(9)
    } else {
        None
    }
}

/// Appends a natural number in decimal notation.
fn push_decimal(s: &mut String, n: u64)
    ensures
        final(s)@ == old(s)@ + decimal(n as nat),
    decreases n,
{
    if n < 10 {
        push_char(s, digit_char(n));
        proof {
            assert(old(s)@.push(digit(n as int)) =~= old(s)@ + decimal(n as nat));
        }
    } else {
        push_decimal(s, n / 10);
        push_char(s, digit_char(n % 10));
        proof {
            assert((old(s)@ + decimal((n / 10) as nat)).push(digit((n % 10) as int)) =~= old(s)@
                + decimal(n as nat));
        }
    }
}

/// A natural number in decimal notation.
pub fn nat_text(n: u64) -> (s: String)
    ensures
        s@ == decimal(n as nat),
{
    let mut s = String::new();
    push_decimal(&mut s, n);
    proof {
        assert(Seq::<char>::empty() + decimal(n as nat) =~= decimal(n as nat));
    }
    s
}

/// An integer in decimal notation.
pub fn int_text(v: i64) -> (s: String)
    ensures
        s@ == int_decimal(v as int),
{
    if v >= 0 {
        nat_text(v as u64)
    } else {
        let magnitude: u64 = ((-(v + 1)) as u64) + 1;
        let mut s = String::new();
        push_char(&mut s, '-');
        push_decimal(&mut s, magnitude);
        proof {
            assert(Seq::<char>::empty().push('-') =~= seq!['-']);
        }
        s
    }
}

/// The integer that the digits from `from` on add to `so_far`, read from the
/// left: each digit is taken in after the number so far was multiplied by
/// ten, added for a number without sign and subtracted after a minus. The
/// first character that is no digit, and the first step that leaves the range
/// of 64-bit signed integers, is the error.
pub open spec fn digits_value(text: Seq<char>, from: int, so_far: int, negative: bool) -> Result<
    i64,
    IntErrorKind,
>
    decreases text.len() - from,
{
    if from < 0 || from >= text.len() {
        Ok(so_far as i64)
    } else {
        match digit_value(text[from]) {
            None => Err(IntErrorKind::InvalidDigit),
            Some(d) => {
                let next = if negative {
                    so_far * 10 - d
                } else {
                    so_far * 10 + d
                };
                if next > i64::MAX {
                    Err(IntErrorKind::PosOverflow)
                } else if next < i64::MIN {
                    Err(IntErrorKind::NegOverflow)
                } else {
                    digits_value(text, from + 1, next, negative)
                }
            },
        }
    }
}

/// The 64-bit signed integer that a text denotes: an optional sign and then
/// nothing but decimal digits, at least one.
pub open spec fn int_value(text: Seq<char>) -> Result<i64, IntErrorKind> {
    if text.len() == 0 {
        Err(IntErrorKind::Empty)
    } else if text[0] == '+' || text[0] == '-' {
        if text.len() == 1 {
            Err(IntErrorKind::InvalidDigit)
        } else {
            digits_value(text, 1, 0, text[0] == '-')
        }
    } else {
        digits_value(text, 0, 0, false)
    }
}

/// Reads a 64-bit signed integer in decimal notation.
pub fn parse_int(text: &str) -> (r: Result<i64, IntErrorKind>)
    ensures
        r == int_value(text@),
{
    let chars = chars_of(text);
    if chars.len() == 0 {
        return Err(IntErrorKind::Empty);
    }
    let first = chars[0];
    let negative = first == '-';
    let mut i: usize = 0;
    if first == '+' || first == '-' {
        if chars.len() == 1 {
            return Err(IntErrorKind::InvalidDigit);
        }
        i = 1;
    }
    let mut so_far: i64 = 0;
    while i < chars.len()
        invariant
            chars@ == text@,
            0 <= i <= chars@.len(),
            negative ==> so_far <= 0,
            !negative ==> so_far >= 0,
            int_value(text@) == digits_value(text@, i as int, so_far as int, negative),
        decreases chars@.len() - i,
    {
        match value_of_digit(chars[i]) {
            None => {
                return Err(IntErrorKind::InvalidDigit);
            },
            Some(d) => {
                let scaled = match so_far.checked_mul(10) {
                    Some(x) => x,
                    None => {
                        if negative {
                            return Err(IntErrorKind::NegOverflow);
                        } else {
                            return Err(IntErrorKind::PosOverflow);
                        }
                    },
                };
                let next = if negative {
                    match scaled.checked_sub(d) {
                        Some(x) => x,
                        None => {
                            return Err(IntErrorKind::NegOverflow);
                        },
                    }
                } else {
                    match scaled.checked_add(d) {
                        Some(x) => x,
                        None => {
                            return Err(IntErrorKind::PosOverflow);
                        },
                    }
                };
                so_far = next;
            },
        }
        i = i + 1;
    }
    Ok(so_far)
}

/// A number in decimal notation begins with a digit.
pub proof fn lemma_decimal_begins_with_digit(n: nat)
    ensures
        decimal(n).len() >= 1,
        digit_value(decimal(n)[0]) is Some,
    decreases n,
{
    if n >= 10 {
        lemma_decimal_begins_with_digit(n / 10);
    }
}

/// Where a text holds a number in decimal notation from `from` on, reading
/// the digits from there arrives behind them with that number, added or
/// subtracted as the sign has it, if the number is in range.
pub proof fn lemma_digits_read(text: Seq<char>, from: int, n: nat, negative: bool)
    requires
        0 <= from,
        from + decimal(n).len() <= text.len(),
        text.subrange(from, from + decimal(n).len()) == decimal(n),
        if negative {
            -(n as int) >= i64::MIN
        } else {
            n <= i64::MAX
        },
    ensures
        digits_value(text, from, 0, negative) == digits_value(
            text,
            from + decimal(n).len(),
            if negative {
                -(n as int)
            } else {
                n as int
            },
            negative,
        ),
    decreases n,
{
    let len = decimal(n).len() as int;
    let last = from + len - 1;
    assert(text[last] == text.subrange(from, from + len)[len - 1]);
    if n < 10 {
        assert(text[from] == digit(n as int));
        assert(digit_value(text[from]) == Some(n as int));
    } else {
        let q = n / 10;
        let d = (n % 10) as int;
        assert(decimal(n) == decimal(q).push(digit(d)));
        assert(text[last] == digit(d));
        assert(digit_value(text[last]) == Some(d));
        assert(text.subrange(from, from + decimal(q).len()) =~= decimal(q)) by {
            assert(decimal(n).drop_last() =~= decimal(q));
            assert(text.subrange(from, from + len).drop_last() =~= text.subrange(
                from,
                from + len - 1,
            ));
        }
        lemma_digits_read(text, from, q, negative);
        let so_far: int = if negative {
            -(q as int)
        } else {
            q as int
        };
        let next: int = if negative {
            so_far * 10 - d
        } else {
            so_far * 10 + d
        };
        assert(next == if negative {
            -(n as int)
        } else {
            n as int
        });
        assert(digits_value(text, last, so_far, negative) == digits_value(
            text,
            last + 1,
            next,
            negative,
        ));
    }
}

/// An integer that is written in decimal notation and read again is the
/// same integer.
pub proof fn lemma_int_text_reads_back(v: i64)
    ensures
        int_value(int_decimal(v as int)) == Ok::<i64, IntErrorKind>(v),
{
    let text = int_decimal(v as int);
    if v >= 0 {
        lemma_decimal_begins_with_digit(v as nat);
        assert(text.subrange(0, text.len() as int) =~= text);
        lemma_digits_read(text, 0, v as nat, false);
    } else {
        let n = (-(v as int)) as nat;
        lemma_decimal_begins_with_digit(n);
        assert(text[0] == '-');
        assert(text.subrange(1, 1 + decimal(n).len() as int) =~= decimal(n));
        lemma_digits_read(text, 1, n, true);
    }
}

/// True of the ten decimal digits.
pub open spec fn is_digit(c: char) -> bool {
    digit_value(c) is Some
}

/// True of the plus and the minus sign.
pub open spec fn is_sign(c: char) -> bool {
    c == '+' || c == '-'
}

/// The place of the first character at or after `from` that is no digit; the
/// length of the text if there is none.
pub open spec fn digits_end(text: Seq<char>, from: int) -> int
    decreases text.len() - from,
{
    if 0 <= from < text.len() && is_digit(text[from]) {
        digits_end(text, from + 1)
    } else {
        from
    }
}

/// The lower-case form of an upper-case letter of the Latin alphabet; any
/// other character as it is.
pub open spec fn lower(c: char) -> char {
    if 'A' <= c <= 'Z' {
        ((c as u8) + 32) as char
    } else {
        c
    }
}

/// True if the text from `from` on is the word, whatever the case of its
/// letters.
pub open spec fn is_word(text: Seq<char>, from: int, word: Seq<char>) -> bool {
    &&& 0 <= from
    &&& text.len() - from == word.len()
    &&& forall|i: int| 0 <= i < word.len() ==> lower(#[trigger] text[from + i]) == word[i]
}

/// True if the text from `from` on is a number: digits with at most one
/// point among them, at least one digit in all, and after them nothing or an
/// exponent: `e` or `E`, an optional sign, and at least one digit.
pub open spec fn is_number(text: Seq<char>, from: int) -> bool {
    let whole_end = digits_end(text, from);
    let mantissa_end = if whole_end < text.len() && text[whole_end] == '.' {
        digits_end(text, whole_end + 1)
    } else {
        whole_end
    };
    let digits = if mantissa_end > whole_end {
        mantissa_end - from - 1
    } else {
        mantissa_end - from
    };
    let exponent = if mantissa_end + 1 < text.len() && is_sign(text[mantissa_end + 1]) {
        mantissa_end + 2
    } else {
        mantissa_end + 1
    };
    &&& digits > 0
    &&& mantissa_end == text.len() || {
        &&& text[mantissa_end] == 'e' || text[mantissa_end] == 'E'
        &&& exponent < text.len()
        &&& digits_end(text, exponent) == text.len()
    }
}

/// Whether a text is a floating-point literal: an optional sign, and then
/// `inf`, `infinity` or `nan` in any case, or a number.
pub open spec fn float_check(text: Seq<char>) -> Result<(), FloatErrorKind> {
    let from: int = if text.len() > 0 && is_sign(text[0]) {
        1
    } else {
        0
    };
    if text.len() == 0 {
        Err(FloatErrorKind::Empty)
    } else if is_word(text, from, seq!['i', 'n', 'f']) || is_word(
        text,
        from,
        seq!['i', 'n', 'f', 'i', 'n', 'i', 't', 'y'],
    ) || is_word(text, from, seq!['n', 'a', 'n']) || is_number(text, from) {
        Ok(())
    } else {
        Err(FloatErrorKind::Invalid)
    }
}

fn lower_char(c: char) -> (r: char)
    ensures
        r == lower(c),
{
    if 'A' <= c && c <= 'Z' {
        ((c as u8) + 32) as char
    } else {
        c
    }
}

fn skip_digits(chars: &Vec<char>, from: usize) -> (r: usize)
    requires
        from <= chars@.len(),
    ensures
        r == digits_end(chars@, from as int),
        from <= r <= chars@.len(),
{
    let mut i: usize = from;
    while i < chars.len() && value_of_digit(chars[i]).is_some()
        invariant
            from <= i <= chars@.len(),
            digits_end(chars@, from as int) == digits_end(chars@, i as int),
        decreases chars@.len() - i,
    {
        i = i + 1;
    }
    i
}

fn word_at(chars: &Vec<char>, from: usize, word: &Vec<char>) -> (r: bool)
    requires
        from <= chars@.len(),
    ensures
        r == is_word(chars@, from as int, word@),
{
    let n = chars.len();
    if n - from != word.len() {
        return false;
    }
    let mut i: usize = 0;
    while i < word.len()
        invariant
            n == chars@.len(),
            from <= chars@.len(),
            chars@.len() - from == word@.len(),
            0 <= i <= word@.len(),
            forall|j: int| 0 <= j < i ==> lower(#[trigger] chars@[from + j]) == word@[j],
        decreases word@.len() - i,
    {
        if lower_char(chars[from + i]) != word[i] {
            return false;
        }
        i = i + 1;
    }
    true
}

fn number_at(chars: &Vec<char>, from: usize) -> (r: bool)
    requires
        from <= chars@.len(),
    ensures
        r == is_number(chars@, from as int),
{
    let n = chars.len();
    let whole_end = skip_digits(chars, from);
    let mantissa_end = if whole_end < n && chars[whole_end] == '.' {
        skip_digits(chars, whole_end + 1)
    } else {
        whole_end
    };
    let digits = if mantissa_end > whole_end {
        mantissa_end - from - 1
    } else {
        mantissa_end - from
    };
    if digits == 0 {
        return false;
    }
    if mantissa_end == n {
        return true;
    }
    if chars[mantissa_end] != 'e' && chars[mantissa_end] != 'E' {
        return false;
    }
    let exponent = if mantissa_end + 1 < n && (chars[mantissa_end + 1] == '+' || chars[mantissa_end
        + 1] == '-') {
        mantissa_end + 2
    } else {
        mantissa_end + 1
    };
    if exponent >= n {
        return false;
    }
    skip_digits(chars, exponent) == n
}

/// Says whether a text is a floating-point literal.
pub fn check_float(text: &str) -> (r: Result<(), FloatErrorKind>)
    ensures
        r == float_check(text@),
{
    let chars = chars_of(text);
    if chars.len() == 0 {
        return Err(FloatErrorKind::Empty);
    }
    let from: usize = if chars[0] == '+' || chars[0] == '-' {
        1
    } else {
        0
    };
    let inf: Vec<char> = vec!['i', 'n', 'f'];
    let infinity: Vec<char> = vec!['i', 'n', 'f', 'i', 'n', 'i', 't', 'y'];
    let nan: Vec<char> = vec!['n', 'a', 'n'];
    if word_at(&chars, from, &inf) || word_at(&chars, from, &infinity) || word_at(
        &chars,
        from,
        &nan,
    ) || number_at(&chars, from) {
        Ok(())
    } else {
        Err(FloatErrorKind::Invalid)
    }
}

} // verus!
