use vstd::prelude::*;
use vstd::string::*;

verus! {

// ---------------------------------------------------------------------
// Decimal digits, over characters and over ASCII bytes.
// ---------------------------------------------------------------------

/// Is `c` a decimal digit?
pub open spec fn spec_is_digit_char(c: char) -> bool {
    '0' <= c && c <= '9'
}

/// The value of a decimal digit character.
pub open spec fn spec_digit_val_char(c: char) -> int {
    c as int - '0' as int
}

/// Is every character of `s` a decimal digit?
pub open spec fn spec_all_digits_chars(s: Seq<char>) -> bool {
    forall|i: int| 0 <= i < s.len() ==> spec_is_digit_char(#[trigger] s[i])
}

/// The number a string of decimal digits denotes.
pub open spec fn spec_dec_val_chars(s: Seq<char>) -> int
    decreases s.len(),
{
    if s.len() == 0 {
        0
    } else {
        spec_dec_val_chars(s.drop_last()) * 10 + spec_digit_val_char(s.last())
    }
}

/// Is `b` the ASCII code of a decimal digit?
pub open spec fn spec_is_digit_byte(b: u8) -> bool {
    0x30 <= b && b <= 0x39
}

/// The value of an ASCII decimal digit byte.
pub open spec fn spec_digit_val_byte(b: u8) -> int {
    b as int - 0x30
}

/// Is every byte of `s` an ASCII decimal digit?
pub open spec fn spec_all_digits_bytes(s: Seq<u8>) -> bool {
    forall|i: int| 0 <= i < s.len() ==> spec_is_digit_byte(#[trigger] s[i])
}

/// The number a byte string of ASCII decimal digits denotes.
pub open spec fn spec_dec_val_bytes(s: Seq<u8>) -> int
    decreases s.len(),
{
    if s.len() == 0 {
        0
    } else {
        spec_dec_val_bytes(s.drop_last()) * 10 + spec_digit_val_byte(s.last())
    }
}

/// A digit string denotes a non-negative number.
pub proof fn lemma_dec_val_chars_nonneg(s: Seq<char>)
    requires
        spec_all_digits_chars(s),
    ensures
        spec_dec_val_chars(s) >= 0,
    decreases s.len(),
{
    if s.len() > 0 {
        assert(spec_all_digits_chars(s.drop_last())) by {
            assert(forall|i: int| 0 <= i < s.len() - 1 ==> s.drop_last()[i] == s[i]);
        }
        lemma_dec_val_chars_nonneg(s.drop_last());
        assert(spec_dec_val_chars(s.drop_last()) * 10 >= 0) by (nonlinear_arith)
            requires
                spec_dec_val_chars(s.drop_last()) >= 0,
        ;
    }
}

/// A digit byte string denotes a non-negative number.
pub proof fn lemma_dec_val_bytes_nonneg(s: Seq<u8>)
    requires
        spec_all_digits_bytes(s),
    ensures
        spec_dec_val_bytes(s) >= 0,
    decreases s.len(),
{
    if s.len() > 0 {
        assert(spec_all_digits_bytes(s.drop_last())) by {
            assert(forall|i: int| 0 <= i < s.len() - 1 ==> s.drop_last()[i] == s[i]);
        }
        lemma_dec_val_bytes_nonneg(s.drop_last());
        assert(spec_dec_val_bytes(s.drop_last()) * 10 >= 0) by (nonlinear_arith)
            requires
                spec_dec_val_bytes(s.drop_last()) >= 0,
        ;
    }
}

/// A digit string denotes at least what any of its prefixes denotes.
pub proof fn lemma_dec_val_chars_prefix(s: Seq<char>, i: int)
    requires
        spec_all_digits_chars(s),
        0 <= i <= s.len(),
    ensures
        spec_dec_val_chars(s) >= spec_dec_val_chars(s.take(i)),
    decreases s.len() - i,
{
    if i < s.len() {
        lemma_dec_val_chars_prefix(s, i + 1);
        assert(s.take(i + 1).drop_last() =~= s.take(i));
        assert(spec_all_digits_chars(s.take(i + 1))) by {
            assert(forall|j: int| 0 <= j < i + 1 ==> s.take(i + 1)[j] == s[j]);
        }
        lemma_dec_val_chars_nonneg(s.take(i + 1));
        lemma_dec_val_chars_nonneg(s.take(i + 1).drop_last());
        assert(spec_dec_val_chars(s.take(i + 1)) >= spec_dec_val_chars(s.take(i)))
            by (nonlinear_arith)
            requires
                spec_dec_val_chars(s.take(i + 1)) == spec_dec_val_chars(s.take(i)) * 10
                    + spec_digit_val_char(s.take(i + 1).last()),
                spec_dec_val_chars(s.take(i)) >= 0,
                spec_digit_val_char(s.take(i + 1).last()) >= 0,
        ;
    } else {
        assert(s.take(i) =~= s);
    }
}

/// A digit byte string denotes at least what any of its prefixes denotes.
pub proof fn lemma_dec_val_bytes_prefix(s: Seq<u8>, i: int)
    requires
        spec_all_digits_bytes(s),
        0 <= i <= s.len(),
    ensures
        spec_dec_val_bytes(s) >= spec_dec_val_bytes(s.take(i)),
    decreases s.len() - i,
{
    if i < s.len() {
        lemma_dec_val_bytes_prefix(s, i + 1);
        assert(s.take(i + 1).drop_last() =~= s.take(i));
        assert(spec_all_digits_bytes(s.take(i + 1))) by {
            assert(forall|j: int| 0 <= j < i + 1 ==> s.take(i + 1)[j] == s[j]);
        }
        lemma_dec_val_bytes_nonneg(s.take(i + 1));
        lemma_dec_val_bytes_nonneg(s.take(i + 1).drop_last());
        assert(spec_dec_val_bytes(s.take(i + 1)) >= spec_dec_val_bytes(s.take(i)))
            by (nonlinear_arith)
            requires
                spec_dec_val_bytes(s.take(i + 1)) == spec_dec_val_bytes(s.take(i)) * 10
                    + spec_digit_val_byte(s.take(i + 1).last()),
                spec_dec_val_bytes(s.take(i)) >= 0,
                spec_digit_val_byte(s.take(i + 1).last()) >= 0,
        ;
    } else {
        assert(s.take(i) =~= s);
    }
}

/// Reads a decimal number from a string. Succeeds exactly on non-empty
/// all-digit strings whose value fits in a `u64`, and then returns that
/// value.
pub fn parse_u64_str(s: &str) -> (r: Option<u64>)
    ensures
        match r {
            Some(v) => {
                &&& s@.len() > 0
                &&& spec_all_digits_chars(s@)
                &&& v == spec_dec_val_chars(s@)
            },
            None => !(s@.len() > 0 && spec_all_digits_chars(s@) && spec_dec_val_chars(s@)
                <= u64::MAX),
        },
{
    let n = s.unicode_len();
    if n == 0 {
        return None;
    }
    let mut v: u64 = 0;
    for i in 0..n
        invariant
            n == s@.len(),
            spec_all_digits_chars(s@.take(i as int)),
            v == spec_dec_val_chars(s@.take(i as int)),
    {
        let c = s.get_char(i);
        if c < '0' || c > '9' {
            assert(!spec_is_digit_char(s@[i as int]));
            return None;
        }
        let d: u32 = c as u32 - 48;
        proof {
            assert(s@.take(i + 1).drop_last() =~= s@.take(i as int));
            assert(s@.take(i + 1).last() == s@[i as int]);
            assert(spec_all_digits_chars(s@.take(i + 1))) by {
                assert(forall|j: int| 0 <= j < i ==> s@.take(i + 1)[j] == s@.take(i as int)[j]);
            }
            assert(d == spec_digit_val_char(s@[i as int]));
        }
        if v > (u64::MAX - (d as u64)) / 10 {
            proof {
                assert(spec_dec_val_chars(s@.take(i + 1)) > u64::MAX) by (nonlinear_arith)
                    requires
                        spec_dec_val_chars(s@.take(i + 1)) == (v as int) * 10 + (d as int),
                        (v as int) > ((u64::MAX as int) - (d as int)) / 10,
                        0 <= d <= 9,
                ;
                if spec_all_digits_chars(s@) {
                    lemma_dec_val_chars_prefix(s@, i + 1);
                }
            }
            return None;
        }
        proof {
            assert((v as int) * 10 + (d as int) <= u64::MAX) by (nonlinear_arith)
                requires
                    (v as int) <= ((u64::MAX as int) - (d as int)) / 10,
                    0 <= d <= 9,
                    0 <= v,
            ;
        }
        v = v * 10 + (d as u64);
    }
    proof {
        assert(s@.take(n as int) =~= s@);
    }
    Some(v)
}

/// Reads a decimal number from a string. Succeeds exactly on non-empty
/// all-digit strings whose value fits in a `u32`.
pub fn parse_u32_str(s: &str) -> (r: Option<u32>)
    ensures
        match r {
            Some(v) => {
                &&& s@.len() > 0
                &&& spec_all_digits_chars(s@)
                &&& v == spec_dec_val_chars(s@)
            },
            None => !(s@.len() > 0 && spec_all_digits_chars(s@) && spec_dec_val_chars(s@)
                <= u32::MAX),
        },
{
    match parse_u64_str(s) {
        None => None,
        Some(v) => if v <= u32::MAX as u64 {
            Some(v as u32)
        } else {
            None
        },
    }
}

/// Reads a decimal number from ASCII bytes. Succeeds exactly on non-empty
/// all-digit byte strings whose value fits in a `u64`.
pub fn parse_u64_bytes(s: &[u8]) -> (r: Option<u64>)
    ensures
        match r {
            Some(v) => {
                &&& s@.len() > 0
                &&& spec_all_digits_bytes(s@)
                &&& v == spec_dec_val_bytes(s@)
            },
            None => !(s@.len() > 0 && spec_all_digits_bytes(s@) && spec_dec_val_bytes(s@)
                <= u64::MAX),
        },
{
    let n = s.len();
    if n == 0 {
        return None;
    }
    let mut v: u64 = 0;
    for i in 0..n
        invariant
            n == s@.len(),
            spec_all_digits_bytes(s@.take(i as int)),
            v == spec_dec_val_bytes(s@.take(i as int)),
    {
        let b = s[i];
        if b < 0x30 || b > 0x39 {
            assert(!spec_is_digit_byte(s@[i as int]));
            return None;
        }
        let d: u8 = b - 0x30;
        proof {
            assert(s@.take(i + 1).drop_last() =~= s@.take(i as int));
            assert(s@.take(i + 1).last() == s@[i as int]);
            assert(spec_all_digits_bytes(s@.take(i + 1))) by {
                assert(forall|j: int| 0 <= j < i ==> s@.take(i + 1)[j] == s@.take(i as int)[j]);
            }
            assert(d == spec_digit_val_byte(s@[i as int]));
        }
        if v > (u64::MAX - (d as u64)) / 10 {
            proof {
                assert(spec_dec_val_bytes(s@.take(i + 1)) > u64::MAX) by (nonlinear_arith)
                    requires
                        spec_dec_val_bytes(s@.take(i + 1)) == (v as int) * 10 + (d as int),
                        (v as int) > ((u64::MAX as int) - (d as int)) / 10,
                        0 <= d <= 9,
                ;
                if spec_all_digits_bytes(s@) {
                    lemma_dec_val_bytes_prefix(s@, i + 1);
                }
            }
            return None;
        }
        proof {
            assert((v as int) * 10 + (d as int) <= u64::MAX) by (nonlinear_arith)
                requires
                    (v as int) <= ((u64::MAX as int) - (d as int)) / 10,
                    0 <= d <= 9,
                    0 <= v,
            ;
        }
        v = v * 10 + (d as u64);
    }
    proof {
        assert(s@.take(n as int) =~= s@);
    }
    Some(v)
}

// ---------------------------------------------------------------------
// Rendering numbers as decimal strings.
// ---------------------------------------------------------------------

/// The character of a decimal digit value.
pub open spec fn spec_digit_char(d: int) -> char {
    if d == 0 {
        '0'
    } else if d == 1 {
        '1'
    } else if d == 2 {
        '2'
    } else if d == 3 {
        '3'
    } else if d == 4 {
        '4'
    } else if d == 5 {
        '5'
    } else if d == 6 {
        '6'
    } else if d == 7 {
        '7'
    } else if d == 8 {
        '8'
    } else {
        '9'
    }
}

/// The decimal rendering of a number, most significant digit first, with
/// no leading zeros (and a single zero for nothing).
pub open spec fn spec_u64_dec(n: int) -> Seq<char>
    decreases n,
{
    if n < 10 {
        seq![spec_digit_char(n)]
    } else {
        spec_u64_dec(n / 10).push(spec_digit_char(n % 10))
    }
}

/// The string of one decimal digit.
fn digit_str(d: u64) -> (r: &'static str)
    requires
        d < 10,
    ensures
        r@ =~= seq![spec_digit_char(d as int)],
{
    proof {
        reveal_strlit("0");
        reveal_strlit("1");
        reveal_strlit("2");
        reveal_strlit("3");
        reveal_strlit("4");
        reveal_strlit("5");
        reveal_strlit("6");
        reveal_strlit("7");
        reveal_strlit("8");
        reveal_strlit("9");
    }
    if d == 0 {
        "0"
    } else if d == 1 {
        "1"
    } else if d == 2 {
        "2"
    } else if d == 3 {
        "3"
    } else if d == 4 {
        "4"
    } else if d == 5 {
        "5"
    } else if d == 6 {
        "6"
    } else if d == 7 {
        "7"
    } else if d == 8 {
        "8"
    } else {
        "9"
    }
}

/// Renders a number in decimal.
pub fn u64_to_string(n: u64) -> (r: String)
    ensures
        r@ == spec_u64_dec(n as int),
    decreases n,
{
    if n < 10 {
        String::from_str(digit_str(n))
    } else {
        let prefix = u64_to_string(n / 10);
        let r = prefix.concat(digit_str(n % 10));
        proof {
            assert(r@ =~= spec_u64_dec((n / 10) as int).push(spec_digit_char((n % 10) as int)));
        }
        r
    }
}

/// A minor-unit amount rendered as major units with two decimals: the
/// major part in decimal, a point, and exactly two digits of cents.
pub open spec fn spec_money(cents: int) -> Seq<char> {
    spec_u64_dec(cents / 100) + seq![
        '.',
        spec_digit_char((cents % 100) / 10),
        spec_digit_char(cents % 10),
    ]
}

/// Renders a minor-unit amount as major units with two decimals
/// ("700" cents renders as "7.00").
pub fn money_string(cents: u64) -> (r: String)
    ensures
        r@ == spec_money(cents as int),
{
    proof {
        reveal_strlit(".");
    }
    let whole = u64_to_string(cents / 100);
    let r = whole.concat(".").concat(digit_str((cents % 100) / 10)).concat(digit_str(cents % 10));
    proof {
        assert((cents % 100) as int / 10 == ((cents as int) % 100) / 10);
        assert((cents % 10) as int == (cents as int) % 10);
        assert(r@ =~= spec_money(cents as int));
    }
    r
}

// ---------------------------------------------------------------------
// Hexadecimal decoding, over ASCII bytes.
// ---------------------------------------------------------------------

/// Is `b` the ASCII code of a hexadecimal digit, in either case?
pub open spec fn spec_is_hex_digit(b: u8) -> bool {
    (0x30 <= b && b <= 0x39) || (0x61 <= b && b <= 0x66) || (0x41 <= b && b <= 0x46)
}

/// The value of an ASCII hexadecimal digit byte.
pub open spec fn spec_hex_val(b: u8) -> int {
    if 0x30 <= b && b <= 0x39 {
        b as int - 0x30
    } else if 0x61 <= b && b <= 0x66 {
        b as int - 0x61 + 10
    } else {
        b as int - 0x41 + 10
    }
}

/// Is every byte of `s` a hexadecimal digit?
pub open spec fn spec_all_hex(s: Seq<u8>) -> bool {
    forall|i: int| 0 <= i < s.len() ==> spec_is_hex_digit(#[trigger] s[i])
}

/// The bytes a hexadecimal string denotes, two digits per byte.
pub open spec fn spec_hex_decode(s: Seq<u8>) -> Seq<u8>
    decreases s.len(),
{
    if s.len() < 2 {
        Seq::empty()
    } else {
        seq![(spec_hex_val(s[0]) * 16 + spec_hex_val(s[1])) as u8] + spec_hex_decode(
            s.subrange(2, s.len() as int),
        )
    }
}

/// The value of one hexadecimal digit byte, if it is one.
fn hex_val(b: u8) -> (r: Option<u8>)
    ensures
        match r {
            Some(v) => spec_is_hex_digit(b) && v == spec_hex_val(b),
            None => !spec_is_hex_digit(b),
        },
{
    if 0x30 <= b && b <= 0x39 {
        Some(b - 0x30)
    } else if 0x61 <= b && b <= 0x66 {
        Some(b - 0x61 + 10)
    } else if 0x41 <= b && b <= 0x46 {
        Some(b - 0x41 + 10)
    } else {
        None
    }
}

/// Two more hexadecimal digits denote one more byte.
proof fn lemma_hex_decode_step(s: Seq<u8>, i: int)
    requires
        0 <= i,
        i + 2 <= s.len(),
        i % 2 == 0,
    ensures
        spec_hex_decode(s.take(i + 2)) == spec_hex_decode(s.take(i)).push(
            (spec_hex_val(s[i]) * 16 + spec_hex_val(s[i + 1])) as u8,
        ),
    decreases i,
{
    if i == 0 {
        assert(s.take(2)[0] == s[0] && s.take(2)[1] == s[1]);
        assert(s.take(2).subrange(2, 2) =~= Seq::<u8>::empty());
        assert(spec_hex_decode(Seq::<u8>::empty()) =~= Seq::<u8>::empty());
        assert(spec_hex_decode(s.take(0)) =~= Seq::<u8>::empty());
        assert(spec_hex_decode(s.take(2)) =~= spec_hex_decode(s.take(0)).push(
            (spec_hex_val(s[0]) * 16 + spec_hex_val(s[1])) as u8,
        ));
    } else {
        lemma_hex_decode_step(s.subrange(2, s.len() as int), i - 2);
        assert(s.take(i + 2)[0] == s[0] && s.take(i + 2)[1] == s[1]);
        assert(s.take(i)[0] == s[0] && s.take(i)[1] == s[1]);
        assert(s.take(i + 2).subrange(2, i + 2) =~= s.subrange(2, s.len() as int).take(i));
        assert(s.take(i).subrange(2, i as int) =~= s.subrange(2, s.len() as int).take(i - 2));
        assert(s.subrange(2, s.len() as int)[i - 2] == s[i]);
        assert(s.subrange(2, s.len() as int)[i - 1] == s[i + 1]);
    }
}

/// Decodes a hexadecimal byte string. Succeeds exactly on even-length
/// all-hex strings, and then returns the denoted bytes.
pub fn hex_decode(s: &[u8]) -> (r: Option<Vec<u8>>)
    ensures
        match r {
            Some(v) => {
                &&& s@.len() % 2 == 0
                &&& spec_all_hex(s@)
                &&& v@ == spec_hex_decode(s@)
            },
            None => !(s@.len() % 2 == 0 && spec_all_hex(s@)),
        },
{
    let n = s.len();
    if n % 2 != 0 {
        return None;
    }
    let mut out: Vec<u8> = Vec::new();
    let mut i: usize = 0;
    proof {
        assert(spec_hex_decode(s@.take(0)) =~= Seq::<u8>::empty());
    }
    while i < n
        invariant
            n == s@.len(),
            n % 2 == 0,
            i % 2 == 0,
            i <= n,
            spec_all_hex(s@.take(i as int)),
            out@ == spec_hex_decode(s@.take(i as int)),
        decreases n - i,
    {
        assert(i + 2 <= n);
        let hi = match hex_val(s[i]) {
            Some(v) => v,
            None => {
                assert(!spec_is_hex_digit(s@[i as int]));
                return None;
            },
        };
        let lo = match hex_val(s[i + 1]) {
            Some(v) => v,
            None => {
                assert(!spec_is_hex_digit(s@[i + 1]));
                return None;
            },
        };
        out.push(hi * 16 + lo);
        proof {
            lemma_hex_decode_step(s@, i as int);
            assert(spec_all_hex(s@.take(i + 2))) by {
                assert(forall|j: int| 0 <= j < i ==> s@.take(i + 2)[j] == s@.take(i as int)[j]);
                assert(s@.take(i + 2)[i as int] == s@[i as int]);
                assert(s@.take(i + 2)[i + 1] == s@[i + 1]);
            }
        }
        i = i + 2;
    }
    proof {
        assert(i == n);
        assert(s@.take(n as int) =~= s@);
    }
    Some(out)
}

// ---------------------------------------------------------------------
// Trimming whitespace.
// ---------------------------------------------------------------------

/// Is `c` a whitespace character? The set is Unicode's White_Space
/// property, the one `str::trim` removes.
pub open spec fn spec_is_whitespace(c: char) -> bool {
    ||| c == '\u{9}'
    ||| c == '\u{A}'
    ||| c == '\u{B}'
    ||| c == '\u{C}'
    ||| c == '\u{D}'
    ||| c == ' '
    ||| c == '\u{85}'
    ||| c == '\u{A0}'
    ||| c == '\u{1680}'
    ||| ('\u{2000}' <= c && c <= '\u{200A}')
    ||| c == '\u{2028}'
    ||| c == '\u{2029}'
    ||| c == '\u{202F}'
    ||| c == '\u{205F}'
    ||| c == '\u{3000}'
}

/// `s` without its leading whitespace.
pub open spec fn spec_trim_start(s: Seq<char>) -> Seq<char>
    decreases s.len(),
{
    if s.len() == 0 {
        s
    } else if spec_is_whitespace(s[0]) {
        spec_trim_start(s.drop_first())
    } else {
        s
    }
}

/// `s` without its trailing whitespace.
pub open spec fn spec_trim_end(s: Seq<char>) -> Seq<char>
    decreases s.len(),
{
    if s.len() == 0 {
        s
    } else if spec_is_whitespace(s.last()) {
        spec_trim_end(s.drop_last())
    } else {
        s
    }
}

/// `s` without leading and trailing whitespace.
pub open spec fn spec_trim(s: Seq<char>) -> Seq<char> {
    spec_trim_end(spec_trim_start(s))
}

/// Is `c` a whitespace character?
fn is_whitespace_char(c: char) -> (r: bool)
    ensures
        r == spec_is_whitespace(c),
{
    c == '\u{9}' || c == '\u{A}' || c == '\u{B}' || c == '\u{C}' || c == '\u{D}' || c == ' '
        || c == '\u{85}' || c == '\u{A0}' || c == '\u{1680}' || ('\u{2000}' <= c && c
        <= '\u{200A}') || c == '\u{2028}' || c == '\u{2029}' || c == '\u{202F}' || c
        == '\u{205F}' || c == '\u{3000}'
}

/// Dropping leading whitespace is taking the suffix at the first
/// non-whitespace character.
proof fn lemma_trim_start_skip(s: Seq<char>, a: int)
    requires
        0 <= a <= s.len(),
        forall|j: int| 0 <= j < a ==> spec_is_whitespace(s[j]),
        a < s.len() ==> !spec_is_whitespace(s[a]),
    ensures
        spec_trim_start(s) == s.skip(a),
    decreases a,
{
    if a == 0 {
        assert(s.skip(0) =~= s);
    } else {
        assert(forall|j: int| 0 <= j < s.drop_first().len() ==> s.drop_first()[j] == s[j + 1]);
        lemma_trim_start_skip(s.drop_first(), a - 1);
        assert(s.drop_first().skip(a - 1) =~= s.skip(a));
    }
}

/// Dropping trailing whitespace is taking the prefix up to the last
/// non-whitespace character.
proof fn lemma_trim_end_take(s: Seq<char>, b: int)
    requires
        0 <= b <= s.len(),
        forall|j: int| b <= j < s.len() ==> spec_is_whitespace(s[j]),
        b > 0 ==> !spec_is_whitespace(s[b - 1]),
    ensures
        spec_trim_end(s) == s.take(b),
    decreases s.len() - b,
{
    if b == s.len() {
        assert(s.take(b) =~= s);
    } else {
        assert(s.drop_last() =~= s.take(s.len() - 1));
        assert(forall|j: int| 0 <= j < s.len() - 1 ==> s.drop_last()[j] == s[j]);
        lemma_trim_end_take(s.drop_last(), b);
        assert(s.drop_last().take(b) =~= s.take(b));
    }
}

/// The position of the first non-whitespace character, or the length.
fn first_non_ws(s: &str) -> (a: usize)
    ensures
        a <= s@.len(),
        forall|j: int| 0 <= j < a ==> spec_is_whitespace(s@[j]),
        a < s@.len() ==> !spec_is_whitespace(s@[a as int]),
{
    let n = s.unicode_len();
    for a in 0..n
        invariant
            n == s@.len(),
            forall|j: int| 0 <= j < a ==> spec_is_whitespace(s@[j]),
    {
        if !is_whitespace_char(s.get_char(a)) {
            return a;
        }
    }
    n
}

/// The position after the last non-whitespace character at or after `a`,
/// or `a` when everything from `a` on is whitespace.
fn last_non_ws_end(s: &str, a: usize) -> (b: usize)
    requires
        a <= s@.len(),
    ensures
        a <= b <= s@.len(),
        forall|j: int| b <= j < s@.len() ==> spec_is_whitespace(s@[j]),
        b > a ==> !spec_is_whitespace(s@[b - 1]),
{
    let n = s.unicode_len();
    let mut b = n;
    while b > a
        invariant
            n == s@.len(),
            a <= b <= n,
            forall|j: int| b <= j < n ==> spec_is_whitespace(s@[j]),
        decreases b,
    {
        if !is_whitespace_char(s.get_char(b - 1)) {
            return b;
        }
        b = b - 1;
    }
    b
}

/// `s` without leading and trailing whitespace.
pub fn trim(s: &str) -> (r: &str)
    ensures
        r@ == spec_trim(s@),
{
    let a = first_non_ws(s);
    let b = last_non_ws_end(s, a);
    let r = s.substring_char(a, b);
    proof {
        lemma_trim_start_skip(s@, a as int);
        let t = s@.skip(a as int);
        assert(forall|j: int| 0 <= j < t.len() ==> t[j] == s@[a + j]);
        lemma_trim_end_take(t, b - a as int);
        assert(r@ =~= t.take(b - a as int));
    }
    r
}

// ---------------------------------------------------------------------
// Substring search.
// ---------------------------------------------------------------------

/// Does `pat` occur in `s` at position `p`?
pub open spec fn spec_match_at(s: Seq<char>, pat: Seq<char>, p: int) -> bool {
    &&& 0 <= p
    &&& p + pat.len() <= s.len()
    &&& s.subrange(p, p + pat.len() as int) == pat
}

/// The first position at or after `from` where `pat` occurs in `s`.
pub open spec fn spec_find(s: Seq<char>, pat: Seq<char>, from: int) -> Option<int>
    decreases s.len() + 1 - from,
{
    if from < 0 || from + pat.len() > s.len() {
        None
    } else if spec_match_at(s, pat, from) {
        Some(from)
    } else {
        spec_find(s, pat, from + 1)
    }
}

/// What `substring` extracts: the text between the first occurrence of
/// `start` and the next occurrence of `end`, keeping the first character
/// of `end` — exactly as the shop's cookie reader cuts its value out.
pub open spec fn spec_substring(source: Seq<char>, start: Seq<char>, end: Seq<char>) -> Option<
    Seq<char>,
> {
    match spec_find(source, start, 0) {
        None => None,
        Some(p) => {
            let tail = source.subrange(p + start.len() as int, source.len() as int);
            match spec_find(tail, end, 0) {
                None => None,
                Some(q) => Some(tail.take(q + 1)),
            }
        },
    }
}

/// Does `pat` occur at `p` in `s`? Checked character by character.
fn match_at(s: &str, pat: &str, p: usize) -> (r: bool)
    requires
        p + pat@.len() <= s@.len(),
        s@.len() <= usize::MAX,
    ensures
        r == spec_match_at(s@, pat@, p as int),
{
    let m = pat.unicode_len();
    for j in 0..m
        invariant
            m == pat@.len(),
            p + m <= s@.len(),
            s@.len() <= usize::MAX,
            forall|k: int| 0 <= k < j ==> s@[p + k] == pat@[k],
    {
        if s.get_char(p + j) != pat.get_char(j) {
            assert(s@[p + j] != pat@[j as int]);
            assert(!spec_match_at(s@, pat@, p as int)) by {
                if spec_match_at(s@, pat@, p as int) {
                    assert(s@.subrange(p as int, p + pat@.len() as int)[j as int] == s@[p + j]);
                }
            }
            return false;
        }
    }
    assert(s@.subrange(p as int, p + pat@.len() as int) =~= pat@);
    true
}

/// The first position at or after `from` where `pat` occurs in `s`.
pub(crate) fn find_from(s: &str, pat: &str, from: usize) -> (r: Option<usize>)
    requires
        from <= s@.len(),
    ensures
        match r {
            Some(p) => spec_find(s@, pat@, from as int) == Some(p as int) && spec_match_at(
                s@,
                pat@,
                p as int,
            ),
            None => spec_find(s@, pat@, from as int) is None,
        },
{
    let n = s.unicode_len();
    let m = pat.unicode_len();
    if m > n {
        assert(spec_find(s@, pat@, from as int) is None);
        return None;
    }
    if m == 0 {
        assert(s@.subrange(from as int, from as int) =~= pat@);
        assert(spec_match_at(s@, pat@, from as int));
        return Some(from);
    }
    let last = n - m;
    let mut p = from;
    while p <= last
        invariant
            n == s@.len(),
            m == pat@.len(),
            1 <= m <= n,
            last == n - m,
            from <= p,
            spec_find(s@, pat@, from as int) == spec_find(s@, pat@, p as int),
        decreases last + 1 - p,
    {
        if match_at(s, pat, p) {
            return Some(p);
        }
        p = p + 1;
    }
    assert(spec_find(s@, pat@, p as int) is None);
    None
}

/// The text of `source` between the first occurrence of `start` and the
/// next occurrence of `end`, keeping the first character of `end`; `None`
/// when either does not occur. The `end` marker must be non-empty, a
/// deliberate exclusion: an empty marker names no cut point, and the one
/// character this function would keep of it does not exist.
pub fn substring<'a>(source: &'a str, start: &'a str, end: &'a str) -> (r: Option<&'a str>)
    requires
        end@.len() > 0,
    ensures
        match r {
            Some(sub) => spec_substring(source@, start@, end@) == Some(sub@),
            None => spec_substring(source@, start@, end@) is None,
        },
{
    let n = source.unicode_len();
    let start_pos = match find_from(source, start, 0) {
        None => {
            return None;
        },
        Some(p) => p,
    };
    let a = start_pos + start.unicode_len();
    let tail = source.substring_char(a, n);
    match find_from(tail, end, 0) {
        None => None,
        Some(q) => {
            assert(q + end@.len() <= tail@.len() && tail@.len() <= n);
            let r = tail.substring_char(0, q + 1);
            proof {
                assert(r@ =~= tail@.take(q + 1));
            }
            Some(r)
        },
    }
}

} // verus!
