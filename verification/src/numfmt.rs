//! Rendering of unsigned integers in decimal or lower-case hexadecimal, and
//! parsing of hexadecimal text back into a `u64`.
use vstd::prelude::*;

verus! {

/// The character for a digit value below 16 (lower-case letters).
pub open spec fn digit_char(d: nat) -> char {
    seq!['0', '1', '2', '3', '4', '5', '6', '7', '8', '9', 'a', 'b', 'c', 'd', 'e', 'f'][d as int]
}

/// The digits of `n` in base `radix`, most significant first, without leading
/// zeros ("0" for zero).
pub open spec fn radix_digits(n: nat, radix: nat) -> Seq<char>
    recommends
        2 <= radix <= 16,
    decreases n,
{
    if radix < 2 || n < radix {
        seq![digit_char(n % 16)]
    } else {
        proof {
            assert(n / radix < n) by (nonlinear_arith)
                requires
                    n >= radix,
                    radix >= 2,
            ;
        }
        radix_digits(n / radix, radix).push(digit_char(n % radix))
    }
}

/// The value of a hexadecimal digit character, upper or lower case.
pub open spec fn hex_digit_value(c: char) -> Option<nat> {
    if '0' <= c && c <= '9' {
        Some((c as nat - 48) as nat)
    } else if 'a' <= c && c <= 'f' {
        Some((c as nat - 87) as nat)
    } else if 'A' <= c && c <= 'F' {
        Some((c as nat - 55) as nat)
    } else {
        None
    }
}

/// Why hexadecimal text did not parse into a `u64`.
#[derive(Clone, Copy, Debug, PartialEq, Eq, Structural)]
pub enum HexParseError {
    /// The text is empty.
    Empty,
    /// A character is not a hexadecimal digit (or the text is only a sign).
    InvalidDigit,
    /// The value does not fit in a `u64`.
    PosOverflow,
}

/// Scans hexadecimal digits from left to right; the first problem met wins.
pub open spec fn hex_scan(s: Seq<char>) -> Result<nat, HexParseError>
    decreases s.len(),
{
    if s.len() == 0 {
        Ok(0)
    } else {
        match hex_scan(s.drop_last()) {
            Err(e) => Err(e),
            Ok(v) => match hex_digit_value(s.last()) {
                None => Err(HexParseError::InvalidDigit),
                Some(d) => if v * 16 + d > u64::MAX {
                    Err(HexParseError::PosOverflow)
                } else {
                    Ok(v * 16 + d)
                },
            },
        }
    }
}

/// Parsing hexadecimal text with an optional leading `+`, as
/// `u64::from_str_radix(_, 16)` does.
pub open spec fn hex_parse(s: Seq<char>) -> Result<u64, HexParseError> {
    if s.len() == 0 {
        Err(HexParseError::Empty)
    } else if s.len() == 1 && (s[0] == '+' || s[0] == '-') {
        Err(HexParseError::InvalidDigit)
    } else {
        let body = if s[0] == '+' {
            s.skip(1)
        } else {
            s
        };
        match hex_scan(body) {
            Ok(v) => Ok(v as u64),
            Err(e) => Err(e),
        }
    }
}

/// Appends the character of digit `d` to `out`.
fn push_digit(out: &mut String, d: u64)
    requires
        d < 16,
    ensures
        final(out)@ == old(out)@.push(digit_char(d as nat)),
{
    let lit = match d {
        0 => "0",
        1 => "1",
        2 => "2",
        3 => "3",
        4 => "4",
        5 => "5",
        6 => "6",
        7 => "7",
        8 => "8",
        9 => "9",
        10 => "a",
        11 => "b",
        12 => "c",
        13 => "d",
        14 => "e",
        _ => "f",
    };
    proof {
        reveal_strlit("0");
        reveal_strlit("1");
        reveal_strlit("2");
        reveal_strlit("3");
        reveal_strlit("4");
        reveal_strlit("5");
        reveal_strlit("6");
        reveal_strlit("7");
        reveal_strlit("8");
        reveal_strlit("9");
        reveal_strlit("a");
        reveal_strlit("b");
        reveal_strlit("c");
        reveal_strlit("d");
        reveal_strlit("e");
        reveal_strlit("f");
    }
    out.append(lit);
    assert(final(out)@ =~= old(out)@.push(digit_char(d as nat)));
}

/// Appends the digits of `n` in base `radix` to `out`.
fn push_radix_digits(out: &mut String, n: u64, radix: u64)
    requires
        2 <= radix <= 16,
    ensures
        final(out)@ == old(out)@ + radix_digits(n as nat, radix as nat),
    decreases n,
{
    if n >= radix {
        assert(n / radix < n) by (nonlinear_arith)
            requires
                n >= radix,
                radix >= 2,
        ;
        push_radix_digits(out, n / radix, radix);
    }
    push_digit(out, n % radix);
    if n < radix {
        proof {
            vstd::arithmetic::div_mod::lemma_small_mod(n as nat, 16);
            vstd::arithmetic::div_mod::lemma_small_mod(n as nat, radix as nat);
        }
    }
    assert(out@ =~= old(out)@ + radix_digits(n as nat, radix as nat));
}

/// Renders `n` in decimal, as `format!("{}", n)` does.
pub fn to_decimal_string(n: u64) -> (s: String)
    ensures
        s@ == radix_digits(n as nat, 10),
{
    let mut s = String::new();
    push_radix_digits(&mut s, n, 10);
    assert(s@ =~= radix_digits(n as nat, 10));
    s
}

/// Renders `n` in lower-case hexadecimal, as `format!("{:x}", n)` does.
pub fn to_hex_string(n: u64) -> (s: String)
    ensures
        s@ == radix_digits(n as nat, 16),
{
    let mut s = String::new();
    push_radix_digits(&mut s, n, 16);
    assert(s@ =~= radix_digits(n as nat, 16));
    s
}

/// The value of one hexadecimal digit character.
fn hex_digit(c: char) -> (r: Option<u64>)
    ensures
        r matches Some(v) ==> hex_digit_value(c) == Some(v as nat),
        r is None ==> hex_digit_value(c) is None,
{
    if '0' <= c && c <= '9' {
        Some((c as u32 - 48) as u64)
    } else if 'a' <= c && c <= 'f' {
        Some((c as u32 - 87) as u64)
    } else if 'A' <= c && c <= 'F' {
        Some((c as u32 - 55) as u64)
    } else {
        None
    }
}

/// Parses hexadecimal text into a `u64` the way `u64::from_str_radix(s, 16)`
/// does: an optional `+`, then one or more digits of either case.
pub fn parse_hex_u64(s: &str) -> (r: Result<u64, HexParseError>)
    ensures
        r == hex_parse(s@),
{
    let n = s.unicode_len();
    if n == 0 {
        return Err(HexParseError::Empty);
    }
    let first = s.get_char(0);
    if n == 1 && (first == '+' || first == '-') {
        return Err(HexParseError::InvalidDigit);
    }
    let start: usize = if first == '+' { 1 } else { 0 };
    let ghost body = if first == '+' { s@.skip(1) } else { s@ };
    let mut v: u64 = 0;
    let mut i: usize = start;
    while i < n
        invariant
            n == s@.len(),
            start <= i <= n,
            start == 0 || start == 1,
            n > 0,
            first == s@[0],
            !(n == 1 && (first == '+' || first == '-')),
            start == 1 <==> first == '+',
            start == 1 ==> body == s@.skip(1),
            start == 0 ==> body == s@,
            hex_scan(body.take(i - start)) == Ok::<nat, HexParseError>(v as nat),
        decreases n - i,
    {
        let c = s.get_char(i);
        let ghost pre = body.take(i - start);
        assert(body.take(i + 1 - start).drop_last() =~= pre);
        assert(body.take(i + 1 - start).last() == c);
        match hex_digit(c) {
            None => {
                assert(hex_scan(body.take(i + 1 - start)) == Err::<nat, HexParseError>(
                    HexParseError::InvalidDigit,
                ));
                proof { lemma_scan_error_persists(body, (i + 1 - start) as nat); }
                assert(hex_scan(body) == Err::<nat, HexParseError>(HexParseError::InvalidDigit));
                assert(s@.len() > 0);
                assert(first == s@[0]);
                return Err(HexParseError::InvalidDigit);
            },
            Some(d) => {
                if v > (u64::MAX - d) / 16 {
                    assert(v * 16 + d > u64::MAX) by (nonlinear_arith)
                        requires
                            v > (u64::MAX - d) / 16,
                            d < 16,
                    ;
                    assert(hex_scan(body.take(i + 1 - start)) == Err::<nat, HexParseError>(
                        HexParseError::PosOverflow,
                    ));
                    proof { lemma_scan_error_persists(body, (i + 1 - start) as nat); }
                    return Err(HexParseError::PosOverflow);
                }
                assert(v * 16 + d <= u64::MAX) by (nonlinear_arith)
                    requires
                        v <= (u64::MAX - d) / 16,
                        d < 16,
                ;
                v = v * 16 + d;
            },
        }
        i = i + 1;
    }
    assert(body.take(n - start) =~= body);
    Ok(v)
}

/// Once the scan of a prefix fails, the scan of the whole text fails the
/// same way.
proof fn lemma_scan_error_persists(s: Seq<char>, i: nat)
    requires
        i <= s.len(),
        hex_scan(s.take(i as int)) is Err,
    ensures
        hex_scan(s) == hex_scan(s.take(i as int)),
    decreases s.len() - i,
{
    if i < s.len() {
        assert(s.take(i as int + 1).drop_last() =~= s.take(i as int));
        lemma_scan_error_persists(s, i + 1);
    } else {
        assert(s.take(i as int) =~= s);
    }
}

/// Each digit character has the value it stands for.
pub proof fn lemma_digit_char_value(d: nat)
    requires
        d < 16,
    ensures
        hex_digit_value(digit_char(d)) == Some(d),
        digit_char(d) != '+',
        digit_char(d) != '-',
{
    let t = seq!['0', '1', '2', '3', '4', '5', '6', '7', '8', '9', 'a', 'b', 'c', 'd', 'e', 'f'];
    assert(digit_char(d) == t[d as int]);
    if d == 0 { assert(t[0] == '0'); }
    else if d == 1 { assert(t[1] == '1'); }
    else if d == 2 { assert(t[2] == '2'); }
    else if d == 3 { assert(t[3] == '3'); }
    else if d == 4 { assert(t[4] == '4'); }
    else if d == 5 { assert(t[5] == '5'); }
    else if d == 6 { assert(t[6] == '6'); }
    else if d == 7 { assert(t[7] == '7'); }
    else if d == 8 { assert(t[8] == '8'); }
    else if d == 9 { assert(t[9] == '9'); }
    else if d == 10 { assert(t[10] == 'a'); }
    else if d == 11 { assert(t[11] == 'b'); }
    else if d == 12 { assert(t[12] == 'c'); }
    else if d == 13 { assert(t[13] == 'd'); }
    else if d == 14 { assert(t[14] == 'e'); }
    else { assert(t[15] == 'f'); }
}

/// Lower-case hexadecimal digits scan back to the number they render.
proof fn lemma_hex_digits_scan(n: nat)
    requires
        n <= u64::MAX,
    ensures
        hex_scan(radix_digits(n, 16)) == Ok::<nat, HexParseError>(n),
        radix_digits(n, 16).len() > 0,
        radix_digits(n, 16)[0] != '+',
        radix_digits(n, 16)[0] != '-',
    decreases n,
{
    if n >= 16 {
        lemma_hex_digits_scan(n / 16);
        lemma_digit_char_value(n % 16);
        let s = radix_digits(n, 16);
        assert(s == radix_digits(n / 16, 16).push(digit_char(n % 16)));
        assert(s.drop_last() =~= radix_digits(n / 16, 16));
        assert(s[0] == radix_digits(n / 16, 16)[0]);
        assert(n / 16 * 16 + n % 16 == n);
    } else {
        vstd::arithmetic::div_mod::lemma_small_mod(n, 16);
        lemma_digit_char_value(n);
        let s = radix_digits(n, 16);
        assert(s.len() == 1);
        assert(s.drop_last() =~= Seq::<char>::empty());
        assert(hex_scan(Seq::<char>::empty()) == Ok::<nat, HexParseError>(0));
    }
}

/// Rendering a `u64` in hexadecimal and parsing the text gives the number
/// back.
pub proof fn law_hex_roundtrip(n: u64)
    ensures
        hex_parse(radix_digits(n as nat, 16)) == Ok::<u64, HexParseError>(n),
{
    lemma_hex_digits_scan(n as nat);
}

} // verus!
