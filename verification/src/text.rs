use vstd::prelude::*;

verus! {

/// Appends `c` to `s`.
///
/// Wraps `String::push`, which std documents as appending the given `char`
/// to the end of the string; the contract claims exactly that of the
/// string's characters.
#[verifier::external_body]
pub(crate) fn push_char(s: &mut String, c: char)
    ensures
        final(s)@ == old(s)@.push(c),
{
    s.push(c);
}

/// The character of a digit below 16: `0`-`9`, then `a`-`f`.
pub open spec fn digit_char(d: nat) -> char {
    if d < 10 {
        (48 + d) as char
    } else {
        (87 + d) as char
    }
}

/// The decimal digits of `n`, most significant first, without leading zeros.
pub open spec fn decimal(n: nat) -> Seq<char>
    decreases n,
{
    if n < 10 {
        seq![digit_char(n)]
    } else {
        decimal(n / 10).push(digit_char(n % 10))
    }
}

/// The lower-case hexadecimal digits of `n`, most significant first,
/// without leading zeros.
pub open spec fn hex(n: nat) -> Seq<char>
    decreases n,
{
    if n < 16 {
        seq![digit_char(n)]
    } else {
        hex(n / 16).push(digit_char(n % 16))
    }
}

/// The value of a digit character in base `base` (10 or 16): `0`-`9` are
/// 0 to 9 and, in base 16, `a`-`f` are 10 to 15; any other character is
/// no digit (-1).
pub open spec fn digit_value(c: char, base: int) -> int {
    if '0' <= c && c <= '9' {
        c as int - '0' as int
    } else if base == 16 && 'a' <= c && c <= 'f' {
        c as int - 'a' as int + 10
    } else {
        -1
    }
}

/// The number that the digits of `s` spell in base `base`, most significant
/// first.
pub open spec fn digits_value(s: Seq<char>, base: int) -> int
    decreases s.len(),
{
    if s.len() == 0 {
        0
    } else {
        digits_value(s.drop_last(), base) * base + digit_value(s.last(), base)
    }
}

/// `s` is a well-formed numeral in base `base`: it is not empty, every
/// character is a digit of that base, and it starts with `0` only when it is
/// the single digit `0`.
pub open spec fn is_numeral(s: Seq<char>, base: int) -> bool {
    &&& s.len() > 0
    &&& forall|i: int| 0 <= i < s.len() ==> 0 <= #[trigger] digit_value(s[i], base) < base
    &&& s[0] == '0' ==> s.len() == 1
}

/// Reading the lower-case hexadecimal text of `n` as base-16 digits gives
/// back `n`, and the text is a well-formed numeral without leading zeros.
pub proof fn lemma_hex_reads_back(n: nat)
    ensures
        is_numeral(hex(n), 16),
        digits_value(hex(n), 16) == n,
    decreases n,
{
    if n >= 16 {
        lemma_hex_reads_back(n / 16);
        let d = (n % 16) as nat;
        let s = hex(n);
        assert(s.drop_last() == hex(n / 16));
        assert(s.last() == digit_char(d));
        assert(digit_value(digit_char(d), 16) == d);
        assert forall|i: int| 0 <= i < s.len() implies 0 <= #[trigger] digit_value(s[i], 16)
            < 16 by {
            if i < s.len() - 1 {
                assert(s[i] == hex(n / 16)[i]);
            }
        }
        assert(s[0] == hex(n / 16)[0]);
        let prev = hex(n / 16);
        if prev[0] == '0' {
            assert(prev.len() == 1);
            assert(prev.drop_last() =~= Seq::<char>::empty());
            assert(prev.last() == '0');
            assert(digit_value('0', 16) == 0);
            assert(digits_value(prev.drop_last(), 16) == 0);
            assert(digits_value(prev, 16) == 0);
        }
        assert(digits_value(s, 16) == digits_value(s.drop_last(), 16) * 16 + d);
        assert(n == (n / 16) * 16 + d);
    } else {
        let s = hex(n);
        assert(digit_value(digit_char(n), 16) == n);
        assert(s.drop_last() =~= Seq::<char>::empty());
        assert(digits_value(s.drop_last(), 16) == 0);
        assert(s[0] == digit_char(n));
        assert(digits_value(s, 16) == n);
        assert forall|i: int| 0 <= i < s.len() implies 0 <= #[trigger] digit_value(s[i], 16)
            < 16 by {
            assert(i == 0);
        }
    }
}

/// Reading the decimal text of `n` as base-10 digits gives back `n`, and the
/// text is a well-formed numeral without leading zeros.
pub proof fn lemma_decimal_reads_back(n: nat)
    ensures
        is_numeral(decimal(n), 10),
        digits_value(decimal(n), 10) == n,
    decreases n,
{
    if n >= 10 {
        lemma_decimal_reads_back(n / 10);
        let d = (n % 10) as nat;
        let s = decimal(n);
        assert(s.drop_last() == decimal(n / 10));
        assert(s.last() == digit_char(d));
        assert(digit_value(digit_char(d), 10) == d);
        assert forall|i: int| 0 <= i < s.len() implies 0 <= #[trigger] digit_value(s[i], 10)
            < 10 by {
            if i < s.len() - 1 {
                assert(s[i] == decimal(n / 10)[i]);
            }
        }
        assert(s[0] == decimal(n / 10)[0]);
        let prev = decimal(n / 10);
        if prev[0] == '0' {
            assert(prev.len() == 1);
            assert(prev.drop_last() =~= Seq::<char>::empty());
            assert(prev.last() == '0');
            assert(digit_value('0', 10) == 0);
            assert(digits_value(prev.drop_last(), 10) == 0);
            assert(digits_value(prev, 10) == 0);
        }
        assert(digits_value(s, 10) == digits_value(s.drop_last(), 10) * 10 + d);
        assert(n == (n / 10) * 10 + d);
    } else {
        let s = decimal(n);
        assert(digit_value(digit_char(n), 10) == n);
        assert(s.drop_last() =~= Seq::<char>::empty());
        assert(digits_value(s.drop_last(), 10) == 0);
        assert(s[0] == digit_char(n));
        assert(digits_value(s, 10) == n);
        assert forall|i: int| 0 <= i < s.len() implies 0 <= #[trigger] digit_value(s[i], 10)
            < 10 by {
            assert(i == 0);
        }
    }
}

fn digit(d: u64) -> (c: char)
    requires
        d < 16,
    ensures
        c == digit_char(d as nat),
{
    let b: u8 = if d < 10 {
        48 + d as u8
    } else {
        87 + d as u8
    };
    b as char
}

/// Appends the decimal digits of `n` to `s`.
pub(crate) fn push_decimal(s: &mut String, n: u64)
    ensures
        final(s)@ == old(s)@ + decimal(n as nat),
    decreases n,
{
    if n >= 10 {
        push_decimal(s, n / 10);
    }
    push_char(s, digit(n % 10));
}

/// Appends the lower-case hexadecimal digits of `n` to `s`.
pub(crate) fn push_hex(s: &mut String, n: u64)
    ensures
        final(s)@ == old(s)@ + hex(n as nat),
    decreases n,
{
    if n >= 16 {
        push_hex(s, n / 16);
    }
    push_char(s, digit(n % 16));
}

} // verus!
