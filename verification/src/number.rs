//! Numerals: reading them from text and writing them out.
use vstd::prelude::*;

verus! {

/// The value of the digit `c` in base `radix`.
pub open spec fn digit_value(c: char, radix: nat) -> Option<nat> {
    let d = if '0' <= c <= '9' {
        (c as u32 - '0' as u32) as nat
    } else if 'a' <= c <= 'z' {
        (c as u32 - 'a' as u32 + 10) as nat
    } else if 'A' <= c <= 'Z' {
        (c as u32 - 'A' as u32 + 10) as nat
    } else {
        radix
    };
    if d < radix {
        Some(d)
    } else {
        None
    }
}

/// The value of the digits `s` in base `radix`, most significant first.
pub open spec fn digits_value(s: Seq<char>, radix: nat) -> Option<nat>
    decreases s.len(),
{
    if s.len() == 0 {
        Some(0)
    } else {
        match (digits_value(s.drop_last(), radix), digit_value(s.last(), radix)) {
            (Some(v), Some(d)) => Some(v * radix + d),
            _ => None,
        }
    }
}

/// The number that `s` writes in base `radix`, where it writes one that is
/// no more than `limit`.
pub open spec fn numeral(s: Seq<char>, radix: nat, limit: nat) -> Option<nat> {
    match digits_value(s, radix) {
        Some(v) if s.len() > 0 && v <= limit => Some(v),
        _ => None,
    }
}

/// The digit `d` of base 10.
pub open spec fn digit_char(d: nat) -> char {
    ('0' as u32 + d) as char
}

/// `n` in base 10, without leading zeros.
pub open spec fn decimal(n: nat) -> Seq<char>
    decreases n,
{
    if n < 10 {
        seq![digit_char(n)]
    } else {
        decimal(n / 10).push(digit_char(n % 10))
    }
}

/// `n` in base 10, with a sign before a negative number.
pub open spec fn signed_decimal(n: int) -> Seq<char> {
    if n < 0 {
        seq!['-'] + decimal((-n) as nat)
    } else {
        decimal(n as nat)
    }
}

/// The digit `d` of base 16.
pub open spec fn hex_char(d: nat) -> char {
    if d < 10 {
        digit_char(d)
    } else {
        ('a' as u32 + d - 10) as char
    }
}

/// The last `width` digits of `n` in base 16.
pub open spec fn hex(n: nat, width: nat) -> Seq<char>
    decreases width,
{
    if width == 0 {
        Seq::empty()
    } else {
        hex(n / 16, (width - 1) as nat).push(hex_char(n % 16))
    }
}

/// The value of the digit `c`, where it is one of base `radix`.
fn read_digit(c: char, radix: u64) -> (r: Option<u64>)
    requires
        radix <= 36,
    ensures
        match r {
            Some(d) => digit_value(c, radix as nat) == Some(d as nat),
            None => digit_value(c, radix as nat) is None,
        },
{
    let d: u64 = if '0' <= c && c <= '9' {
        (c as u32 - '0' as u32) as u64
    } else if 'a' <= c && c <= 'z' {
        (c as u32 - 'a' as u32 + 10) as u64
    } else if 'A' <= c && c <= 'Z' {
        (c as u32 - 'A' as u32 + 10) as u64
    } else {
        radix
    };
    if d < radix {
        Some(d)
    } else {
        None
    }
}

/// Reads the number that `s` writes in base `radix`.
pub fn read_numeral(s: &[char], radix: u64, limit: u64) -> (r: Option<u64>)
    requires
        1 <= radix <= 36,
        limit <= 0xffff_ffff,
    ensures
        match r {
            Some(v) => numeral(s@, radix as nat, limit as nat) == Some(v as nat),
            None => numeral(s@, radix as nat, limit as nat) is None,
        },
{
    let ghost base = radix as nat;
    let mut acc: u64 = 0;
    let mut over = false;
    let mut i: usize = 0;
    assert(s@.take(0) =~= Seq::<char>::empty());
    while i < s.len()
        invariant
            i <= s@.len(),
            base == radix,
            1 <= radix <= 36,
            limit <= 0xffff_ffff,
            digits_value(s@.take(i as int), base) is Some,
            over == (digits_value(s@.take(i as int), base)->0 > limit),
            !over ==> acc == digits_value(s@.take(i as int), base)->0,
        decreases s@.len() - i,
    {
        let ghost head = s@.take(i as int);
        proof {
            assert(s@.take(i + 1).drop_last() =~= head);
            assert(s@.take(i + 1).last() == s@[i as int]);
        }
        match read_digit(s[i], radix) {
            None => {
                proof {
                    lemma_bad_prefix(s@, base, i + 1);
                }
                return None;
            },
            Some(d) => {
                let ghost v = digits_value(head, base)->0;
                assert(v * base + d >= v) by (nonlinear_arith)
                    requires
                        base >= 1,
                ;
                if !over {
                    assert(acc * radix <= 0xffff_ffff * 36) by (nonlinear_arith)
                        requires
                            acc <= 0xffff_ffff,
                            radix <= 36,
                    ;
                    acc = acc * radix + d;
                    if acc > limit {
                        over = true;
                    }
                }
            },
        }
        i = i + 1;
    }
    assert(s@.take(s@.len() as int) =~= s@);
    if i == 0 || over {
        None
    } else {
        Some(acc)
    }
}

proof fn lemma_bad_prefix(s: Seq<char>, radix: nat, i: int)
    requires
        0 <= i <= s.len(),
        digits_value(s.take(i), radix) is None,
    ensures
        digits_value(s, radix) is None,
    decreases s.len() - i,
{
    if i < s.len() {
        assert(s.take(i + 1).drop_last() =~= s.take(i));
        lemma_bad_prefix(s, radix, i + 1);
    } else {
        assert(s.take(i) =~= s);
    }
}

fn write_digit(d: u8) -> (r: char)
    requires
        d < 10,
    ensures
        r == digit_char(d as nat),
{
    (48 + d) as char
}

/// Writes `n` in base 10.
pub fn write_decimal(n: u64) -> (r: Vec<char>)
    ensures
        r@ == decimal(n as nat),
    decreases n,
{
    if n < 10 {
        let mut out: Vec<char> = Vec::new();
        out.push(write_digit(n as u8));
        assert(out@ =~= decimal(n as nat));
        out
    } else {
        let mut out = write_decimal(n / 10);
        out.push(write_digit((n % 10) as u8));
        out
    }
}

/// Writes `n` in base 10, with a sign before a negative number.
pub fn write_signed(n: i64) -> (r: Vec<char>)
    ensures
        r@ == signed_decimal(n as int),
{
    if n < 0 {
        let size: u64 = (-(n + 1)) as u64 + 1;
        let mut out: Vec<char> = Vec::new();
        out.push('-');
        let mut rest = write_decimal(size);
        out.append(&mut rest);
        assert(out@ =~= seq!['-'] + decimal((-n) as nat));
        out
    } else {
        write_decimal(n as u64)
    }
}

/// Writes the last `width` digits of `n` in base 16.
pub fn write_hex(n: u64, width: u64) -> (r: Vec<char>)
    ensures
        r@ == hex(n as nat, width as nat),
    decreases width,
{
    if width == 0 {
        Vec::new()
    } else {
        let mut out = write_hex(n / 16, width - 1);
        let d: u8 = (n % 16) as u8;
        if d < 10 {
            out.push(write_digit(d));
        } else {
            out.push((87 + d) as char);
        }
        out
    }
}

} // verus!
