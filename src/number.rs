//! Integer literals of enumeration values: decimal, `0x` hexadecimal or `0b`
//! binary, each with the optional `+` sign that Rust's integer parsing takes.
use vstd::prelude::*;

verus! {

/// The value of digit `c` in base `radix` (2, 10 or 16), if it is one.
pub open spec fn digit_value(c: char, radix: nat) -> Option<nat> {
    let d: int = if '0' <= c && c <= '9' {
        c as int - '0' as int
    } else if 'a' <= c && c <= 'f' {
        c as int - 'a' as int + 10
    } else if 'A' <= c && c <= 'F' {
        c as int - 'A' as int + 10
    } else {
        -1
    };
    if 0 <= d < radix {
        Some(d as nat)
    } else {
        None
    }
}

/// The value of the digit string `s` in base `radix`, if every character is
/// a digit of that base.
pub open spec fn digits_value(s: Seq<char>, radix: nat) -> Option<nat>
    decreases s.len(),
{
    if s.len() == 0 {
        Some(0)
    } else {
        match (digits_value(s.drop_last(), radix), digit_value(s.last(), radix)) {
            (Some(v), Some(d)) => Some(v * radix + d),
            _ => None,
        }
    }
}

/// What `u64::from_str_radix(s, radix)` gives: an optional `+`, then at least
/// one digit, with a value that fits in 64 bits.
pub open spec fn radix_value(s: Seq<char>, radix: nat) -> Option<u64> {
    let body = if s.len() > 0 && s[0] == '+' {
        s.drop_first()
    } else {
        s
    };
    if body.len() == 0 {
        None
    } else {
        match digits_value(body, radix) {
            Some(v) => if v <= u64::MAX {
                Some(v as u64)
            } else {
                None
            },
            None => None,
        }
    }
}

/// The value of an enumeration literal: decimal first, then hexadecimal
/// after `0x`, then binary after `0b`.
pub open spec fn literal_value(s: Seq<char>) -> Option<u64> {
    if radix_value(s, 10) is Some {
        radix_value(s, 10)
    } else if s.len() >= 2 && s[0] == '0' && s[1] == 'x' {
        radix_value(s.subrange(2, s.len() as int), 16)
    } else if s.len() >= 2 && s[0] == '0' && s[1] == 'b' {
        radix_value(s.subrange(2, s.len() as int), 2)
    } else {
        None
    }
}

proof fn lemma_digits_grow(s: Seq<char>, n: int, radix: nat)
    requires
        0 <= n <= s.len(),
        radix >= 2,
        digits_value(s, radix) is Some,
    ensures
        digits_value(s.subrange(0, n), radix) is Some,
        digits_value(s.subrange(0, n), radix)->0 <= digits_value(s, radix)->0,
    decreases s.len() - n,
{
    if n < s.len() {
        let t = s.subrange(0, n + 1);
        lemma_digits_grow(s, n + 1, radix);
        assert(t.drop_last() =~= s.subrange(0, n));
        let v = digits_value(s.subrange(0, n), radix)->0;
        let d = digit_value(t.last(), radix)->0;
        assert(v <= v * radix + d) by (nonlinear_arith)
            requires
                radix >= 2,
        ;
    } else {
        assert(s.subrange(0, n) =~= s);
    }
}

fn digit_of(c: char, radix: u64) -> (r: Option<u64>)
    requires
        radix == 2 || radix == 10 || radix == 16,
    ensures
        match digit_value(c, radix as nat) {
            Some(d) => r == Some(d as u64),
            None => r is None,
        },
{
    let d: u64 = if '0' <= c && c <= '9' {
        (c as u32 - '0' as u32) as u64
    } else if 'a' <= c && c <= 'f' {
        (c as u32 - 'a' as u32 + 10) as u64
    } else if 'A' <= c && c <= 'F' {
        (c as u32 - 'A' as u32 + 10) as u64
    } else {
        return None;
    };
    if d < radix {
        Some(d)
    } else {
        None
    }
}

/// `radix_value(s[lo..])`.
pub fn parse_radix(s: &Vec<char>, lo: usize, radix: u64) -> (r: Option<u64>)
    requires
        lo <= s@.len(),
        radix == 2 || radix == 10 || radix == 16,
    ensures
        r == radix_value(s@.subrange(lo as int, s@.len() as int), radix as nat),
{
    let ghost whole = s@.subrange(lo as int, s@.len() as int);
    let mut start = lo;
    if lo < s.len() && s[lo] == '+' {
        start = lo + 1;
        assert(whole.drop_first() =~= s@.subrange(start as int, s@.len() as int));
    }
    let ghost body = s@.subrange(start as int, s@.len() as int);
    assert(body == if whole.len() > 0 && whole[0] == '+' {
        whole.drop_first()
    } else {
        whole
    });
    if start == s.len() {
        return None;
    }
    let mut v: u64 = 0;
    let mut i = start;
    assert(body.subrange(0, 0) =~= Seq::<char>::empty());
    while i < s.len()
        invariant
            lo <= start <= i <= s@.len(),
            body == s@.subrange(start as int, s@.len() as int),
            whole == s@.subrange(lo as int, s@.len() as int),
            body == if whole.len() > 0 && whole[0] == '+' {
                whole.drop_first()
            } else {
                whole
            },
            body.len() > 0,
            radix == 2 || radix == 10 || radix == 16,
            digits_value(body.subrange(0, i - start), radix as nat) == Some(v as nat),
        decreases s@.len() - i,
    {
        let ghost pre = body.subrange(0, i - start);
        let ghost next = body.subrange(0, i - start + 1);
        assert(next.drop_last() =~= pre);
        assert(next.last() == s@[i as int]);
        let d = match digit_of(s[i], radix) {
            Some(d) => d,
            None => {
                proof {
                    if digits_value(body, radix as nat) is Some {
                        lemma_digits_grow(body, i - start + 1, radix as nat);
                    }
                }
                return None;
            },
        };
        if v > (u64::MAX - d) / radix {
            proof {
                assert(v as int * radix as int + d as int > u64::MAX as int) by (nonlinear_arith)
                    requires
                        v as int > (u64::MAX as int - d as int) / radix as int,
                        radix >= 2,
                        d < radix,
                ;
                if digits_value(body, radix as nat) is Some {
                    lemma_digits_grow(body, i - start + 1, radix as nat);
                }
            }
            return None;
        }
        assert(v as int * radix as int + d as int <= u64::MAX as int) by (nonlinear_arith)
            requires
                v as int <= (u64::MAX as int - d as int) / radix as int,
                radix >= 2,
                d < radix,
        ;
        v = v * radix + d;
        i += 1;
    }
    assert(body.subrange(0, body.len() as int) =~= body);
    Some(v)
}

/// `literal_value(s)`.
pub fn literal_of(s: &Vec<char>) -> (r: Option<u64>)
    ensures
        r == literal_value(s@),
{
    assert(s@.subrange(0, s@.len() as int) =~= s@);
    let dec = parse_radix(s, 0, 10);
    if dec.is_some() {
        return dec;
    }
    if s.len() >= 2 && s[0] == '0' && s[1] == 'x' {
        return parse_radix(s, 2, 16);
    }
    if s.len() >= 2 && s[0] == '0' && s[1] == 'b' {
        return parse_radix(s, 2, 2);
    }
    None
}

} // verus!
