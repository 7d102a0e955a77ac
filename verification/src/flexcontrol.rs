//! What the analog controller sends: tokens divided by semicolons, each a
//! `D` (down) or a `U` (up) and a count. One read is summed into one
//! signed movement.

use vstd::prelude::*;

verus! {

/// Longest read that `movement` sums.
pub const MAX_READ: usize = 0x7fff_ffff;

/// Whether a byte is a decimal digit.
pub open spec fn is_digit(b: u8) -> bool {
    48 <= b <= 57
}

/// Whether every byte is a decimal digit.
pub open spec fn all_digits(s: Seq<u8>) -> bool {
    forall|i: int| 0 <= i < s.len() ==> is_digit(#[trigger] s[i])
}

/// The number that decimal digits write; 0 for none.
pub open spec fn decimal(s: Seq<u8>) -> int
    decreases s.len(),
{
    if s.len() == 0 {
        0
    } else {
        decimal(s.drop_last()) * 10 + (s.last() - 48)
    }
}

/// The 32-bit signed number that the bytes write: an optional `+` or `-`,
/// then one decimal digit or more and nothing else. `None` for anything
/// else, and for a number that 32 bits do not hold.
pub open spec fn number(s: Seq<u8>) -> Option<int> {
    if s.len() == 0 {
        None
    } else {
        let negative = s[0] == 45;
        let digits = if s[0] == 45 || s[0] == 43 {
            s.skip(1)
        } else {
            s
        };
        let value = if negative {
            -decimal(digits)
        } else {
            decimal(digits)
        };
        if digits.len() > 0 && all_digits(digits) && i32::MIN <= value <= i32::MAX {
            Some(value)
        } else {
            None
        }
    }
}

/// The count that follows the letter of a token: the number written there,
/// and 1 where none can be read.
pub open spec fn count(s: Seq<u8>) -> int {
    match number(s) {
        Some(n) => n,
        None => 1,
    }
}

/// What one token adds to the movement: its count downward after a `D`,
/// upward after a `U`, and nothing after any other first byte.
pub open spec fn token_value(token: Seq<u8>) -> int
    recommends
        token.len() > 0,
{
    if token[0] == 68 {
        -count(token.skip(1))
    } else if token[0] == 85 {
        count(token.skip(1))
    } else {
        0
    }
}

/// The number of bytes before the first semicolon, or the length where
/// there is none.
pub open spec fn token_len(s: Seq<u8>) -> int
    decreases s.len(),
{
    if s.len() == 0 || s[0] == 59 {
        0
    } else {
        1 + token_len(s.skip(1))
    }
}

/// The first token is no longer than the read.
pub proof fn lemma_token_len_bounds(s: Seq<u8>)
    ensures
        0 <= token_len(s) <= s.len(),
    decreases s.len(),
{
    if s.len() > 0 && s[0] != 59 {
        lemma_token_len_bounds(s.skip(1));
    }
}

/// The sum of what the tokens of a read add; empty tokens add nothing.
pub open spec fn spec_movement(s: Seq<u8>) -> int
    decreases s.len(),
{
    if s.len() == 0 {
        0
    } else {
        proof {
            lemma_token_len_bounds(s);
        }
        let n = token_len(s);
        let first = if n > 0 {
            token_value(s.take(n))
        } else {
            0
        };
        if n < s.len() {
            first + spec_movement(s.skip(n + 1))
        } else {
            first
        }
    }
}

/// The first token ends where the first semicolon stands.
pub proof fn lemma_token_len(s: Seq<u8>, n: int)
    requires
        0 <= n <= s.len(),
        forall|k: int| 0 <= k < n ==> s[k] != 59,
        n == s.len() || s[n] == 59,
    ensures
        token_len(s) == n,
    decreases n,
{
    if n > 0 {
        let t = s.skip(1);
        assert forall|k: int| 0 <= k < n - 1 implies t[k] != 59 by {
            assert(t[k] == s[k + 1]);
        }
        lemma_token_len(t, n - 1);
    }
}

/// Digits written after others weigh less: a longer run of digits writes a
/// number that is no smaller.
pub proof fn lemma_decimal_step(s: Seq<u8>)
    requires
        s.len() > 0,
        all_digits(s),
    ensures
        decimal(s) == decimal(s.drop_last()) * 10 + (s.last() - 48),
        all_digits(s.drop_last()),
        0 <= decimal(s.drop_last()) <= decimal(s),
    decreases s.len(),
{
    let t = s.drop_last();
    assert forall|i: int| 0 <= i < t.len() implies is_digit(#[trigger] t[i]) by {
        assert(t[i] == s[i]);
    }
    if t.len() > 0 {
        lemma_decimal_step(t);
    }
    assert(is_digit(s[s.len() - 1]));
}

/// Reads the 32-bit signed number that `buf[from..to]` writes.
pub fn read_number(buf: &[u8], from: usize, to: usize) -> (n: Option<i32>)
    requires
        from <= to <= buf@.len(),
    ensures
        n is Some <==> number(buf@.subrange(from as int, to as int)) is Some,
        n is Some ==> n->0 == number(buf@.subrange(from as int, to as int))->0,
{
    let ghost s = buf@.subrange(from as int, to as int);
    if from == to {
        return None;
    }
    let lead: u8 = buf[from];
    assert(lead == s[0]);
    let negative: bool = lead == 45;
    let start: usize = if lead == 45 || lead == 43 {
        from + 1
    } else {
        from
    };
    let ghost digits = buf@.subrange(start as int, to as int);
    assert(digits =~= (if s[0] == 45 || s[0] == 43 {
        s.skip(1)
    } else {
        s
    }));
    if start == to {
        return None;
    }
    let mut acc: i64 = 0;
    let mut over: bool = false;
    let mut k: usize = start;
    while k < to
        invariant
            from <= start <= k <= to <= buf@.len(),
            s == buf@.subrange(from as int, to as int),
            digits == buf@.subrange(start as int, to as int),
            digits == (if s[0] == 45 || s[0] == 43 {
                s.skip(1)
            } else {
                s
            }),
            all_digits(buf@.subrange(start as int, k as int)),
            !over ==> acc == decimal(buf@.subrange(start as int, k as int)),
            !over ==> 0 <= acc <= 0x8000_0000,
            over ==> decimal(buf@.subrange(start as int, k as int)) > 0x8000_0000,
        decreases to - k,
    {
        let b: u8 = buf[k];
        let ghost before = buf@.subrange(start as int, k as int);
        let ghost after = buf@.subrange(start as int, k as int + 1);
        assert(after.drop_last() =~= before);
        assert(after.last() == b);
        if b < 48 || b > 57 {
            assert(!all_digits(digits)) by {
                assert(digits[k - start] == b);
            }
            return None;
        }
        assert(all_digits(after)) by {
            assert forall|i: int| 0 <= i < after.len() implies is_digit(#[trigger] after[i]) by {
                if i < before.len() {
                    assert(after[i] == before[i]);
                }
            }
        }
        proof {
            lemma_decimal_step(after);
        }
        if !over {
            let next: i64 = acc * 10 + (b - 48) as i64;
            if next > 0x8000_0000 {
                over = true;
            } else {
                acc = next;
            }
        }
        k = k + 1;
    }
    assert(buf@.subrange(start as int, k as int) =~= digits);
    if over {
        None
    } else if negative {
        Some((-acc) as i32)
    } else if acc > 0x7fff_ffff {
        None
    } else {
        Some(acc as i32)
    }
}

/// What the token `buf[from..to]` adds to the movement.
pub fn read_token(buf: &[u8], from: usize, to: usize) -> (v: i64)
    requires
        from < to <= buf@.len(),
    ensures
        v == token_value(buf@.subrange(from as int, to as int)),
        -0x8000_0000 <= v <= 0x8000_0000,
{
    let ghost token = buf@.subrange(from as int, to as int);
    let letter: u8 = buf[from];
    assert(letter == token[0]);
    assert(token.skip(1) =~= buf@.subrange(from as int + 1, to as int));
    if letter == 68 {
        match read_number(buf, from + 1, to) {
            Some(n) => -(n as i64),
            None => -1,
        }
    } else if letter == 85 {
        match read_number(buf, from + 1, to) {
            Some(n) => n as i64,
            None => 1,
        }
    } else {
        0
    }
}

/// The movement that one read of the controller asks for: the sum of its
/// tokens.
pub fn movement(buf: &[u8]) -> (delta: i64)
    requires
        buf@.len() <= MAX_READ,
    ensures
        delta == spec_movement(buf@),
{
    let len: usize = buf.len();
    let mut total: i64 = 0;
    let mut i: usize = 0;
    assert(buf@.skip(0) =~= buf@);
    while i < len
        invariant
            i <= len == buf@.len() <= MAX_READ,
            total + spec_movement(buf@.skip(i as int)) == spec_movement(buf@),
            -0x8000_0000 * i <= total <= 0x8000_0000 * i,
        decreases len - i,
    {
        let ghost rest = buf@.skip(i as int);
        let mut j: usize = i;
        while j < len && buf[j] != 59
            invariant
                i <= j <= len == buf@.len(),
                forall|k: int| i <= k < j ==> buf@[k] != 59,
            decreases len - j,
        {
            j = j + 1;
        }
        proof {
            assert forall|k: int| 0 <= k < j - i implies rest[k] != 59 by {
                assert(rest[k] == buf@[i + k]);
            }
            lemma_token_len(rest, j - i);
            assert(rest.take(j - i) =~= buf@.subrange(i as int, j as int));
            if j < len {
                assert(rest.skip(j - i + 1) =~= buf@.skip(j as int + 1));
            }
        }
        if j > i {
            let v = read_token(buf, i, j);
            total = total + v;
        }
        if j < len {
            i = j + 1;
        } else {
            assert(spec_movement(buf@.skip(len as int)) == 0);
            i = len;
        }
    }
    assert(spec_movement(buf@.skip(len as int)) == 0);
    total
}

} // verus!
