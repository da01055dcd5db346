//! Big-endian words, null-terminated strings and 4-byte alignment over a byte view.
use vstd::prelude::*;

verus! {

/// The value of `s` read as an unsigned big-endian number.
pub open spec fn be_value(s: Seq<u8>) -> nat
    decreases s.len(),
{
    if s.len() == 0 {
        0
    } else {
        (be_value(s.drop_last()) * 256 + s.last()) as nat
    }
}

/// The big-endian number made of the `width` bytes of `s` that start at `at`.
pub open spec fn be_at(s: Seq<u8>, at: int, width: int) -> nat {
    be_value(s.subrange(at, at + width))
}

proof fn lemma_be_value_bound(s: Seq<u8>)
    ensures
        be_value(s) < pow256(s.len()),
    decreases s.len(),
{
    if s.len() > 0 {
        lemma_be_value_bound(s.drop_last());
        assert(be_value(s.drop_last()) * 256 + s.last() < pow256((s.len() - 1) as nat) * 256)
            by (nonlinear_arith)
            requires
                be_value(s.drop_last()) < pow256((s.len() - 1) as nat),
                s.last() < 256,
        ;
    }
}

/// 256 to the power `n`.
pub open spec fn pow256(n: nat) -> nat
    decreases n,
{
    if n == 0 {
        1
    } else {
        pow256((n - 1) as nat) * 256
    }
}

/// Decodes the big-endian 32-bit word stored at `bytes[at..at + 4]`.
pub fn read_big_endian(bytes: &[u8], at: usize) -> (r: u32)
    requires
        at + 4 <= bytes@.len(),
    ensures
        r == be_at(bytes@, at as int, 4),
{
    let len = bytes.len();
    let mut result: u32 = 0;
    let mut i: usize = 0;
    while i < 4
        invariant
            i <= 4,
            at + 4 <= len,
            len == bytes@.len(),
            result == be_at(bytes@, at as int, i as int),
        decreases 4 - i,
    {
        let b = bytes[at + i];
        proof {
            let s = bytes@.subrange(at as int, at + i + 1);
            assert(s.drop_last() =~= bytes@.subrange(at as int, at + i));
            lemma_be_value_bound(s.drop_last());
            reveal_with_fuel(pow256, 4);
        }
        let shifted = result << 8u32;
        assert(shifted == result * 256 && (shifted | b as u32) == shifted + b) by (bit_vector)
            requires
                result < 0x100_0000,
                shifted == result << 8u32,
        ;
        result = shifted | b as u32;
        i = i + 1;
    }
    result
}

/// Decodes the big-endian 16-bit word stored at `bytes[at..at + 2]`.
pub fn read_big_endian_u16(bytes: &[u8], at: usize) -> (r: u16)
    requires
        at + 2 <= bytes@.len(),
    ensures
        r == be_at(bytes@, at as int, 2),
{
    let len = bytes.len();
    let mut result: u16 = 0;
    let mut i: usize = 0;
    while i < 2
        invariant
            i <= 2,
            at + 2 <= len,
            len == bytes@.len(),
            result == be_at(bytes@, at as int, i as int),
        decreases 2 - i,
    {
        let b = bytes[at + i];
        proof {
            let s = bytes@.subrange(at as int, at + i + 1);
            assert(s.drop_last() =~= bytes@.subrange(at as int, at + i));
            lemma_be_value_bound(s.drop_last());
            reveal_with_fuel(pow256, 2);
        }
        let shifted = result << 8u16;
        assert(shifted == result * 256 && (shifted | b as u16) == shifted + b) by (bit_vector)
            requires
                result < 0x100,
                shifted == result << 8u16,
        ;
        result = shifted | b as u16;
        i = i + 1;
    }
    result
}

/// Decodes the big-endian 64-bit word stored at `bytes[at..at + 8]`.
pub fn read_big_endian_u64(bytes: &[u8], at: usize) -> (r: u64)
    requires
        at + 8 <= bytes@.len(),
    ensures
        r == be_at(bytes@, at as int, 8),
{
    let len = bytes.len();
    let mut result: u64 = 0;
    let mut i: usize = 0;
    while i < 8
        invariant
            i <= 8,
            at + 8 <= len,
            len == bytes@.len(),
            result == be_at(bytes@, at as int, i as int),
        decreases 8 - i,
    {
        let b = bytes[at + i];
        proof {
            let s = bytes@.subrange(at as int, at + i + 1);
            assert(s.drop_last() =~= bytes@.subrange(at as int, at + i));
            lemma_be_value_bound(s.drop_last());
            reveal_with_fuel(pow256, 8);
        }
        let shifted = result << 8u64;
        assert(shifted == result * 256 && (shifted | b as u64) == shifted + b) by (bit_vector)
            requires
                result < 0x100_0000_0000_0000,
                shifted == result << 8u64,
        ;
        result = shifted | b as u64;
        i = i + 1;
    }
    result
}

/// The longest string that the bounded reader scans, terminator excluded.
pub const MAX_STR_LEN: usize = 256;

/// `n` is where the string that starts at `start` ends: `s[start + n]` is its
/// terminator, it comes within the first `max` bytes, and no byte before it is null.
pub open spec fn is_terminated_len(s: Seq<u8>, start: int, max: int, n: int) -> bool {
    &&& 0 <= n < max
    &&& start + n < s.len()
    &&& s[start + n] == 0
    &&& forall|k: int| start <= k < start + n ==> s[k] != 0
}

/// No null byte lies among the first `max` bytes of `s` from `start` on.
pub open spec fn unterminated(s: Seq<u8>, start: int, max: int) -> bool {
    forall|k: int| start <= k < start + max && k < s.len() ==> s[k] != 0
}

/// Length of the string that starts at `start` if its terminator comes within
/// the first `max` bytes of `s`.
pub open spec fn bounded_len(s: Seq<u8>, start: int, max: int) -> Option<int> {
    if exists|n: int| is_terminated_len(s, start, max, n) {
        Some(choose|n: int| is_terminated_len(s, start, max, n))
    } else {
        None
    }
}

proof fn lemma_terminated_len_unique(s: Seq<u8>, start: int, max: int, n: int, m: int)
    requires
        is_terminated_len(s, start, max, n),
        is_terminated_len(s, start, max, m),
    ensures
        n == m,
{
    if n < m {
        assert(s[start + n] != 0);
    } else if m < n {
        assert(s[start + m] != 0);
    }
}

/// Length of the null-terminated string that starts at `bytes[start]`, if its
/// terminator lies within the first `max_len` bytes and within the view; `None`
/// where the string is not terminated there.
pub fn strnlen(bytes: &[u8], start: usize, max_len: usize) -> (r: Option<usize>)
    ensures
        match r {
            Some(n) => is_terminated_len(bytes@, start as int, max_len as int, n as int),
            None => unterminated(bytes@, start as int, max_len as int),
        },
        match bounded_len(bytes@, start as int, max_len as int) {
            Some(n) => r == Some(n as usize),
            None => r.is_none(),
        },
{
    let len = bytes.len();
    if start >= len {
        proof {
            assert(!exists|n: int| is_terminated_len(bytes@, start as int, max_len as int, n));
        }
        return None;
    }
    let mut i: usize = 0;
    while i < max_len && i < len - start && bytes[start + i] != 0
        invariant
            start < len,
            len == bytes@.len(),
            i <= max_len,
            i <= len - start,
            forall|k: int| start <= k < start + i ==> bytes@[k] != 0,
        decreases max_len - i,
    {
        i = i + 1;
    }
    if i == max_len || i == len - start {
        proof {
            if exists|n: int| is_terminated_len(bytes@, start as int, max_len as int, n) {
                let n = choose|n: int| is_terminated_len(bytes@, start as int, max_len as int, n);
                assert(bytes@[start + n] != 0);
            }
        }
        None
    } else {
        proof {
            assert(is_terminated_len(bytes@, start as int, max_len as int, i as int));
            let n = choose|n: int| is_terminated_len(bytes@, start as int, max_len as int, n);
            lemma_terminated_len_unique(bytes@, start as int, max_len as int, n, i as int);
        }
        Some(i)
    }
}

/// The least multiple of 4 that is not below `offset`.
pub open spec fn align4(offset: int) -> int {
    (offset + 3) / 4 * 4
}

/// Rounds `offset` up to the next 4-byte boundary; an aligned offset stays as it is.
pub fn next_four_byte_align(offset: usize) -> (r: usize)
    requires
        offset + 3 <= usize::MAX,
    ensures
        r == align4(offset as int),
        r % 4 == 0,
        offset <= r < offset + 4,
{
    let up: usize = offset + 3;
    let r = up & !3usize;
    assert(r == up / 4 * 4 && r % 4 == 0 && r <= up && up < r + 4) by (bit_vector)
        requires
            r == up & !3usize,
    ;
    r
}

} // verus!
