use vstd::prelude::*;

verus! {

/// An instruction, identified by its binary opcode. Instructions outside the
/// single-byte space carry the sub-opcode that follows their prefix byte.
#[derive(Clone, Copy, Debug, PartialEq, Eq, Structural)]
pub enum Opcode {
    Plain(u8),
    /// Prefix `0xFB`: garbage-collection and typed-reference operations.
    Gc(u32),
    /// Prefix `0xFC`: saturating conversions, bulk memory and table operations.
    Misc(u32),
    /// Prefix `0xFD`: fixed-width SIMD.
    Simd(u32),
    /// Prefix `0xFE`: threads and atomics.
    Atomic(u32),
}

pub const PREFIX_GC: u8 = 0xFB;
pub const PREFIX_MISC: u8 = 0xFC;
pub const PREFIX_SIMD: u8 = 0xFD;
pub const PREFIX_ATOMIC: u8 = 0xFE;

/// The most bytes an unsigned LEB128 encoding of a 32-bit value may take.
pub const MAX_LEB_U32_BYTES: u32 = 5;

pub open spec fn pow128(n: nat) -> nat
    decreases n,
{
    if n == 0 {
        1
    } else {
        128 * pow128((n - 1) as nat)
    }
}

/// The value of the unsigned LEB128 number at the front of `s`, reading at
/// most `n` bytes; `None` where no terminating byte comes within them.
pub open spec fn leb_value(s: Seq<u8>, n: nat) -> Option<nat>
    decreases n,
{
    if n == 0 || s.len() == 0 {
        None
    } else if s[0] < 128 {
        Some(s[0] as nat)
    } else {
        match leb_value(s.drop_first(), (n - 1) as nat) {
            Some(v) => Some((s[0] - 128) as nat + 128 * v),
            None => None,
        }
    }
}

/// The 32-bit sub-opcode at the front of `s`, if it is well encoded.
pub open spec fn leb_u32(s: Seq<u8>) -> Option<u32> {
    match leb_value(s, MAX_LEB_U32_BYTES as nat) {
        Some(v) => if v <= u32::MAX {
            Some(v as u32)
        } else {
            None
        },
        None => None,
    }
}

/// The opcode of an instruction whose encoding starts `s`.
pub open spec fn opcode_spec(s: Seq<u8>) -> Option<Opcode> {
    if s.len() == 0 {
        None
    } else if PREFIX_GC <= s[0] <= PREFIX_ATOMIC {
        match leb_u32(s.drop_first()) {
            Some(code) => Some(
                if s[0] == PREFIX_GC {
                    Opcode::Gc(code)
                } else if s[0] == PREFIX_MISC {
                    Opcode::Misc(code)
                } else if s[0] == PREFIX_SIMD {
                    Opcode::Simd(code)
                } else {
                    Opcode::Atomic(code)
                },
            ),
            None => None,
        }
    } else {
        Some(Opcode::Plain(s[0]))
    }
}

proof fn lemma_pow128_monotone(a: nat, b: nat)
    requires
        a <= b,
    ensures
        pow128(a) <= pow128(b),
    decreases b,
{
    if a < b {
        lemma_pow128_monotone(a, (b - 1) as nat);
    }
}

proof fn lemma_leb_value_bound(s: Seq<u8>, n: nat)
    ensures
        leb_value(s, n) matches Some(v) ==> v < pow128(n),
    decreases n,
{
    if n > 0 && s.len() > 0 {
        let p = pow128((n - 1) as nat);
        lemma_pow128_monotone(0, (n - 1) as nat);
        if s[0] >= 128 {
            lemma_leb_value_bound(s.drop_first(), (n - 1) as nat);
            if let Some(w) = leb_value(s.drop_first(), (n - 1) as nat) {
                assert(128 * w + 128 <= 128 * p) by (nonlinear_arith)
                    requires
                        w < p,
                ;
            }
        }
    }
}

fn read_leb(s: &[u8], pos: usize, n: u32) -> (r: Option<u64>)
    requires
        pos <= s@.len(),
        n <= MAX_LEB_U32_BYTES,
    ensures
        r matches Some(v) ==> leb_value(s@.subrange(pos as int, s@.len() as int), n as nat)
            == Some(v as nat),
        r is None ==> leb_value(s@.subrange(pos as int, s@.len() as int), n as nat) is None,
    decreases n,
{
    let ghost rest = s@.subrange(pos as int, s@.len() as int);
    if n == 0 || pos == s.len() {
        return None;
    }
    let b = s[pos];
    if b < 128 {
        return Some(b as u64);
    }
    assert(rest.drop_first() =~= s@.subrange(pos + 1, s@.len() as int));
    match read_leb(s, pos + 1, n - 1) {
        Some(v) => {
            proof {
                lemma_leb_value_bound(rest.drop_first(), (n - 1) as nat);
                lemma_pow128_monotone((n - 1) as nat, 4);
                assert(pow128(0) == 1);
                assert(pow128(1) == 128);
                assert(pow128(2) == 16384);
                assert(pow128(3) == 2097152);
                assert(pow128(4) == 268435456);
            }
            Some((b - 128) as u64 + 128 * v)
        },
        None => None,
    }
}

/// Reads the opcode from the encoding of one instruction: the first byte, and
/// for a prefix byte the LEB128 sub-opcode after it.
pub fn opcode_from_bytes(s: &[u8]) -> (r: Option<Opcode>)
    ensures
        r == opcode_spec(s@),
{
    if s.len() == 0 {
        return None;
    }
    let b = s[0];
    if PREFIX_GC <= b && b <= PREFIX_ATOMIC {
        assert(s@.drop_first() =~= s@.subrange(1, s@.len() as int));
        match read_leb(s, 1, MAX_LEB_U32_BYTES) {
            Some(v) => {
                if v > u32::MAX as u64 {
                    return None;
                }
                let code = v as u32;
                if b == PREFIX_GC {
                    Some(Opcode::Gc(code))
                } else if b == PREFIX_MISC {
                    Some(Opcode::Misc(code))
                } else if b == PREFIX_SIMD {
                    Some(Opcode::Simd(code))
                } else {
                    Some(Opcode::Atomic(code))
                }
            },
            None => None,
        }
    } else {
        Some(Opcode::Plain(b))
    }
}

} // verus!
