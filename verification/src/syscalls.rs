//! Built-in syscalls callable from guest bytecode.
//!
//! Every syscall satisfies one uniform invocation contract: five 64-bit
//! integer arguments (unused positions are ignored, never validated),
//! read access to the address-translation service for the duration of the
//! call, an optional private context owned by the instance, and one
//! output slot that the invocation writes exactly once — either a success
//! value or a typed failure, never both. No guest address is
//! dereferenced without a prior successful translation for the exact
//! intent and length used.

use vstd::arithmetic::div_mod::{
    lemma_fundamental_div_mod, lemma_fundamental_div_mod_converse, lemma_small_mod,
};
use vstd::arithmetic::power::pow;
use vstd::prelude::*;

use std::io::Write;

use crate::error::{AccessType, EbpfError, SyscallResult};
use crate::memory::{
    byte_at, mapped, mapping_wf, same_layout, valid_access, writable_at, MemoryMapping, RegionView,
};
use crate::memory::{lemma_same_layout_mapped, lemma_valid_access_bytes};

verus! {

/// Conventional dispatch-table index of the diagnostic-print syscall.
pub const BPF_TRACE_PRINTK_IDX: u32 = 6;

/// Private context of a stateful syscall instance.
pub type BpfSyscallContext = u64;

/// The mask every byte of an obfuscated range is XORed with.
pub const FROB_MASK: u8 = 0x2a;

/// Sentinel a stateful syscall's context must hold when it is invoked.
pub const EXPECTED_CONTEXT: u64 = 42;

/// Sentinel the context holds after one invocation.
pub const UPDATED_CONTEXT: u64 = 84;

/// The uniform invocation contract every syscall satisfies: what an
/// instance demands of its arguments and of the mapping, and what one
/// synchronous invocation does to the instance, the mapping and the
/// output slot.
pub trait SyscallObject: Sized {
    /// When an invocation with these arguments over this mapping is
    /// permitted.
    spec fn call_req(
        &self,
        arg1: u64,
        arg2: u64,
        arg3: u64,
        arg4: u64,
        arg5: u64,
        memory_mapping: MemoryMapping,
    ) -> bool;

    /// How one invocation relates the instance, the mapping and the
    /// output slot after the call to their values before it.
    spec fn call_ens(
        &self,
        post: Self,
        arg1: u64,
        arg2: u64,
        arg3: u64,
        arg4: u64,
        arg5: u64,
        memory_mapping: MemoryMapping,
        memory_mapping_post: MemoryMapping,
        result: SyscallResult,
    ) -> bool;

    /// Invokes the syscall once, synchronously, writing the outcome into
    /// `result`.
    fn call(
        &mut self,
        arg1: u64,
        arg2: u64,
        arg3: u64,
        arg4: u64,
        arg5: u64,
        memory_mapping: &mut MemoryMapping,
        result: &mut SyscallResult,
    )
        requires
            old(self).call_req(arg1, arg2, arg3, arg4, arg5, *old(memory_mapping)),
        ensures
            old(self).call_ens(
                *final(self),
                arg1,
                arg2,
                arg3,
                arg4,
                arg5,
                *old(memory_mapping),
                *final(memory_mapping),
                *final(result),
            ),
    ;
}

// ---------------------------------------------------------------------
// Diagnostic print
// ---------------------------------------------------------------------

/// How many hexadecimal digits the value prints as: one for zero, else
/// one per nibble down from the most significant nonzero one.
pub open spec fn nibbles(x: u64) -> nat
    decreases x,
{
    if x < 16 {
        1
    } else {
        (1 + nibbles(x / 16)) as nat
    }
}

/// Byte count the diagnostic-print syscall reports: the fixed text
/// `"BpfTracePrintf: 0x, 0x, 0x\n"` plus the digits of the three printed
/// values.
pub open spec fn trace_printf_bytes(arg3: u64, arg4: u64, arg5: u64) -> int {
    27 + nibbles(arg3) as int + nibbles(arg4) as int + nibbles(arg5) as int
}

/// A value below `16^k` prints as at most `k` hexadecimal digits.
proof fn lemma_nibbles_bound(x: u64, k: nat)
    requires
        1 <= k,
        (x as int) < pow(16, k),
    ensures
        nibbles(x) <= k,
    decreases k,
{
    if x >= 16 {
        reveal(pow);
        assert(pow(16, 1) == 16) by {
            reveal_with_fuel(pow, 2);
        }
        assert(k >= 2);
        let m = pow(16, (k - 1) as nat);
        assert(pow(16, k) == 16 * m);
        lemma_fundamental_div_mod(x as int, 16);
        assert((x as int) / 16 < m);
        assert(((x / 16) as int) < m);
        lemma_nibbles_bound(x / 16, (k - 1) as nat);
    }
}

/// Counts the hexadecimal digits of `x`.
fn hex_digit_count(x: u64) -> (n: u64)
    ensures
        n == nibbles(x),
        1 <= n <= 16,
    decreases x,
{
    if x < 16 {
        1
    } else {
        proof {
            assert(pow(16, 15) == 0x1000_0000_0000_0000) by {
                reveal_with_fuel(pow, 16);
            }
            lemma_fundamental_div_mod(x as int, 16);
            lemma_nibbles_bound(x / 16, 15);
        }
        let m = hex_digit_count(x / 16);
        m + 1
    }
}

/// Relies on the `writeln` macro over `std::io::stdout` for the
/// diagnostic sink; write failures are not surfaced.
#[verifier::external_body]
fn emit_trace_printf(arg3: u64, arg4: u64, arg5: u64) {
    let _ = writeln!(std::io::stdout(), "BpfTracePrintf: {:#x}, {:#x}, {:#x}", arg3, arg4, arg5);
}

/// Prints its last three arguments as hexadecimal to the diagnostic
/// sink; the first two arguments are unused. Returns the byte count
/// computed analytically from the operand magnitudes by the digit-count
/// formula, independent of the emitted text.
pub struct BpfTracePrintf {}

impl BpfTracePrintf {
    /// Builds an instance; the context argument is unused.
    pub fn init<C>(_unused: C) -> (r: Box<BpfTracePrintf>)
        ensures
            *r == (BpfTracePrintf {}),
    {
        Box::new(BpfTracePrintf {})
    }
}

impl SyscallObject for BpfTracePrintf {
    open spec fn call_req(
        &self,
        arg1: u64,
        arg2: u64,
        arg3: u64,
        arg4: u64,
        arg5: u64,
        memory_mapping: MemoryMapping,
    ) -> bool {
        true
    }

    open spec fn call_ens(
        &self,
        post: Self,
        arg1: u64,
        arg2: u64,
        arg3: u64,
        arg4: u64,
        arg5: u64,
        memory_mapping: MemoryMapping,
        memory_mapping_post: MemoryMapping,
        result: SyscallResult,
    ) -> bool {
        memory_mapping_post == memory_mapping && result == Ok::<u64, EbpfError>(
            trace_printf_bytes(arg3, arg4, arg5) as u64,
        )
    }

    fn call(
        &mut self,
        arg1: u64,
        arg2: u64,
        arg3: u64,
        arg4: u64,
        arg5: u64,
        memory_mapping: &mut MemoryMapping,
        result: &mut SyscallResult,
    ) {
        emit_trace_printf(arg3, arg4, arg5);
        let n3 = hex_digit_count(arg3);
        let n4 = hex_digit_count(arg4);
        let n5 = hex_digit_count(arg5);
        *result = Ok(27 + n3 + n4 + n5);
    }
}

// ---------------------------------------------------------------------
// Byte gather
// ---------------------------------------------------------------------

/// Packs the low byte of each argument into one 64-bit value, at bit
/// offsets 32, 24, 16, 8 and 0 respectively.
pub open spec fn gather_spec(arg1: u64, arg2: u64, arg3: u64, arg4: u64, arg5: u64) -> u64 {
    ((arg1 & 0xff) << 32) | ((arg2 & 0xff) << 24) | ((arg3 & 0xff) << 16) | ((arg4 & 0xff) << 8)
        | (arg5 & 0xff)
}

/// Assembles five bytes into a single value: the low byte of each
/// argument, from most to least significant. Performs no translation.
pub struct BpfGatherBytes {}

impl BpfGatherBytes {
    /// Builds an instance; the context argument is unused.
    pub fn init<C>(_unused: C) -> (r: Box<BpfGatherBytes>)
        ensures
            *r == (BpfGatherBytes {}),
    {
        Box::new(BpfGatherBytes {})
    }
}

impl SyscallObject for BpfGatherBytes {
    open spec fn call_req(
        &self,
        arg1: u64,
        arg2: u64,
        arg3: u64,
        arg4: u64,
        arg5: u64,
        memory_mapping: MemoryMapping,
    ) -> bool {
        true
    }

    open spec fn call_ens(
        &self,
        post: Self,
        arg1: u64,
        arg2: u64,
        arg3: u64,
        arg4: u64,
        arg5: u64,
        memory_mapping: MemoryMapping,
        memory_mapping_post: MemoryMapping,
        result: SyscallResult,
    ) -> bool {
        memory_mapping_post == memory_mapping && result == Ok::<u64, EbpfError>(
            gather_spec(arg1, arg2, arg3, arg4, arg5),
        )
    }

    fn call(
        &mut self,
        arg1: u64,
        arg2: u64,
        arg3: u64,
        arg4: u64,
        arg5: u64,
        memory_mapping: &mut MemoryMapping,
        result: &mut SyscallResult,
    ) {
        *result = Ok(
            ((arg1 & 0xff) << 32) | ((arg2 & 0xff) << 24) | ((arg3 & 0xff) << 16) | ((arg4 & 0xff)
                << 8) | (arg5 & 0xff),
        );
    }
}

// ---------------------------------------------------------------------
// Memory obfuscate
// ---------------------------------------------------------------------

/// The obfuscation of one byte.
pub open spec fn frob_byte(b: u8) -> u8 {
    b ^ FROB_MASK
}

/// `a` lies in `[addr, addr + len)`.
pub open spec fn in_frob_range(a: u64, addr: u64, len: u64) -> bool {
    addr <= a && (a as int) < (addr as int) + (len as int)
}

/// One successful obfuscation pass over `[addr, addr + len)`: the layout
/// is kept, every byte in the range is XORed with the mask, every byte
/// outside it is kept.
pub open spec fn frobbed(
    s0: Seq<RegionView>,
    s1: Seq<RegionView>,
    addr: u64,
    len: u64,
) -> bool {
    same_layout(s1, s0) && forall|a: u64|
        mapped(s0, a) ==> #[trigger] byte_at(s1, a) == (if in_frob_range(a, addr, len) {
            frob_byte(byte_at(s0, a))
        } else {
            byte_at(s0, a)
        })
}

/// Obfuscating one byte twice restores it.
pub proof fn lemma_frob_involution(b: u8)
    ensures
        frob_byte(frob_byte(b)) == b,
{
    assert((b ^ 0x2au8) ^ 0x2au8 == b) by (bit_vector);
}

/// Memory obfuscate is an involution: two successful passes over the
/// same range restore every mapped byte of the mapping.
pub proof fn lemma_mem_frob_involution(
    s0: Seq<RegionView>,
    s1: Seq<RegionView>,
    s2: Seq<RegionView>,
    addr: u64,
    len: u64,
)
    requires
        frobbed(s0, s1, addr, len),
        frobbed(s1, s2, addr, len),
    ensures
        same_layout(s2, s0),
        forall|a: u64| mapped(s0, a) ==> #[trigger] byte_at(s2, a) == byte_at(s0, a),
{
    lemma_same_layout_mapped(s1, s0);
    assert forall|a: u64| mapped(s0, a) implies #[trigger] byte_at(s2, a) == byte_at(s0, a) by {
        assert(mapped(s1, a));
        lemma_frob_involution(byte_at(s0, a));
    }
}

/// Obfuscates a guest memory range in place: XORs every byte of
/// `[arg1, arg1 + arg2)` with the fixed mask, through a single `Store`
/// translation of the whole range requested up front. A failed
/// translation leaves the mapping completely unmodified. Returns 0;
/// arguments 3 to 5 are unused.
pub struct BpfMemFrob {}

impl BpfMemFrob {
    /// Builds an instance; the context argument is unused.
    pub fn init<C>(_unused: C) -> (r: Box<BpfMemFrob>)
        ensures
            *r == (BpfMemFrob {}),
    {
        Box::new(BpfMemFrob {})
    }
}

impl SyscallObject for BpfMemFrob {
    open spec fn call_req(
        &self,
        arg1: u64,
        arg2: u64,
        arg3: u64,
        arg4: u64,
        arg5: u64,
        memory_mapping: MemoryMapping,
    ) -> bool {
        memory_mapping.wf()
    }

    open spec fn call_ens(
        &self,
        post: Self,
        arg1: u64,
        arg2: u64,
        arg3: u64,
        arg4: u64,
        arg5: u64,
        memory_mapping: MemoryMapping,
        memory_mapping_post: MemoryMapping,
        result: SyscallResult,
    ) -> bool {
        memory_mapping_post.wf() && if valid_access(
            memory_mapping@,
            AccessType::Store,
            arg1,
            arg2,
        ) {
            result == Ok::<u64, EbpfError>(0) && frobbed(
                memory_mapping@,
                memory_mapping_post@,
                arg1,
                arg2,
            )
        } else {
            result == Err::<u64, EbpfError>(
                EbpfError::AccessViolation(AccessType::Store, arg1, arg2),
            ) && memory_mapping_post == memory_mapping
        }
    }

    fn call(
        &mut self,
        arg1: u64,
        arg2: u64,
        arg3: u64,
        arg4: u64,
        arg5: u64,
        memory_mapping: &mut MemoryMapping,
        result: &mut SyscallResult,
    ) {
        let ghost s0 = memory_mapping@;
        match memory_mapping.translate(AccessType::Store, arg1, arg2) {
            Err(e) => {
                *result = Err(e);
                return;
            },
            Ok(_) => {},
        }
        proof {
            lemma_valid_access_bytes(s0, AccessType::Store, arg1, arg2);
        }
        let mut i: u64 = 0;
        while i < arg2
            invariant
                memory_mapping.wf(),
                same_layout(memory_mapping@, s0),
                mapping_wf(s0),
                valid_access(s0, AccessType::Store, arg1, arg2),
                (arg1 as int) + (arg2 as int) <= 0x1_0000_0000_0000_0000,
                i <= arg2,
                forall|a: u64|
                    mapped(s0, a) ==> #[trigger] byte_at(memory_mapping@, a) == (if arg1 <= a
                        && (a as int) < (arg1 as int) + (i as int) {
                        frob_byte(byte_at(s0, a))
                    } else {
                        byte_at(s0, a)
                    }),
            decreases arg2 - i,
        {
            let a = arg1 + i;
            proof {
                lemma_valid_access_bytes(s0, AccessType::Store, arg1, arg2);
                assert(mapped(s0, (arg1 + i as int) as u64));
                assert(writable_at(s0, (arg1 + i as int) as u64));
                lemma_same_layout_mapped(memory_mapping@, s0);
            }
            let ghost prev = memory_mapping@;
            let b = memory_mapping.read_byte(a);
            memory_mapping.write_byte(a, b ^ FROB_MASK);
            proof {
                lemma_same_layout_mapped(prev, s0);
                assert forall|x: u64| mapped(s0, x) implies #[trigger] byte_at(memory_mapping@, x)
                    == (if arg1 <= x && (x as int) < (arg1 as int) + (i as int) + 1 {
                    frob_byte(byte_at(s0, x))
                } else {
                    byte_at(s0, x)
                }) by {
                    if x == a {
                        assert(byte_at(memory_mapping@, x) == frob_byte(byte_at(s0, x)));
                    } else {
                        assert(mapped(prev, x));
                        assert(byte_at(memory_mapping@, x) == byte_at(prev, x));
                    }
                }
            }
            i += 1;
        }
        *result = Ok(0);
    }
}

// ---------------------------------------------------------------------
// Guest string compare
// ---------------------------------------------------------------------

/// The guest address one past `a`, wrapping around the address space.
pub open spec fn wrap_inc(a: u64) -> u64 {
    if a == u64::MAX {
        0u64
    } else {
        (a + 1) as u64
    }
}

/// The guest address `i` past `a`, wrapping around the address space.
pub open spec fn addr_plus(a: u64, i: nat) -> u64
    decreases i,
{
    if i == 0 {
        a
    } else {
        wrap_inc(addr_plus(a, (i - 1) as nat))
    }
}

/// Stepping `i` addresses past `a` lands on `(a + i)` reduced modulo the
/// size of the address space.
pub proof fn lemma_addr_plus_mod(a: u64, i: nat)
    ensures
        addr_plus(a, i) == ((a + i) % 0x1_0000_0000_0000_0000) as u64,
    decreases i,
{
    let m: int = 0x1_0000_0000_0000_0000;
    if i == 0 {
        lemma_small_mod(a as nat, m as nat);
    } else {
        lemma_addr_plus_mod(a, (i - 1) as nat);
        let p = addr_plus(a, (i - 1) as nat);
        let x: int = a + i - 1;
        lemma_fundamental_div_mod(x, m);
        if p == u64::MAX {
            lemma_fundamental_div_mod_converse(x + 1, m, x / m + 1, 0);
        } else {
            lemma_fundamental_div_mod_converse(x + 1, m, x / m, p + 1);
        }
    }
}

/// The comparison walk continues past step `i`: both bytes are mapped,
/// equal and nonzero.
pub open spec fn strcmp_step_ok(s: Seq<RegionView>, a: u64, b: u64, i: nat) -> bool {
    let pa = addr_plus(a, i);
    let pb = addr_plus(b, i);
    mapped(s, pa) && mapped(s, pb) && byte_at(s, pa) == byte_at(s, pb) && byte_at(s, pa) != 0
}

/// The first `n` steps of the comparison walk all continue.
pub open spec fn strcmp_walk(s: Seq<RegionView>, a: u64, b: u64, n: nat) -> bool {
    forall|i: nat| i < n ==> #[trigger] strcmp_step_ok(s, a, b, i)
}

/// Unsigned magnitude of the difference of two bytes: larger minus
/// smaller.
pub open spec fn byte_diff(p: u8, q: u8) -> u64 {
    if p >= q {
        (p - q) as u64
    } else {
        (q - p) as u64
    }
}

/// The walk stops at step `n` with value `v`: every earlier step
/// continued, both bytes at `n` are mapped, a mismatch or a zero
/// terminator stands there, and `v` is the magnitude of the difference
/// (zero exactly on equality).
pub open spec fn strcmp_ends(s: Seq<RegionView>, a: u64, b: u64, n: nat, v: u64) -> bool {
    let pa = addr_plus(a, n);
    let pb = addr_plus(b, n);
    strcmp_walk(s, a, b, n) && mapped(s, pa) && mapped(s, pb) && (byte_at(s, pa) != byte_at(s, pb)
        || byte_at(s, pa) == 0) && v == byte_diff(byte_at(s, pa), byte_at(s, pb))
}

/// The degenerate walk that never stops: every byte of the whole
/// wrapped address space is mapped on both sides, equal and nonzero, so
/// the strings agree at every position and no terminator exists.
pub open spec fn strcmp_full_cycle(s: Seq<RegionView>, a: u64, b: u64) -> bool {
    strcmp_walk(s, a, b, 0x1_0000_0000_0000_0000nat)
}

/// The walk fails at step `n` with error `e`: every earlier step
/// continued, and the first of the two per-byte translations of step `n`
/// to be requested is not mapped; `e` carries exactly that byte's
/// address.
pub open spec fn strcmp_fails(s: Seq<RegionView>, a: u64, b: u64, n: nat, e: EbpfError) -> bool {
    let pa = addr_plus(a, n);
    let pb = addr_plus(b, n);
    strcmp_walk(s, a, b, n) && ((!mapped(s, pa) && e == EbpfError::AccessViolation(
        AccessType::Load,
        pa,
        1,
    )) || (mapped(s, pa) && !mapped(s, pb) && e == EbpfError::AccessViolation(
        AccessType::Load,
        pb,
        1,
    )))
}

/// C-like `strcmp` over guest memory: returns 0 exactly when the two
/// strings are equal up to a zero terminator, else the unsigned
/// magnitude of the first byte difference. Either address equal to the
/// null sentinel short-circuits to the maximum unsigned value before any
/// translation. Each byte's translation is requested anew, so a string
/// running past its mapped region fails exactly at the offending byte.
pub struct BpfStrCmp {}

impl BpfStrCmp {
    /// Builds an instance; the context argument is unused.
    pub fn init<C>(_unused: C) -> (r: Box<BpfStrCmp>)
        ensures
            *r == (BpfStrCmp {}),
    {
        Box::new(BpfStrCmp {})
    }
}

impl SyscallObject for BpfStrCmp {
    open spec fn call_req(
        &self,
        arg1: u64,
        arg2: u64,
        arg3: u64,
        arg4: u64,
        arg5: u64,
        memory_mapping: MemoryMapping,
    ) -> bool {
        memory_mapping.wf()
    }

    open spec fn call_ens(
        &self,
        post: Self,
        arg1: u64,
        arg2: u64,
        arg3: u64,
        arg4: u64,
        arg5: u64,
        memory_mapping: MemoryMapping,
        memory_mapping_post: MemoryMapping,
        result: SyscallResult,
    ) -> bool {
        memory_mapping_post == memory_mapping && if arg1 == 0 || arg2 == 0 {
            result == Ok::<u64, EbpfError>(u64::MAX)
        } else {
            match result {
                Ok(v) => (exists|n: nat|
                    #[trigger] strcmp_ends(memory_mapping@, arg1, arg2, n, v)) || (
                strcmp_full_cycle(memory_mapping@, arg1, arg2) && v == 0),
                Err(e) => exists|n: nat| #[trigger] strcmp_fails(memory_mapping@, arg1, arg2, n, e),
            }
        }
    }

    fn call(
        &mut self,
        arg1: u64,
        arg2: u64,
        arg3: u64,
        arg4: u64,
        arg5: u64,
        memory_mapping: &mut MemoryMapping,
        result: &mut SyscallResult,
    ) {
        if arg1 == 0 || arg2 == 0 {
            *result = Ok(u64::MAX);
            return;
        }
        let ghost s = memory_mapping@;
        let mut ca: u64 = arg1;
        let mut cb: u64 = arg2;
        let ghost mut i: nat = 0;
        loop
            invariant
                memory_mapping.wf(),
                *memory_mapping == *old(memory_mapping),
                s == memory_mapping@,
                arg1 != 0,
                arg2 != 0,
                i < 0x1_0000_0000_0000_0000nat,
                ca == addr_plus(arg1, i),
                cb == addr_plus(arg2, i),
                strcmp_walk(s, arg1, arg2, i),
            decreases 0x1_0000_0000_0000_0000 - i,
        {
            match memory_mapping.load_byte(ca) {
                Err(e) => {
                    *result = Err(e);
                    proof {
                        assert((*result)->Err_0 == e);
                        assert(strcmp_fails(s, arg1, arg2, i, (*result)->Err_0));
                    }
                    return;
                },
                Ok(av) => {
                    match memory_mapping.load_byte(cb) {
                        Err(e) => {
                            *result = Err(e);
                            proof {
                                assert((*result)->Err_0 == e);
                                assert(strcmp_fails(s, arg1, arg2, i, (*result)->Err_0));
                            }
                            return;
                        },
                        Ok(bv) => {
                            if av != bv || av == 0 {
                                let d = if av >= bv {
                                    av - bv
                                } else {
                                    bv - av
                                };
                                *result = Ok(d as u64);
                                proof {
                                    assert((*result)->Ok_0 == d as u64);
                                    assert(strcmp_ends(s, arg1, arg2, i, (*result)->Ok_0));
                                }
                                return;
                            }
                            proof {
                                assert(strcmp_step_ok(s, arg1, arg2, i));
                                assert forall|k: nat| k < i + 1 implies #[trigger] strcmp_step_ok(
                                    s,
                                    arg1,
                                    arg2,
                                    k,
                                ) by {
                                    if k < i {
                                        assert(strcmp_walk(s, arg1, arg2, i));
                                    }
                                }
                                i = i + 1;
                            }
                            ca = if ca == u64::MAX {
                                0
                            } else {
                                ca + 1
                            };
                            cb = if cb == u64::MAX {
                                0
                            } else {
                                cb + 1
                            };
                            if ca == arg1 {
                                *result = Ok(0);
                                proof {
                                    lemma_addr_plus_mod(arg1, i);
                                    lemma_fundamental_div_mod(
                                        arg1 + i,
                                        0x1_0000_0000_0000_0000,
                                    );
                                    assert(i == 0x1_0000_0000_0000_0000nat);
                                    assert((*result)->Ok_0 == 0u64);
                                    assert(strcmp_full_cycle(s, arg1, arg2));
                                }
                                return;
                            }
                            proof {
                                lemma_addr_plus_mod(arg1, i);
                                lemma_fundamental_div_mod(arg1 + i, 0x1_0000_0000_0000_0000);
                                assert(i < 0x1_0000_0000_0000_0000nat);
                            }
                        },
                    }
                },
            }
        }
    }
}

// ---------------------------------------------------------------------
// Guest string log
// ---------------------------------------------------------------------

/// Whether a byte sequence is well-formed UTF-8; the exact criterion is
/// the one `core::str::from_utf8` decides.
pub uninterp spec fn utf8_ok(bytes: Seq<u8>) -> bool;

/// Relies on `core::str::from_utf8`: it succeeds exactly on well-formed
/// UTF-8, and the outcome depends on the bytes alone.
#[verifier::external_body]
fn decode_utf8(bytes: &Vec<u8>) -> (r: Option<String>)
    ensures
        r is Some <==> utf8_ok(bytes@),
{
    core::str::from_utf8(bytes.as_slice()).ok().map(|s| s.to_string())
}

/// Relies on the `writeln` macro over `std::io::stdout` for the
/// diagnostic sink; write failures are not surfaced.
#[verifier::external_body]
fn emit_log_line(message: &str) {
    let _ = writeln!(std::io::stdout(), "log: {}", message);
}

/// Logs `arg2` guest bytes at `arg1` as text: one `Load` translation of
/// the full length, then the bytes are decoded as UTF-8, a fixed
/// placeholder standing in for malformed text — bad text never fails the
/// call. Returns 0 on success; arguments 3 to 5 are unused.
pub struct BpfSyscallString {}

impl BpfSyscallString {
    /// Builds an instance; the context argument is unused.
    pub fn init<C>(_unused: C) -> (r: Box<BpfSyscallString>)
        ensures
            *r == (BpfSyscallString {}),
    {
        Box::new(BpfSyscallString {})
    }
}

impl SyscallObject for BpfSyscallString {
    open spec fn call_req(
        &self,
        arg1: u64,
        arg2: u64,
        arg3: u64,
        arg4: u64,
        arg5: u64,
        memory_mapping: MemoryMapping,
    ) -> bool {
        memory_mapping.wf()
    }

    open spec fn call_ens(
        &self,
        post: Self,
        arg1: u64,
        arg2: u64,
        arg3: u64,
        arg4: u64,
        arg5: u64,
        memory_mapping: MemoryMapping,
        memory_mapping_post: MemoryMapping,
        result: SyscallResult,
    ) -> bool {
        memory_mapping_post == memory_mapping && if valid_access(
            memory_mapping@,
            AccessType::Load,
            arg1,
            arg2,
        ) {
            result == Ok::<u64, EbpfError>(0)
        } else {
            result == Err::<u64, EbpfError>(
                EbpfError::AccessViolation(AccessType::Load, arg1, arg2),
            )
        }
    }

    fn call(
        &mut self,
        arg1: u64,
        arg2: u64,
        arg3: u64,
        arg4: u64,
        arg5: u64,
        memory_mapping: &mut MemoryMapping,
        result: &mut SyscallResult,
    ) {
        match memory_mapping.read_range(arg1, arg2) {
            Err(e) => {
                *result = Err(e);
            },
            Ok(buf) => {
                match decode_utf8(&buf) {
                    Some(message) => emit_log_line(message.as_str()),
                    None => emit_log_line("Invalid UTF-8 String"),
                }
                *result = Ok(0);
            },
        }
    }
}

// ---------------------------------------------------------------------
// Integer dump
// ---------------------------------------------------------------------

/// Relies on the `writeln` macro over `std::io::stdout` for the
/// diagnostic sink; write failures are not surfaced.
#[verifier::external_body]
fn emit_dump_u64(arg1: u64, arg2: u64, arg3: u64, arg4: u64, arg5: u64) {
    let _ = writeln!(
        std::io::stdout(),
        "dump_64: {:#x}, {:#x}, {:#x}, {:#x}, {:#x}",
        arg1,
        arg2,
        arg3,
        arg4,
        arg5,
    );
}

/// Prints all five arguments as hexadecimal to the diagnostic sink and
/// returns 0. Performs no translation.
pub struct BpfSyscallU64 {}

impl BpfSyscallU64 {
    /// Builds an instance; the context argument is unused.
    pub fn init<C>(_unused: C) -> (r: Box<BpfSyscallU64>)
        ensures
            *r == (BpfSyscallU64 {}),
    {
        Box::new(BpfSyscallU64 {})
    }
}

impl SyscallObject for BpfSyscallU64 {
    open spec fn call_req(
        &self,
        arg1: u64,
        arg2: u64,
        arg3: u64,
        arg4: u64,
        arg5: u64,
        memory_mapping: MemoryMapping,
    ) -> bool {
        true
    }

    open spec fn call_ens(
        &self,
        post: Self,
        arg1: u64,
        arg2: u64,
        arg3: u64,
        arg4: u64,
        arg5: u64,
        memory_mapping: MemoryMapping,
        memory_mapping_post: MemoryMapping,
        result: SyscallResult,
    ) -> bool {
        memory_mapping_post == memory_mapping && result == Ok::<u64, EbpfError>(0)
    }

    fn call(
        &mut self,
        arg1: u64,
        arg2: u64,
        arg3: u64,
        arg4: u64,
        arg5: u64,
        memory_mapping: &mut MemoryMapping,
        result: &mut SyscallResult,
    ) {
        emit_dump_u64(arg1, arg2, arg3, arg4, arg5);
        *result = Ok(0);
    }
}

// ---------------------------------------------------------------------
// Context diagnostic
// ---------------------------------------------------------------------

/// Relies on the `writeln` macro over `std::io::stdout` for the
/// diagnostic sink; write failures are not surfaced.
#[verifier::external_body]
fn emit_context_trace(arg1: u64, arg2: u64, arg3: u64, arg4: u64, arg5: u64) {
    let _ = writeln!(
        std::io::stdout(),
        "SyscallWithContext: {:#x}, {:#x}, {:#x}, {:#x}, {:#x}",
        arg1,
        arg2,
        arg3,
        arg4,
        arg5,
    );
}

/// A syscall with private state: a single-owner, two-state context. On
/// entry the context must hold the expected sentinel — any other value
/// is a host-side contract violation, fatal rather than guest-visible,
/// and excluded here by precondition. The invocation prints all five
/// arguments, overwrites the context with the second sentinel and
/// returns 0.
pub struct SyscallWithContext {
    /// The instance's private context, persisting across its invocations.
    pub context: BpfSyscallContext,
}

impl SyscallWithContext {
    /// Builds an instance owning `context` as its initial private state.
    pub fn init(context: BpfSyscallContext) -> (r: Box<SyscallWithContext>)
        ensures
            r.context == context,
    {
        Box::new(SyscallWithContext { context })
    }
}

impl SyscallObject for SyscallWithContext {
    open spec fn call_req(
        &self,
        arg1: u64,
        arg2: u64,
        arg3: u64,
        arg4: u64,
        arg5: u64,
        memory_mapping: MemoryMapping,
    ) -> bool {
        self.context == EXPECTED_CONTEXT
    }

    open spec fn call_ens(
        &self,
        post: Self,
        arg1: u64,
        arg2: u64,
        arg3: u64,
        arg4: u64,
        arg5: u64,
        memory_mapping: MemoryMapping,
        memory_mapping_post: MemoryMapping,
        result: SyscallResult,
    ) -> bool {
        post.context == UPDATED_CONTEXT && memory_mapping_post == memory_mapping && result
            == Ok::<u64, EbpfError>(0)
    }

    fn call(
        &mut self,
        arg1: u64,
        arg2: u64,
        arg3: u64,
        arg4: u64,
        arg5: u64,
        memory_mapping: &mut MemoryMapping,
        result: &mut SyscallResult,
    ) {
        emit_context_trace(arg1, arg2, arg3, arg4, arg5);
        self.context = UPDATED_CONTEXT;
        *result = Ok(0);
    }
}

} // verus!

