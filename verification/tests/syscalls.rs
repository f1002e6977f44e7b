use rbpf_syscalls::error::{AccessType, EbpfError, SyscallResult};
use rbpf_syscalls::memory::{MemoryMapping, MemoryRegion};
use rbpf_syscalls::syscalls::{
    BpfGatherBytes, BpfMemFrob, BpfStrCmp, BpfSyscallString, BpfSyscallU64, BpfTracePrintf,
    SyscallObject, SyscallWithContext, EXPECTED_CONTEXT, UPDATED_CONTEXT,
};

fn writable_mapping(data: &[u8], base: u64) -> MemoryMapping {
    MemoryMapping::new(vec![MemoryRegion::new_writable(data.to_vec(), base)]).unwrap()
}

fn readonly_mapping(data: &[u8], base: u64) -> MemoryMapping {
    MemoryMapping::new(vec![MemoryRegion::new_readonly(data.to_vec(), base)]).unwrap()
}

fn empty_mapping() -> MemoryMapping {
    MemoryMapping::new(vec![]).unwrap()
}

fn bytes_at(mapping: &MemoryMapping, base: u64, len: usize) -> Vec<u8> {
    let mut out = Vec::new();
    for k in 0..len {
        out.push(mapping.load_byte(base + k as u64).unwrap());
    }
    out
}

#[test]
fn mem_frob_is_an_involution() {
    let original = [0x00u8, 0x00, 0x00, 0x00, 0x00, 0x11, 0x22, 0x33];
    let base = 0x1_0000_0000u64;
    let mut mapping = writable_mapping(&original, base);
    let mut frob = BpfMemFrob::init(0u64);
    let mut result: SyscallResult = Ok(0);

    frob.call(base, 8, 0, 0, 0, &mut mapping, &mut result);
    assert_eq!(result, Ok(0));
    assert_eq!(
        bytes_at(&mapping, base, 8),
        vec![0x2au8, 0x2a, 0x2a, 0x2a, 0x2a, 0x3b, 0x08, 0x19]
    );

    frob.call(base, 8, 0, 0, 0, &mut mapping, &mut result);
    assert_eq!(result, Ok(0));
    assert_eq!(bytes_at(&mapping, base, 8), original.to_vec());
}

#[test]
fn mem_frob_out_of_bounds_leaves_buffer_untouched() {
    let original = [0x10u8, 0x20, 0x30, 0x40, 0x50, 0x60, 0x70, 0x80];
    let base = 0x1_0000_0000u64;
    let mut mapping = writable_mapping(&original, base);
    let mut frob = BpfMemFrob::init(0u64);
    let mut result: SyscallResult = Ok(0);

    frob.call(base, 16, 0, 0, 0, &mut mapping, &mut result);
    assert_eq!(
        result,
        Err(EbpfError::AccessViolation(AccessType::Store, base, 16))
    );
    assert_eq!(bytes_at(&mapping, base, 8), original.to_vec());
}

#[test]
fn mem_frob_rejects_readonly_region() {
    let base = 0x1_0000_0000u64;
    let mut mapping = readonly_mapping(&[1, 2, 3, 4], base);
    let mut frob = BpfMemFrob::init(0u64);
    let mut result: SyscallResult = Ok(0);

    frob.call(base, 4, 0, 0, 0, &mut mapping, &mut result);
    assert_eq!(
        result,
        Err(EbpfError::AccessViolation(AccessType::Store, base, 4))
    );
    assert_eq!(bytes_at(&mapping, base, 4), vec![1, 2, 3, 4]);
}

#[test]
fn str_cmp_equal_strings_compare_as_zero() {
    let text = b"This is a string.\0";
    let base = 0x1_0000_0000u64;
    let mut mapping = readonly_mapping(text, base);
    let mut cmp = BpfStrCmp::init(0u64);
    let mut result: SyscallResult = Ok(1);

    cmp.call(base, base, 0, 0, 0, &mut mapping, &mut result);
    assert_eq!(result, Ok(0));
}

#[test]
fn str_cmp_different_strings_compare_as_nonzero() {
    let foo = b"This is a string.\0";
    let bar = b"This is another sting.\0";
    let va_foo = 0x1_0000_0000u64;
    let va_bar = 0x2_0000_0000u64;
    let mut mapping = MemoryMapping::new(vec![
        MemoryRegion::new_readonly(foo.to_vec(), va_foo),
        MemoryRegion::new_readonly(bar.to_vec(), va_bar),
    ])
    .unwrap();
    let mut cmp = BpfStrCmp::init(0u64);
    let mut result: SyscallResult = Ok(0);

    cmp.call(va_foo, va_bar, 0, 0, 0, &mut mapping, &mut result);
    assert_ne!(result, Ok(0));
    // First mismatch: ' ' (0x20) against 'n' (0x6e), reported as larger
    // minus smaller.
    assert_eq!(result, Ok((b'n' - b' ') as u64));
}

#[test]
fn str_cmp_null_argument_short_circuits_without_translation() {
    // An empty mapping can satisfy no translation at all, so reaching
    // u64::MAX shows the null check happens before any translation.
    let mut mapping = empty_mapping();
    let mut cmp = BpfStrCmp::init(0u64);

    let mut result: SyscallResult = Ok(0);
    cmp.call(0, 0x1_0000_0000, 0, 0, 0, &mut mapping, &mut result);
    assert_eq!(result, Ok(u64::MAX));

    let mut result: SyscallResult = Ok(0);
    cmp.call(0x1_0000_0000, 0, 0, 0, 0, &mut mapping, &mut result);
    assert_eq!(result, Ok(u64::MAX));
}

#[test]
fn str_cmp_unterminated_string_fails_at_offending_byte() {
    // No zero terminator: the walk runs past the region and the per-byte
    // translation fails exactly at the first unmapped address.
    let text = b"abc";
    let base = 0x1_0000_0000u64;
    let mut mapping = readonly_mapping(text, base);
    let mut cmp = BpfStrCmp::init(0u64);
    let mut result: SyscallResult = Ok(0);

    cmp.call(base, base, 0, 0, 0, &mut mapping, &mut result);
    assert_eq!(
        result,
        Err(EbpfError::AccessViolation(AccessType::Load, base + 3, 1))
    );
}

#[test]
fn gather_bytes_packs_five_low_bytes() {
    let mut mapping = empty_mapping();
    let mut gather = BpfGatherBytes::init(0u64);
    let mut result: SyscallResult = Ok(0);

    gather.call(0x11, 0x22, 0x33, 0x44, 0x55, &mut mapping, &mut result);
    assert_eq!(result, Ok(0x11_22_33_44_55));
}

#[test]
fn gather_bytes_uses_only_the_low_byte_of_each_argument() {
    let mut mapping = empty_mapping();
    let mut gather = BpfGatherBytes::init(0u64);
    let mut result: SyscallResult = Ok(0);

    gather.call(
        0xaa11, 0xbb22, 0xcc33, 0xdd44, 0xee55, &mut mapping, &mut result,
    );
    assert_eq!(result, Ok(0x11_22_33_44_55));
}

#[test]
fn trace_printf_reports_analytic_byte_count() {
    let mut mapping = empty_mapping();
    let mut printf = BpfTracePrintf::init(0u64);
    let mut result: SyscallResult = Ok(0);

    printf.call(0, 0, 1, 15, 32, &mut mapping, &mut result);
    assert_eq!(result, Ok("BpfTracePrintf: 0x1, 0xf, 0x20\n".len() as u64));
}

#[test]
fn trace_printf_counts_zero_as_one_digit() {
    let mut mapping = empty_mapping();
    let mut printf = BpfTracePrintf::init(0u64);
    let mut result: SyscallResult = Ok(0);

    printf.call(0, 0, 0, 0, 0, &mut mapping, &mut result);
    assert_eq!(result, Ok("BpfTracePrintf: 0x0, 0x0, 0x0\n".len() as u64));
}

#[test]
fn trace_printf_counts_wide_values() {
    let mut mapping = empty_mapping();
    let mut printf = BpfTracePrintf::init(0u64);
    let mut result: SyscallResult = Ok(0);

    printf.call(0, 0, u64::MAX, 0x100, 0xfff, &mut mapping, &mut result);
    // 27 fixed bytes, then 16 + 3 + 3 digits.
    assert_eq!(result, Ok(27 + 16 + 3 + 3));
}

#[test]
fn syscall_string_logs_valid_text() {
    let text = b"hello";
    let base = 0x1_0000_0000u64;
    let mut mapping = readonly_mapping(text, base);
    let mut log = BpfSyscallString::init(0u64);
    let mut result: SyscallResult = Ok(1);

    log.call(base, 5, 0, 0, 0, &mut mapping, &mut result);
    assert_eq!(result, Ok(0));
}

#[test]
fn syscall_string_recovers_from_malformed_text() {
    let bytes = [0xffu8, 0xfe, 0x61];
    let base = 0x1_0000_0000u64;
    let mut mapping = readonly_mapping(&bytes, base);
    let mut log = BpfSyscallString::init(0u64);
    let mut result: SyscallResult = Ok(1);

    log.call(base, 3, 0, 0, 0, &mut mapping, &mut result);
    assert_eq!(result, Ok(0));
}

#[test]
fn syscall_string_surfaces_translation_failure() {
    let base = 0x1_0000_0000u64;
    let mut mapping = readonly_mapping(b"hi", base);
    let mut log = BpfSyscallString::init(0u64);
    let mut result: SyscallResult = Ok(0);

    log.call(base, 3, 0, 0, 0, &mut mapping, &mut result);
    assert_eq!(
        result,
        Err(EbpfError::AccessViolation(AccessType::Load, base, 3))
    );
}

#[test]
fn syscall_u64_returns_zero() {
    let mut mapping = empty_mapping();
    let mut dump = BpfSyscallU64::init(0u64);
    let mut result: SyscallResult = Ok(7);

    dump.call(1, 2, 3, 4, 5, &mut mapping, &mut result);
    assert_eq!(result, Ok(0));
}

#[test]
fn context_diagnostic_moves_context_to_second_sentinel() {
    let mut mapping = empty_mapping();
    let mut syscall = SyscallWithContext::init(EXPECTED_CONTEXT);
    assert_eq!(syscall.context, EXPECTED_CONTEXT);
    let mut result: SyscallResult = Ok(1);

    syscall.call(1, 2, 3, 4, 5, &mut mapping, &mut result);
    assert_eq!(result, Ok(0));
    assert_eq!(syscall.context, UPDATED_CONTEXT);
    // A second invocation without resetting the context would be the
    // fatal contract violation: the entry condition no longer holds.
    assert_ne!(syscall.context, EXPECTED_CONTEXT);
}

#[test]
fn translate_validates_a_range_atomically() {
    let base = 0x1_0000_0000u64;
    let mapping = readonly_mapping(&[0u8; 8], base);

    assert!(mapping.translate(AccessType::Load, base, 8).is_ok());
    assert!(mapping.translate(AccessType::Load, base + 4, 4).is_ok());
    assert_eq!(
        mapping.translate(AccessType::Load, base + 4, 8),
        Err(EbpfError::AccessViolation(AccessType::Load, base + 4, 8))
    );
    assert_eq!(
        mapping.translate(AccessType::Store, base, 1),
        Err(EbpfError::AccessViolation(AccessType::Store, base, 1))
    );
}

#[test]
fn mapping_rejects_overlapping_regions() {
    let base = 0x1_0000_0000u64;
    let overlapping = MemoryMapping::new(vec![
        MemoryRegion::new_readonly(vec![0; 8], base),
        MemoryRegion::new_readonly(vec![0; 8], base + 4),
    ]);
    assert!(overlapping.is_none());

    let adjacent = MemoryMapping::new(vec![
        MemoryRegion::new_readonly(vec![0; 8], base),
        MemoryRegion::new_readonly(vec![0; 8], base + 8),
    ]);
    assert_eq!(adjacent.unwrap().len(), 2);
}
