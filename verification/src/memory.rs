//! The address-translation service: guest addresses become checked accesses
//! into mapped regions of host-owned bytes.
//!
//! A translation request carries an access intent, a guest address and a
//! length; it succeeds exactly when the whole range lies within one mapped
//! region whose permissions satisfy the intent. It never partially
//! validates a range, and a failure carries the offending intent, address
//! and length. Byte accesses themselves are bounds-carrying: they demand,
//! as a precondition, exactly what a successful translation establishes.

use vstd::prelude::*;

use crate::error::{AccessType, EbpfError};

verus! {

/// Mathematical view of one mapped region: its guest base address, the
/// bytes behind it, and whether the guest may store into it.
pub ghost struct RegionView {
    /// First guest address of the region.
    pub base: u64,
    /// The bytes the region holds; the region spans
    /// `[base, base + bytes.len())` of guest address space.
    pub bytes: Seq<u8>,
    /// Whether `Store` translations over this region succeed.
    pub writable: bool,
}

/// The region fits in the guest address space without wrapping.
pub open spec fn region_wf(r: RegionView) -> bool {
    r.base + r.bytes.len() <= 0x1_0000_0000_0000_0000
}

/// `addr` lies inside the region.
pub open spec fn region_contains(r: RegionView, addr: u64) -> bool {
    r.base <= addr && (addr as int) < r.base + r.bytes.len()
}

/// `[addr, addr + len)` lies entirely inside the region.
pub open spec fn region_covers(r: RegionView, addr: u64, len: u64) -> bool {
    r.base <= addr && (addr as int) + (len as int) <= r.base + r.bytes.len()
}

/// The region's permissions satisfy the intent: any region satisfies
/// `Load`, only a writable one satisfies `Store`.
pub open spec fn region_allows(r: RegionView, access: AccessType) -> bool {
    r.writable || access is Load
}

/// No guest address lies in two regions.
pub open spec fn regions_disjoint(s: Seq<RegionView>) -> bool {
    forall|j: int, k: int|
        0 <= j < s.len() && 0 <= k < s.len() && j != k ==> (#[trigger] s[j]).base
            + s[j].bytes.len() <= (#[trigger] s[k]).base || s[k].base + s[k].bytes.len()
            <= s[j].base
}

/// Every region is well formed and no two overlap.
pub open spec fn mapping_wf(s: Seq<RegionView>) -> bool {
    regions_disjoint(s) && forall|j: int| 0 <= j < s.len() ==> region_wf(#[trigger] s[j])
}

/// Some region contains `addr`.
pub open spec fn mapped(s: Seq<RegionView>, addr: u64) -> bool {
    exists|j: int| 0 <= j < s.len() && region_contains(#[trigger] s[j], addr)
}

/// Some writable region contains `addr`.
pub open spec fn writable_at(s: Seq<RegionView>, addr: u64) -> bool {
    exists|j: int| 0 <= j < s.len() && region_contains(#[trigger] s[j], addr) && s[j].writable
}

/// Index of the region containing `addr`; meaningful only when
/// `mapped(s, addr)` holds, and then unique by disjointness.
pub open spec fn region_index_of(s: Seq<RegionView>, addr: u64) -> int {
    choose|j: int| 0 <= j < s.len() && region_contains(#[trigger] s[j], addr)
}

/// The byte the mapping holds at guest address `addr`; meaningful only
/// when `mapped(s, addr)` holds.
pub open spec fn byte_at(s: Seq<RegionView>, addr: u64) -> u8 {
    let r = s[region_index_of(s, addr)];
    r.bytes[addr - r.base]
}

/// A translation of (`access`, `addr`, `len`) succeeds: one region covers
/// the whole range and its permissions satisfy the intent.
pub open spec fn valid_access(s: Seq<RegionView>, access: AccessType, addr: u64, len: u64) -> bool {
    exists|j: int|
        0 <= j < s.len() && region_covers(#[trigger] s[j], addr, len) && region_allows(
            s[j],
            access,
        )
}

/// Two mappings with the same region bases, sizes and permissions; only
/// the bytes held may differ.
pub open spec fn same_layout(s1: Seq<RegionView>, s2: Seq<RegionView>) -> bool {
    s1.len() == s2.len() && forall|j: int|
        0 <= j < s1.len() ==> (#[trigger] s1[j]).base == s2[j].base && s1[j].bytes.len()
            == s2[j].bytes.len() && s1[j].writable == s2[j].writable
}

/// The containing region is unique, so `region_index_of` picks exactly
/// the region a caller found.
pub proof fn lemma_region_index_unique(s: Seq<RegionView>, addr: u64, j: int)
    requires
        regions_disjoint(s),
        0 <= j < s.len(),
        region_contains(s[j], addr),
    ensures
        region_index_of(s, addr) == j,
        byte_at(s, addr) == s[j].bytes[addr - s[j].base],
{
    let k = region_index_of(s, addr);
    assert(0 <= k < s.len() && region_contains(s[k], addr));
}

/// A mapping with the same layout as a well-formed one is well formed.
pub proof fn lemma_same_layout_wf(s1: Seq<RegionView>, s2: Seq<RegionView>)
    requires
        same_layout(s1, s2),
        mapping_wf(s2),
    ensures
        mapping_wf(s1),
{
}

/// Two mappings with the same layout map the same addresses, with the
/// same permissions.
pub proof fn lemma_same_layout_mapped(s1: Seq<RegionView>, s2: Seq<RegionView>)
    requires
        same_layout(s1, s2),
    ensures
        forall|a: u64| mapped(s1, a) == mapped(s2, a),
        forall|a: u64| writable_at(s1, a) == writable_at(s2, a),
{
    assert forall|a: u64| mapped(s1, a) == mapped(s2, a) by {
        if mapped(s1, a) {
            let j = choose|j: int| 0 <= j < s1.len() && region_contains(#[trigger] s1[j], a);
            assert(region_contains(s2[j], a));
        }
        if mapped(s2, a) {
            let j = choose|j: int| 0 <= j < s2.len() && region_contains(#[trigger] s2[j], a);
            assert(region_contains(s1[j], a));
        }
    }
    assert forall|a: u64| writable_at(s1, a) == writable_at(s2, a) by {
        if writable_at(s1, a) {
            let j = choose|j: int|
                0 <= j < s1.len() && region_contains(#[trigger] s1[j], a) && s1[j].writable;
            assert(region_contains(s2[j], a) && s2[j].writable);
        }
        if writable_at(s2, a) {
            let j = choose|j: int|
                0 <= j < s2.len() && region_contains(#[trigger] s2[j], a) && s2[j].writable;
            assert(region_contains(s1[j], a) && s1[j].writable);
        }
    }
}

/// A successful translation puts every byte of the range behind a mapped
/// (and, for `Store`, writable) address, and the range does not wrap.
pub proof fn lemma_valid_access_bytes(s: Seq<RegionView>, access: AccessType, addr: u64, len: u64)
    requires
        mapping_wf(s),
        valid_access(s, access, addr, len),
    ensures
        (addr as int) + (len as int) <= 0x1_0000_0000_0000_0000,
        forall|i: int| 0 <= i < len ==> mapped(s, #[trigger] ((addr + i) as u64)),
        access is Store ==> forall|i: int|
            0 <= i < len ==> writable_at(s, #[trigger] ((addr + i) as u64)),
{
    let j = choose|j: int|
        0 <= j < s.len() && region_covers(#[trigger] s[j], addr, len) && region_allows(
            s[j],
            access,
        );
    assert(region_wf(s[j]));
    assert forall|i: int| 0 <= i < len implies mapped(s, #[trigger] ((addr + i) as u64)) by {
        assert(region_contains(s[j], (addr + i) as u64));
    }
    if access is Store {
        assert forall|i: int| 0 <= i < len implies writable_at(
            s,
            #[trigger] ((addr + i) as u64),
        ) by {
            assert(region_contains(s[j], (addr + i) as u64) && s[j].writable);
        }
    }
}

/// One mapped span of guest address space, backed by bytes the mapping
/// owns on the host's behalf.
pub struct MemoryRegion {
    base: u64,
    data: Vec<u8>,
    writable: bool,
}

impl View for MemoryRegion {
    type V = RegionView;

    closed spec fn view(&self) -> RegionView {
        RegionView { base: self.base, bytes: self.data@, writable: self.writable }
    }
}

impl MemoryRegion {
    /// A region the guest may only load from.
    pub fn new_readonly(data: Vec<u8>, base: u64) -> (r: MemoryRegion)
        requires
            base + data@.len() <= 0x1_0000_0000_0000_0000,
        ensures
            r@ == (RegionView { base, bytes: data@, writable: false }),
    {
        MemoryRegion { base, data, writable: false }
    }

    /// A region the guest may load from and store into.
    pub fn new_writable(data: Vec<u8>, base: u64) -> (r: MemoryRegion)
        requires
            base + data@.len() <= 0x1_0000_0000_0000_0000,
        ensures
            r@ == (RegionView { base, bytes: data@, writable: true }),
    {
        MemoryRegion { base, data, writable: true }
    }
}

/// The address-translation service: a set of disjoint mapped regions,
/// consulted by every syscall that touches guest memory.
pub struct MemoryMapping {
    regions: Vec<MemoryRegion>,
}

impl View for MemoryMapping {
    type V = Seq<RegionView>;

    closed spec fn view(&self) -> Seq<RegionView> {
        self.regions@.map_values(|r: MemoryRegion| r@)
    }
}

impl MemoryMapping {
    /// The mapping's regions are well formed and pairwise disjoint.
    pub open spec fn wf(self) -> bool {
        mapping_wf(self@)
    }

    /// Builds a mapping from regions, accepting exactly the well-formed,
    /// pairwise-disjoint ones.
    pub fn new(regions: Vec<MemoryRegion>) -> (r: Option<MemoryMapping>)
        ensures
            match r {
                Some(m) => m.wf() && m@ == regions@.map_values(|x: MemoryRegion| x@),
                None => !mapping_wf(regions@.map_values(|x: MemoryRegion| x@)),
            },
    {
        let s = Ghost(regions@.map_values(|x: MemoryRegion| x@));
        let n = regions.len();
        let mut j: usize = 0;
        while j < n
            invariant
                n == regions@.len(),
                s@ == regions@.map_values(|x: MemoryRegion| x@),
                j <= n,
                forall|p: int| 0 <= p < j ==> region_wf(#[trigger] s@[p]),
                forall|p: int, q: int|
                    0 <= p < j && 0 <= q < j && p != q ==> (#[trigger] s@[p]).base
                        + s@[p].bytes.len() <= (#[trigger] s@[q]).base || s@[q].base
                        + s@[q].bytes.len() <= s@[p].base,
            decreases n - j,
        {
            let rj = &regions[j];
            let ej: u128 = (rj.base as u128) + (rj.data.len() as u128);
            if ej > 0x1_0000_0000_0000_0000u128 {
                proof {
                    assert(s@[j as int] == regions@[j as int]@);
                    assert(!region_wf(s@[j as int]));
                }
                return None;
            }
            let mut k: usize = 0;
            while k < j
                invariant
                    n == regions@.len(),
                    s@ == regions@.map_values(|x: MemoryRegion| x@),
                    j < n,
                    k <= j,
                    forall|q: int|
                        0 <= q < k ==> s@[j as int].base + s@[j as int].bytes.len()
                            <= (#[trigger] s@[q]).base || s@[q].base + s@[q].bytes.len()
                            <= s@[j as int].base,
                decreases j - k,
            {
                let rk = &regions[k];
                let ek: u128 = (rk.base as u128) + (rk.data.len() as u128);
                let bj: u128 = regions[j].base as u128;
                let ejj: u128 = (regions[j].base as u128) + (regions[j].data.len() as u128);
                if !(ejj <= rk.base as u128 || ek <= bj) {
                    proof {
                        assert(s@[j as int] == regions@[j as int]@);
                        assert(s@[k as int] == regions@[k as int]@);
                        assert(!regions_disjoint(s@));
                    }
                    return None;
                }
                k += 1;
            }
            j += 1;
        }
        Some(MemoryMapping { regions })
    }

    /// Number of mapped regions.
    pub fn len(&self) -> (n: usize)
        ensures
            n == self@.len(),
    {
        self.regions.len()
    }

    /// Index of the region containing `addr`, if any.
    fn find_region(&self, addr: u64) -> (r: Option<usize>)
        requires
            self.wf(),
        ensures
            match r {
                Some(j) => j < self@.len() && region_contains(self@[j as int], addr),
                None => !mapped(self@, addr),
            },
    {
        let n = self.regions.len();
        let mut j: usize = 0;
        while j < n
            invariant
                self.wf(),
                n == self@.len(),
                j <= n,
                forall|p: int| 0 <= p < j ==> !region_contains(#[trigger] self@[p], addr),
            decreases n - j,
        {
            let rj = &self.regions[j];
            if rj.base <= addr && addr - rj.base < rj.data.len() as u64 {
                return Some(j);
            }
            j += 1;
        }
        None
    }

    /// The translation request of the service's contract: succeeds exactly
    /// when `[vm_addr, vm_addr + len)` lies entirely within one mapped
    /// region whose permissions satisfy `access`; never partially
    /// validates; a failure carries the intent, address and length.
    pub fn translate(&self, access: AccessType, vm_addr: u64, len: u64) -> (r: Result<
        (),
        EbpfError,
    >)
        requires
            self.wf(),
        ensures
            match r {
                Ok(_) => valid_access(self@, access, vm_addr, len),
                Err(e) => !valid_access(self@, access, vm_addr, len) && e
                    == EbpfError::AccessViolation(access, vm_addr, len),
            },
    {
        let n = self.regions.len();
        let mut j: usize = 0;
        while j < n
            invariant
                self.wf(),
                n == self@.len(),
                j <= n,
                forall|p: int|
                    0 <= p < j ==> !(region_covers(#[trigger] self@[p], vm_addr, len)
                        && region_allows(self@[p], access)),
            decreases n - j,
        {
            let rj = &self.regions[j];
            let dlen: u64 = rj.data.len() as u64;
            if rj.base <= vm_addr {
                let off = vm_addr - rj.base;
                if off <= dlen && len <= dlen - off {
                    let allowed = match access {
                        AccessType::Load => true,
                        AccessType::Store => rj.writable,
                    };
                    if allowed {
                        proof {
                            assert(region_covers(self@[j as int], vm_addr, len));
                            assert(region_allows(self@[j as int], access));
                        }
                        return Ok(());
                    }
                }
            }
            j += 1;
        }
        Err(EbpfError::AccessViolation(access, vm_addr, len))
    }

    /// Translates one byte for `Load` and reads it: succeeds exactly
    /// when `addr` is mapped, and a failure carries that byte's address.
    pub fn load_byte(&self, addr: u64) -> (r: Result<u8, EbpfError>)
        requires
            self.wf(),
        ensures
            match r {
                Ok(b) => mapped(self@, addr) && b == byte_at(self@, addr),
                Err(e) => !mapped(self@, addr) && e == EbpfError::AccessViolation(
                    AccessType::Load,
                    addr,
                    1,
                ),
            },
    {
        match self.translate(AccessType::Load, addr, 1) {
            Ok(_) => {
                proof {
                    let j = choose|j: int|
                        0 <= j < self@.len() && region_covers(#[trigger] self@[j], addr, 1)
                            && region_allows(self@[j], AccessType::Load);
                    assert(region_contains(self@[j], addr));
                }
                Ok(self.read_byte(addr))
            },
            Err(e) => {
                proof {
                    if mapped(self@, addr) {
                        let j = choose|j: int|
                            0 <= j < self@.len() && region_contains(#[trigger] self@[j], addr);
                        assert(region_covers(self@[j], addr, 1));
                        assert(region_allows(self@[j], AccessType::Load));
                        assert(valid_access(self@, AccessType::Load, addr, 1));
                    }
                }
                Err(e)
            },
        }
    }

    /// Translates `[addr, addr + len)` for `Load` atomically and copies
    /// the range out; a failed translation copies nothing and carries
    /// the whole request.
    pub fn read_range(&self, addr: u64, len: u64) -> (r: Result<Vec<u8>, EbpfError>)
        requires
            self.wf(),
        ensures
            match r {
                Ok(bytes) => valid_access(self@, AccessType::Load, addr, len) && bytes@.len()
                    == len && forall|k: int|
                    0 <= k < len ==> bytes@[k] == byte_at(self@, #[trigger] ((addr + k) as u64)),
                Err(e) => !valid_access(self@, AccessType::Load, addr, len) && e
                    == EbpfError::AccessViolation(AccessType::Load, addr, len),
            },
    {
        match self.translate(AccessType::Load, addr, len) {
            Err(e) => Err(e),
            Ok(_) => {
                proof {
                    lemma_valid_access_bytes(self@, AccessType::Load, addr, len);
                }
                let mut bytes: Vec<u8> = Vec::new();
                let mut i: u64 = 0;
                while i < len
                    invariant
                        self.wf(),
                        valid_access(self@, AccessType::Load, addr, len),
                        (addr as int) + (len as int) <= 0x1_0000_0000_0000_0000,
                        i <= len,
                        bytes@.len() == i,
                        forall|k: int|
                            0 <= k < i ==> bytes@[k] == byte_at(
                                self@,
                                #[trigger] ((addr + k) as u64),
                            ),
                    decreases len - i,
                {
                    proof {
                        lemma_valid_access_bytes(self@, AccessType::Load, addr, len);
                        assert(mapped(self@, (addr + i as int) as u64));
                    }
                    let b = self.read_byte(addr + i);
                    bytes.push(b);
                    i += 1;
                }
                Ok(bytes)
            },
        }
    }

    /// The byte at a guest address that a successful `Load` translation
    /// covers.
    pub fn read_byte(&self, addr: u64) -> (b: u8)
        requires
            self.wf(),
            mapped(self@, addr),
        ensures
            b == byte_at(self@, addr),
    {
        match self.find_region(addr) {
            Some(j) => {
                let rj = &self.regions[j];
                let dlen: usize = rj.data.len();
                proof {
                    assert(addr - rj.base < dlen as u64);
                    lemma_region_index_unique(self@, addr, j as int);
                }
                let off = (addr - rj.base) as usize;
                rj.data[off]
            },
            None => vstd::pervasive::unreached(),
        }
    }

    /// Stores a byte at a guest address that a successful `Store`
    /// translation covers; every other byte, and the layout, is kept.
    pub fn write_byte(&mut self, addr: u64, v: u8)
        requires
            old(self).wf(),
            writable_at(old(self)@, addr),
        ensures
            final(self).wf(),
            same_layout(final(self)@, old(self)@),
            byte_at(final(self)@, addr) == v,
            forall|a: u64|
                mapped(old(self)@, a) && a != addr ==> byte_at(final(self)@, a) == byte_at(
                    old(self)@,
                    a,
                ),
    {
        let ghost s0 = self@;
        match self.find_region(addr) {
            Some(j) => {
                proof {
                    lemma_region_index_unique(s0, addr, j as int);
                }
                let rj = &mut self.regions[j];
                let dlen: usize = rj.data.len();
                proof {
                    assert(addr - rj.base < dlen as u64);
                }
                let off = (addr - rj.base) as usize;
                rj.data.set(off, v);
                proof {
                    assert(self@ =~= s0.update(
                        j as int,
                        RegionView {
                            base: s0[j as int].base,
                            bytes: s0[j as int].bytes.update(addr - s0[j as int].base, v),
                            writable: s0[j as int].writable,
                        },
                    ));
                    lemma_write_byte_view(s0, self@, j as int, addr, v);
                }
            },
            None => {
                proof {
                    let k = choose|k: int|
                        0 <= k < s0.len() && region_contains(#[trigger] s0[k], addr)
                            && s0[k].writable;
                    assert(mapped(s0, addr));
                }
                vstd::pervasive::unreached()
            },
        }
    }
}

/// Updating one byte of one region keeps the layout and every other
/// mapped byte.
proof fn lemma_write_byte_view(
    s0: Seq<RegionView>,
    s1: Seq<RegionView>,
    j: int,
    addr: u64,
    v: u8,
)
    requires
        mapping_wf(s0),
        0 <= j < s0.len(),
        region_contains(s0[j], addr),
        s1 =~= s0.update(
            j,
            RegionView {
                base: s0[j].base,
                bytes: s0[j].bytes.update(addr - s0[j].base, v),
                writable: s0[j].writable,
            },
        ),
    ensures
        mapping_wf(s1),
        same_layout(s1, s0),
        byte_at(s1, addr) == v,
        forall|a: u64| mapped(s0, a) && a != addr ==> byte_at(s1, a) == byte_at(s0, a),
{
    assert(same_layout(s1, s0));
    lemma_same_layout_wf(s1, s0);
    lemma_same_layout_mapped(s1, s0);
    assert(region_contains(s1[j], addr));
    lemma_region_index_unique(s1, addr, j);
    assert(byte_at(s1, addr) == v);
    assert forall|a: u64| mapped(s0, a) && a != addr implies byte_at(s1, a) == byte_at(s0, a) by {
        let k = choose|k: int| 0 <= k < s0.len() && region_contains(#[trigger] s0[k], a);
        lemma_region_index_unique(s0, a, k);
        assert(region_contains(s1[k], a));
        lemma_region_index_unique(s1, a, k);
        if k == j {
            assert(a - s0[j].base != addr - s0[j].base);
        }
    }
}

} // verus!
