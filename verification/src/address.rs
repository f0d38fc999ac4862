//! Physical and virtual addresses and page numbers of the Sv39 scheme.
use vstd::prelude::*;

verus! {

/// Size of a page in bytes.
pub const PAGE_SIZE: usize = 0x1000;
/// Number of bits of the offset inside a page.
pub const PAGE_SIZE_BITS: usize = 12;
/// Width of a physical address in Sv39.
pub const PA_WIDTH_SV39: usize = 56;
/// Width of a physical page number in Sv39.
pub const PPN_WIDTH_SV39: usize = 44;
/// Width of a virtual address in Sv39.
pub const VA_WIDTH_SV39: usize = 39;
/// Width of a virtual page number in Sv39.
pub const VPN_WIDTH_SV39: usize = 27;

/// One past the largest physical address.
pub open spec fn pa_limit() -> nat {
    0x100_0000_0000_0000
}

/// One past the largest physical page number.
pub open spec fn ppn_limit() -> nat {
    0x1000_0000_0000
}

/// One past the largest virtual address.
pub open spec fn va_limit() -> nat {
    0x80_0000_0000
}

/// One past the largest virtual page number.
pub open spec fn vpn_limit() -> nat {
    0x800_0000
}

/// Index of a virtual page number at one level of the page table walk:
/// nine bits, the lowest for level 0.
pub open spec fn vpn_index(vpn: nat, level: nat) -> nat {
    if level == 0 {
        vpn % 512
    } else if level == 1 {
        (vpn / 512) % 512
    } else {
        (vpn / 0x40000) % 512
    }
}

#[derive(Clone, Copy, PartialEq, Eq, Structural, PartialOrd, Ord)]
pub struct PhysAddr(pub usize);

#[derive(Clone, Copy, PartialEq, Eq, Structural, PartialOrd, Ord)]
pub struct PhysPageNum(pub usize);

#[derive(Clone, Copy, PartialEq, Eq, Structural, PartialOrd, Ord)]
pub struct VirtAddr(pub usize);

#[derive(Clone, Copy, PartialEq, Eq, Structural, PartialOrd, Ord)]
pub struct VirtPageNum(pub usize);

impl PhysAddr {
    /// Whether the address lies in the Sv39 physical address space.
    pub open spec fn is_valid(self) -> bool {
        self.0 < pa_limit()
    }

    /// A physical address from a raw value, which must lie in the Sv39
    /// physical address space.
    pub fn new(value: usize) -> (r: Self)
        requires
            value < pa_limit(),
        ensures
            r.0 == value,
    {
        PhysAddr(value)
    }

    /// The page that holds this address.
    pub fn floor(&self) -> (r: PhysPageNum)
        ensures
            r.0 == self.0 / 4096,
    {
        PhysPageNum(self.0 / PAGE_SIZE)
    }

    /// The first page that starts at or after this address.
    pub fn ceil(&self) -> (r: PhysPageNum)
        requires
            self.0 + 4096 <= usize::MAX,
        ensures
            r.0 == (self.0 + 4095) / 4096,
    {
        PhysPageNum((self.0 + PAGE_SIZE - 1) / PAGE_SIZE)
    }
}

impl PhysPageNum {
    /// Whether the number lies in the Sv39 physical page number space.
    pub open spec fn is_valid(self) -> bool {
        self.0 < ppn_limit()
    }

    /// A physical page number from a raw value, which must lie in the Sv39
    /// physical page number space.
    pub fn new(value: usize) -> (r: Self)
        requires
            value < ppn_limit(),
        ensures
            r.0 == value,
    {
        PhysPageNum(value)
    }
}

impl VirtAddr {
    /// Whether the address lies in the Sv39 virtual address space.
    pub open spec fn is_valid(self) -> bool {
        self.0 < va_limit()
    }

    /// A virtual address from a raw value, which must lie in the Sv39
    /// virtual address space.
    pub fn new(value: usize) -> (r: Self)
        requires
            value < va_limit(),
        ensures
            r.0 == value,
    {
        VirtAddr(value)
    }

    /// The page that holds this address.
    pub fn floor(&self) -> (r: VirtPageNum)
        ensures
            r.0 == self.0 / 4096,
    {
        VirtPageNum(self.0 / PAGE_SIZE)
    }

    /// The first page that starts at or after this address.
    pub fn ceil(&self) -> (r: VirtPageNum)
        requires
            self.0 + 4096 <= usize::MAX,
        ensures
            r.0 == (self.0 + 4095) / 4096,
    {
        VirtPageNum((self.0 + PAGE_SIZE - 1) / PAGE_SIZE)
    }
}

impl VirtPageNum {
    /// Whether the number lies in the Sv39 virtual page number space.
    pub open spec fn is_valid(self) -> bool {
        self.0 < vpn_limit()
    }

    /// A virtual page number from a raw value, which must lie in the Sv39
    /// virtual page number space.
    pub fn new(value: usize) -> (r: Self)
        requires
            value < vpn_limit(),
        ensures
            r.0 == value,
    {
        VirtPageNum(value)
    }

    /// The three nine-bit indexes of the page table walk, lowest bits first.
    pub fn indexes(&self) -> (r: [usize; 3])
        ensures
            r[0] == vpn_index(self.0 as nat, 0),
            r[1] == vpn_index(self.0 as nat, 1),
            r[2] == vpn_index(self.0 as nat, 2),
    {
        let v = self.0;
        assert(v & 0x1ff == v % 512) by (bit_vector);
        assert((v >> 9) & 0x1ff == (v / 512) % 512) by (bit_vector);
        assert((v >> 18) & 0x1ff == (v / 0x40000) % 512) by (bit_vector);
        [v & 0x1ff, (v >> 9) & 0x1ff, (v >> 18) & 0x1ff]
    }
}

impl From<PhysPageNum> for PhysAddr {
    fn from(value: PhysPageNum) -> (r: Self) {
        PhysAddr(value.0 << PAGE_SIZE_BITS)
    }
}

impl vstd::std_specs::convert::FromSpecImpl<PhysPageNum> for PhysAddr {
    open spec fn obeys_from_spec() -> bool {
        true
    }

    open spec fn from_spec(v: PhysPageNum) -> Self {
        PhysAddr(v.0 << 12usize)
    }
}

/// The address of a page is the page number times the page size, and both
/// the page below it and the first page at or after it are that page.
pub proof fn lemma_phys_addr_of_page(ppn: PhysPageNum)
    requires
        ppn.is_valid(),
        ppn.0 * 4096 <= usize::MAX,
    ensures
        (ppn.0 << 12usize) as nat == ppn.0 * 4096,
        PhysAddr(ppn.0 << 12usize).is_valid(),
        (ppn.0 << 12usize) / 4096 == ppn.0,
        ((ppn.0 << 12usize) + 4095) / 4096 == ppn.0,
{
    vstd::arithmetic::power2::lemma2_to64();
    vstd::bits::lemma_usize_shl_is_mul(ppn.0, 12);
}

/// The page below an address and the first page at or after it bracket the
/// address, differ by at most one, and agree exactly when the address is at
/// the start of a page.
pub proof fn lemma_floor_ceil(addr: usize)
    requires
        addr + 4096 <= usize::MAX,
    ensures
        (addr / 4096) * 4096 <= addr,
        addr <= ((addr + 4095) / 4096) * 4096,
        addr / 4096 <= (addr + 4095) / 4096 <= addr / 4096 + 1,
        ((addr / 4096) == (addr + 4095) / 4096) == (addr % 4096 == 0),
{
    assert((addr / 4096) * 4096 <= addr) by (nonlinear_arith);
    assert(addr <= ((addr + 4095) / 4096) * 4096) by (nonlinear_arith);
    assert(addr / 4096 <= (addr + 4095) / 4096 <= addr / 4096 + 1) by (nonlinear_arith);
    assert(((addr / 4096) == (addr + 4095) / 4096) == (addr % 4096 == 0)) by (nonlinear_arith);
}

} // verus!
