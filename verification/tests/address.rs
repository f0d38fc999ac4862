use lib::address::{PhysAddr, PhysPageNum, VirtAddr, VirtPageNum, PAGE_SIZE};

#[test]
fn phys_addr_floor_and_ceil() {
    let a = PhysAddr::new(0x8020_1234);
    assert_eq!(a.floor().0, 0x80201);
    assert_eq!(a.ceil().0, 0x80202);
    let b = PhysAddr::new(0x8020_0000);
    assert_eq!(b.floor().0, 0x80200);
    assert_eq!(b.ceil().0, 0x80200);
    let z = PhysAddr::new(0);
    assert_eq!(z.floor().0, 0);
    assert_eq!(z.ceil().0, 0);
}

#[test]
fn virt_addr_floor_and_ceil() {
    let a = VirtAddr::new(0x1001);
    assert_eq!(a.floor().0, 1);
    assert_eq!(a.ceil().0, 2);
    let b = VirtAddr::new(0x7f_ffff_f000);
    assert_eq!(b.floor().0, 0x7ff_ffff);
    assert_eq!(b.ceil().0, 0x7ff_ffff);
}

#[test]
fn vpn_indexes_lowest_bits_first() {
    assert_eq!(VirtPageNum::new(0x12345).indexes(), [0x145, 0x91, 0x0]);
    assert_eq!(VirtPageNum::new(0x7ff_ffff).indexes(), [0x1ff, 0x1ff, 0x1ff]);
    assert_eq!(VirtPageNum::new(0).indexes(), [0, 0, 0]);
    // the indexes give back the page number
    let v: usize = 0x5a_5a5a;
    let i = VirtPageNum::new(v).indexes();
    assert_eq!(i[0] + i[1] * 512 + i[2] * 512 * 512, v);
}

#[test]
fn page_number_to_address_round_trip() {
    let ppn = PhysPageNum::new(0x80123);
    let pa = PhysAddr::from(ppn);
    assert_eq!(pa.0, 0x8012_3000);
    assert_eq!(pa.floor().0, 0x80123);
    assert_eq!(pa.ceil().0, 0x80123);
    assert_eq!(PAGE_SIZE, 4096);
}
