use idos::api::compat::VMRegisters;
use idos::api::io::{Handle, IoError};
use idos::api::syscall::{
    append_io_op, block_on_wake_set, created_pipe, created_task, driver_io_complete,
    executable_loaded, file_mapping, map_memory, mapped_address, mapped_dma, pci_device_found,
    pci_enable_bus_master, terminate, unmapped, yield_coop, PciDeviceQuery,
};
use idos::bits::{make_dword, u16_from_bytes, u32_bytes, u32_from_bytes};
use idos::text::{push_decimal, to_hex_digit};

#[test]
fn parts_of_registers() {
    let mut r = VMRegisters {
        eax: 0xaabbccdd, ebx: 0x1122, ecx: 0x3344, edx: 0x5566, esi: 0, edi: 0, ebp: 0, eip: 0,
        cs: 0, eflags: 0, esp: 0, ss: 0, es: 0, ds: 0, fs: 0, gs: 0,
    };
    assert_eq!((r.ah(), r.al()), (0xcc, 0xdd));
    assert_eq!((r.bh(), r.bl(), r.ch(), r.cl(), r.dh(), r.dl()), (0x11, 0x22, 0x33, 0x44, 0x55, 0x66));
    r.set_al(1);
    r.set_ah(2);
    assert_eq!(r.eax, 0xaabb0201);
    r.set_ax(0x7788);
    assert_eq!(r.eax, 0xaabb7788);
    r.set_cx(9);
    r.set_dx(8);
    assert_eq!((r.ecx, r.edx), (9, 8));
}

#[test]
fn system_calls() {
    assert_eq!(terminate(3).a, 3);
    assert_ne!(terminate(0).number, yield_coop().number);
    assert_eq!(created_task((4, 5)), (Handle::new(4), 5));
    assert_eq!(created_pipe((4, 5)), (Handle::new(4), Handle::new(5)));
    assert!(executable_loaded(0) && !executable_loaded(0xffff_ffff));
    assert_eq!(block_on_wake_set(Handle::new(7), None).b, 0xffff_ffff);
    assert_eq!(append_io_op(Handle::new(7), 0x100, None).c, 0xffff_ffff);
    assert_eq!(driver_io_complete(1, Ok(5), 0).b, 5);
    assert_eq!(driver_io_complete(1, Err(IoError::NotFound), 2).b, 0x8000_0002);
    assert_eq!(map_memory(None, 0x1000, Some(0xa000)).c, 0xa000);
    assert_eq!(mapped_address(0x5000), Ok(0x5000));
    assert_eq!(mapped_address(0xffff_ffff), Err(()));
    assert_eq!(mapped_dma((1, 2)), Ok((1, 2)));
    assert_eq!(unmapped(0xffff_ffff), Err(()));
    assert!(pci_device_found(0) && !pci_device_found(1));
    assert_eq!(pci_enable_bus_master(1, 2, 3).c, 3);
    assert_eq!(PciDeviceQuery::new(1, 2).bar, [0; 6]);
    assert_eq!(file_mapping(None, 0x1000, 2, 3, 4, 5).size, 0x1000);
}

#[test]
fn bytes_of_words() {
    assert_eq!(u32_bytes(0x11223344), (0x44, 0x33, 0x22, 0x11));
    assert_eq!(u32_from_bytes(0x44, 0x33, 0x22, 0x11), 0x11223344);
    assert_eq!(u16_from_bytes(0x34, 0x12), 0x1234);
    assert_eq!(make_dword(0x1234, 0x5678), 0x12345678);
    let mut out = Vec::new();
    push_decimal(&mut out, 0);
    push_decimal(&mut out, 18446744073709551615);
    assert_eq!(out, b"018446744073709551615".to_vec());
    assert_eq!(to_hex_digit(11), b'B');
}
