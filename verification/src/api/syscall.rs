//! System calls: what each puts in the registers, and what its result means.
//!
//! A call is a number and three arguments; the kernel answers with one word,
//! or two. Each operation is a function that builds the call, and where the
//! answer needs reading, a second one that reads it.
use vstd::prelude::*;

use crate::api::io::{Handle, IoError, IoResult};

verus! {

/// The registers of a system call.
#[derive(Clone, Copy, PartialEq, Eq, Structural, Debug)]
pub struct Syscall {
    pub number: u32,
    pub a: u32,
    pub b: u32,
    pub c: u32,
}

pub open spec fn call(number: u32, a: u32, b: u32, c: u32) -> Syscall {
    Syscall { number, a, b, c }
}

/// An absent value is passed as all ones.
pub open spec fn or_none(value: Option<u32>) -> u32 {
    match value {
        Some(v) => v,
        None => 0xffff_ffff,
    }
}

fn registers(number: u32, a: u32, b: u32, c: u32) -> (r: Syscall)
    ensures
        r == call(number, a, b, c),
{
    Syscall { number, a, b, c }
}

fn optional(value: Option<u32>) -> (r: u32)
    ensures
        r == or_none(value),
{
    match value {
        Some(v) => v,
        None => 0xffff_ffff,
    }
}

/// No physical address: pages are allocated on demand.
pub const MMAP_FREE: u32 = 0xffff_ffff;
/// Physically contiguous pages, allocated at once.
pub const MMAP_CONTIGUOUS: u32 = 0xffff_fffe;
pub const MMAP_SHARED: u32 = 1;

/// All ones means failure.
pub open spec fn checked_result(result: u32) -> Result<u32, ()> {
    if result == 0xffff_ffff { Err(()) } else { Ok(result) }
}

// Execution.

pub fn terminate(code: u32) -> (r: Syscall)
    ensures
        r == call(0, code, 0, 0),
{
    registers(0, code, 0, 0)
}

pub fn yield_coop() -> (r: Syscall)
    ensures
        r == call(1, 0, 0, 0),
{
    registers(1, 0, 0, 0)
}

/// Wait on the word at `address` while it holds `value`.
pub fn futex_wait_u32(address: u32, value: u32, timeout_opt: Option<u32>) -> (r: Syscall)
    ensures
        r == call(0x13, address, value, or_none(timeout_opt)),
{
    registers(0x13, address, value, optional(timeout_opt))
}

pub fn create_task() -> (r: Syscall)
    ensures
        r == call(0x20, 0, 0, 0),
{
    registers(0x20, 0, 0, 0)
}

/// The two words of a created task: its handle and its id.
pub fn created_task(result: (u32, u32)) -> (r: (Handle, u32))
    ensures
        r == (Handle { id: result.0 }, result.1),
{
    (Handle::new(result.0), result.1)
}

pub fn add_args(task_id: u32, args_ptr: u32, args_len: u32) -> (r: Syscall)
    ensures
        r == call(0x05, task_id, args_ptr, args_len),
{
    registers(0x05, task_id, args_ptr, args_len)
}

pub fn load_executable(task_id: u32, path_ptr: u32, path_len: u32) -> (r: Syscall)
    ensures
        r == call(0x06, task_id, path_ptr, path_len),
{
    registers(0x06, task_id, path_ptr, path_len)
}

/// Whether an executable was loaded.
pub fn executable_loaded(result: u32) -> (r: bool)
    ensures
        r == (result != 0xffff_ffff),
{
    result != 0xffff_ffff
}

pub fn enter_8086(regs_ptr: u32, flags: u32) -> (r: Syscall)
    ensures
        r == call(0x07, regs_ptr, flags, 0),
{
    registers(0x07, regs_ptr, flags, 0)
}

// Input and output.

pub fn create_message_queue_handle() -> (r: Syscall)
    ensures
        r == call(0x21, 0, 0, 0),
{
    registers(0x21, 0, 0, 0)
}

pub fn create_file_handle() -> (r: Syscall)
    ensures
        r == call(0x23, 0, 0, 0),
{
    registers(0x23, 0, 0, 0)
}

pub fn futex_wake(address: u32, count: u32) -> (r: Syscall)
    ensures
        r == call(0x14, address, count, 0),
{
    registers(0x14, address, count, 0)
}

pub fn create_wake_set() -> (r: Syscall)
    ensures
        r == call(0x15, 0, 0, 0),
{
    registers(0x15, 0, 0, 0)
}

pub fn block_on_wake_set(handle: Handle, timeout: Option<u32>) -> (r: Syscall)
    ensures
        r == call(0x16, handle.id, or_none(timeout), 0),
{
    registers(0x16, handle.as_u32(), optional(timeout), 0)
}

pub fn register_fs(name_ptr: u32, name_len: u32) -> (r: Syscall)
    ensures
        r == call(0x50, name_ptr, name_len, 0),
{
    registers(0x50, name_ptr, name_len, 0)
}

/// The outcome of a request in one word: errors have the top bit set. The
/// caller gives the number of the error, which has the top bit clear.
pub open spec fn encoded_result(result: IoResult, code: u32) -> u32 {
    match result {
        Ok(val) => val,
        Err(_) => code | 0x8000_0000,
    }
}

/// Report the outcome of a request. `code` is the number of the error, if any.
pub fn driver_io_complete(request_id: u32, result: IoResult, code: u32) -> (r: Syscall)
    ensures
        r == call(0x12, request_id, encoded_result(result, code), 0),
{
    let encoded: u32 = match result {
        Ok(val) => val,
        Err(_) => code | 0x8000_0000,
    };
    registers(0x12, request_id, encoded, 0)
}

pub fn append_io_op(handle: Handle, op_ptr: u32, wait_set: Option<Handle>) -> (r: Syscall)
    ensures
        r == call(
            0x10,
            handle.id,
            op_ptr,
            match wait_set { Some(h) => h.id, None => 0xffff_ffff },
        ),
{
    let set: u32 = match wait_set {
        Some(h) => h.as_u32(),
        None => 0xffff_ffff,
    };
    registers(0x10, handle.as_u32(), op_ptr, set)
}

pub fn open_irq_handle(irq: u8) -> (r: Syscall)
    ensures
        r == call(0x22, irq as u32, 0, 0),
{
    registers(0x22, irq as u32, 0, 0)
}

pub fn create_pipe_handles() -> (r: Syscall)
    ensures
        r == call(0x24, 0, 0, 0),
{
    registers(0x24, 0, 0, 0)
}

/// The two words of a created pipe: its reading and its writing end.
pub fn created_pipe(result: (u32, u32)) -> (r: (Handle, Handle))
    ensures
        r == (Handle { id: result.0 }, Handle { id: result.1 }),
{
    (Handle::new(result.0), Handle::new(result.1))
}

pub fn register_dev(name_ptr: u32, name_len: u32) -> (r: Syscall)
    ensures
        r == call(0x51, name_ptr, name_len, 0),
{
    registers(0x51, name_ptr, name_len, 0)
}

pub fn register_network_device(path_ptr: u32, path_len: u32, mac_ptr: u32) -> (r: Syscall)
    ensures
        r == call(0x52, path_ptr, path_len, mac_ptr),
{
    registers(0x52, path_ptr, path_len, mac_ptr)
}

// Memory.

pub fn map_memory(
    virtual_address: Option<u32>,
    size: u32,
    physical_address: Option<u32>,
) -> (r: Syscall)
    ensures
        r == call(0x30, or_none(virtual_address), size, or_none(physical_address)),
{
    registers(0x30, optional(virtual_address), size, optional(physical_address))
}

/// The address of a mapping, or failure.
pub fn mapped_address(result: u32) -> (r: Result<u32, ()>)
    ensures
        r == checked_result(result),
{
    if result == 0xffff_ffff { Err(()) } else { Ok(result) }
}

/// Map physically contiguous memory.
pub fn map_memory_contiguous(size: u32) -> (r: Syscall)
    ensures
        r == call(0x30, MMAP_FREE, size, MMAP_CONTIGUOUS),
{
    registers(0x30, MMAP_FREE, size, MMAP_CONTIGUOUS)
}

/// Map memory for a device, which is told its physical address.
pub fn map_dma_memory(size: u32) -> (r: Syscall)
    ensures
        r == call(0x62, size, 0, 0),
{
    registers(0x62, size, 0, 0)
}

/// The virtual and the physical address of a device mapping, or failure.
pub fn mapped_dma(result: (u32, u32)) -> (r: Result<(u32, u32), ()>)
    ensures
        r == (if result.0 == 0xffff_ffff { Err(()) } else { Ok(result) }),
{
    if result.0 == 0xffff_ffff { Err(()) } else { Ok(result) }
}

pub fn unmap_memory(address: u32, size: u32) -> (r: Syscall)
    ensures
        r == call(0x32, address, size, 0),
{
    registers(0x32, address, size, 0)
}

pub fn unmapped(result: u32) -> (r: Result<(), ()>)
    ensures
        r == (if result == 0xffff_ffff { Err(()) } else { Ok(()) }),
{
    if result == 0xffff_ffff { Err(()) } else { Ok(()) }
}

#[derive(Clone, Copy, PartialEq, Eq, Structural, Debug)]
pub struct FileMapping {
    pub virtual_address: u32,
    pub size: u32,
    pub path_ptr: u32,
    pub path_len: u32,
    pub file_offset: u32,
    pub flags: u32,
}

/// The record that describes a file mapping to the kernel.
pub fn file_mapping(
    virtual_address: Option<u32>,
    size: u32,
    path_ptr: u32,
    path_len: u32,
    file_offset: u32,
    flags: u32,
) -> (r: FileMapping)
    ensures
        r == (FileMapping {
            virtual_address: or_none(virtual_address),
            size,
            path_ptr,
            path_len,
            file_offset,
            flags,
        }),
{
    FileMapping {
        virtual_address: optional(virtual_address),
        size,
        path_ptr,
        path_len,
        file_offset,
        flags,
    }
}

/// Map the file that the record at `mapping_ptr` describes.
pub fn map_file(mapping_ptr: u32) -> (r: Syscall)
    ensures
        r == call(0x31, mapping_ptr, 0, 0),
{
    registers(0x31, mapping_ptr, 0, 0)
}

// PCI.

#[derive(Clone, Copy, Debug)]
pub struct PciDeviceQuery {
    pub vendor_id: u16,
    pub device_id: u16,
    pub bus: u8,
    pub device: u8,
    pub function: u8,
    pub irq: u8,
    pub bar: [u32; 6],
}

impl PciDeviceQuery {
    /// A query for a device, with nothing found yet.
    pub fn new(vendor_id: u16, device_id: u16) -> (r: Self)
        ensures
            r.vendor_id == vendor_id,
            r.device_id == device_id,
            r.bus == 0,
            r.device == 0,
            r.function == 0,
            r.irq == 0,
            r.bar@ == Seq::new(6, |i: int| 0u32),
    {
        let r = Self { vendor_id, device_id, bus: 0, device: 0, function: 0, irq: 0, bar: [0u32; 6] };
        assert(r.bar@ =~= Seq::new(6, |i: int| 0u32));
        r
    }
}

/// Find the device that the query at `query_ptr` names.
pub fn query_pci_device(query_ptr: u32) -> (r: Syscall)
    ensures
        r == call(0x60, query_ptr, 0, 0),
{
    registers(0x60, query_ptr, 0, 0)
}

/// Whether a matching device was found.
pub fn pci_device_found(result: u32) -> (r: bool)
    ensures
        r == (result == 0),
{
    result == 0
}

/// Let a device master the bus, as direct memory access needs.
pub fn pci_enable_bus_master(bus: u8, device: u8, function: u8) -> (r: Syscall)
    ensures
        r == call(0x61, bus as u32, device as u32, function as u32),
{
    registers(0x61, bus as u32, device as u32, function as u32)
}

/// An encoded error never looks like a success with the top bit clear, and its
/// number can be read back.
pub proof fn encoded_results_are_distinct(val: u32, error: IoError, code: u32)
    requires
        val < 0x8000_0000,
        code < 0x8000_0000,
    ensures
        encoded_result(Ok(val), code) < 0x8000_0000,
        encoded_result(Err(error), code) >= 0x8000_0000,
        encoded_result(Err(error), code) - 0x8000_0000 == code,
{
    assert(code < 0x8000_0000 ==> (code | 0x8000_0000u32) == code + 0x8000_0000) by (bit_vector);
}

} // verus!
