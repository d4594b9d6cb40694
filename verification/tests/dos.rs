use idos::api::compat::VMRegisters;
use idos::dos::arena::{Arena, HighMemory};
use idos::dos::bios::{
    console_read, keycode_to_bios, pixel_bytes, write_ansi_cursor, KeyboardStep, CLEAR_SCREEN,
};
use idos::dos::descriptors::{LdtDescriptorParams, LdtShadow};
use idos::dos::dpmi::{
    dpmi_handle_int, dpmi_protected_mode_loop, exit_reason_parts, PmExit, PmInterrupt,
};
use idos::dos::loader::{
    com_registers, handle_interrupt, is_mz, load_info_path, set_stdin_canonical, step_over, vm86_exit,
    CompatStep, Fault, MzHeader, Service, Vm86Exit,
};
use idos::dos::machine::{dos_log, HostCall, LogLine, Machine, Missing, Pending};

fn machine() -> Machine {
    Machine::new(vec![0u8; 0x11_1000])
}

fn regs() -> VMRegisters {
    com_registers()
}

#[test]
fn memory_blocks() {
    let mut a = Arena::new();
    a.dos_arena_set_start(0x1000);
    let x = a.dos_arena_alloc(0x100).unwrap();
    let y = a.dos_arena_alloc(0x200).unwrap();
    assert!(x + 0x100 <= y || y + 0x200 <= x);
    assert!(a.dos_arena_free(x));
    assert!(!a.dos_arena_free(x));
    assert_eq!(a.dos_arena_alloc(0x100), Some(x));
    assert!(a.dos_arena_alloc(0xf000).is_none());
    assert!(a.dos_arena_resize(y, 0x80));
    assert!(a.dos_arena_largest() > 0);
    let mut h = HighMemory::new();
    let handle = h.dpmi_high_mem_record(0x200000, 0x1000).unwrap();
    assert_eq!(h.dpmi_high_mem_free(handle), Some((0x200000, 0x1000)));
    assert_eq!(h.dpmi_high_mem_free(handle), None);
}

#[test]
fn descriptors_are_kept() {
    let mut l = LdtShadow::new();
    let d = LdtDescriptorParams { base: 0x12345, limit: 0xffff, access: 0xF2, flags: 0 };
    l.dpmi_ldt_write(0x0f, &d);
    assert_eq!(l.dpmi_ldt_read(0x0f), d);
    l.dpmi_ldt_clear(0x0f);
    assert_eq!(l.dpmi_ldt_read(0x0f).base, 0);
}

#[test]
fn com_programs_are_loaded() {
    let mut m = machine();
    m.setup_dos_memory();
    m.setup_psp();
    let r = m.load_com(&[0xcd, 0x21]);
    assert!(m.arena.dos_arena_tracks(0x800));
    assert_eq!((r.cs, r.eip), (0x800, 0x100));
    assert_eq!((m.read8(0x8100), m.read8(0x8101)), (0xcd, 0x21));
    let mut r = r;
    assert_eq!(m.handle_fault(&mut r), Fault::Interrupt(0x21));
    assert!(is_mz(b'M', b'Z') && !is_mz(b'P', b'K'));
}

#[test]
fn mz_programs_are_loaded() {
    let mut h = vec![0u8; 28];
    h[0] = b'M';
    h[1] = b'Z';
    h[4] = 1;
    h[8] = 2;
    h[0x14] = 0x10;
    h[0x0e] = 1;
    h[0x10] = 0x80;
    let header = MzHeader::parse(&h);
    assert_eq!(header.header_size(), 32);
    assert_eq!(header.image_size(), 480);
    let mut m = machine();
    let r = m.load_mz_exe(&header, &[0u8; 480], &[(4, 0)]);
    assert_eq!(r.eip, 0x10);
    assert_eq!(m.read16(0x8100 + 4), 0x810);
}

#[test]
fn flags_are_saved_and_returned() {
    let mut m = machine();
    let mut r = regs();
    r.cs = 0x800;
    r.eip = 0x100;
    r.esp = 0xfffe;
    r.ss = 0x800;
    m.write8(0x8100, 0xfa);
    assert_eq!(m.handle_fault(&mut r), Fault::Continue);
    assert!(!m.interrupts);
    m.write8(0x8101, 0xf4);
    assert_eq!(m.handle_fault(&mut r), Fault::Stop);
    assert_eq!(vm86_exit(0), Vm86Exit::Fault);
    assert_eq!(vm86_exit(0x301), Vm86Exit::Interrupts(3));
    assert_eq!(vm86_exit(2), Vm86Exit::End);
    assert_eq!(handle_interrupt(0x10), Service::Video);
    assert_eq!(handle_interrupt(0x21), Service::Dos);
    assert!(matches!(handle_interrupt(0x33), Service::Missing(_)));
}

#[test]
fn dos_services() {
    let mut m = machine();
    m.init_file_table(9);
    m.init_cwd(b"C:\\GAMES\\X.COM");
    assert_eq!(m.resolve_dos_path(b"DATA.BIN"), b"C:\\GAMES\\DATA.BIN".to_vec());
    assert_eq!(m.resolve_dos_path(b"D:\\A"), b"D:\\A".to_vec());
    let mut r = regs();
    r.eax = 0x0200;
    r.edx = b'A' as u32;
    let calls = m.dos_api(&mut r);
    assert!(matches!(calls[0], HostCall::WriteByte(_, b'A')));
    let mut r = regs();
    r.eax = 0x0300;
    let calls = m.dos_api(&mut r);
    assert!(matches!(calls[0], HostCall::ReadByte(2)));
    m.aux_char_read(&mut r, Some(b'x'));
    assert_eq!(r.al(), b'x');
    assert!(matches!(m.pending, Pending::Nothing));
    assert!(!m.dos_api_ready(&VMRegisters { eax: 0x0900, ds: 0x1_0000, ..regs() }));
    assert!(m.dos_api_ready(&VMRegisters { eax: 0x0900, ds: 0x100, ..regs() }));
    assert!(m.dpmi_int31_ready(&VMRegisters { eax: 0x0100, ebx: 0, ..regs() }));
    assert!(!m.dpmi_int31_ready(&VMRegisters { eax: 0x0102, ebx: 0, edx: 0, ..regs() }));
    assert!(m.bios_video_ready(&VMRegisters { eax: 0x1012, es: 0x1_0000, ecx: 0, ..regs() }));
    assert!(!m.bios_video_ready(&VMRegisters { eax: 0x1012, ebx: 0, es: 0x1_0000, ecx: 1, ..regs() }));
    let mut r = regs();
    r.eax = 0x4c05;
    let calls = m.dos_api(&mut r);
    assert!(matches!(calls[0], HostCall::Exit(_)));
    let mut r = regs();
    r.eax = 0x3000;
    m.dos_api(&mut r);
    assert_eq!(r.al(), 5);
}

#[test]
fn blocks_that_cannot_grow_are_reported() {
    let mut m = machine();
    m.arena.dos_arena_set_start(0x1000);
    let x = m.arena.dos_arena_alloc(0x100).unwrap();
    let y = m.arena.dos_arena_alloc(0x200).unwrap();
    let mut r = regs();
    r.eax = 0x4a00;
    r.es = x as u32;
    r.ebx = 0xdead_9000;
    m.dos_api(&mut r);
    assert_eq!((r.eax & 0xffff, r.eflags & 1), (8, 1));
    assert_eq!(r.ebx, 0xdead_0000 | m.arena.dos_arena_largest() as u32);
    r.eax = 0x4a00;
    r.ebx = 0x80;
    m.dos_api(&mut r);
    assert_eq!(r.eflags & 1, 0);
    r.eax = 0x4a00;
    r.es = y as u32 + 1;
    r.ebx = 0x9000;
    m.dos_api(&mut r);
    assert_eq!(r.eflags & 1, 0);
}

#[test]
fn dos_files_are_opened_and_read() {
    let mut m = machine();
    m.init_file_table(9);
    m.init_cwd(b"C:\\X.COM");
    m.store(0x9000, b"A.TXT\0");
    let mut r = regs();
    r.ds = 0x900;
    r.edx = 0;
    r.eax = 0x3d00;
    let calls = m.dos_api(&mut r);
    assert!(matches!(calls[0], HostCall::OpenFile(false)));
    assert_eq!(m.path, b"C:\\A.TXT".to_vec());
    m.file_opened(&mut r, Some(44));
    let handle = r.eax & 0xffff;
    assert_eq!(m.get_dos_fd(handle as u16).map(|f| f.handle), Some(44));
    r.eax = 0x3f00;
    r.ebx = handle;
    r.ecx = 4;
    r.edx = 0x100;
    let calls = m.dos_api(&mut r);
    assert!(matches!(calls[0], HostCall::ReadMemory(44, _, 4, 0)));
    m.file_read(&mut r, Some(b"data"));
    assert_eq!(r.eax & 0xffff, 4);
    assert_eq!(m.read8(0x9100), b'd');
    assert_eq!(m.get_dos_fd(handle as u16).map(|f| f.cursor), Some(4));
}

#[test]
fn video_services() {
    let mut m = machine();
    let mut r = regs();
    r.eax = 0x0013;
    let calls = m.bios_video(&mut r);
    assert!(calls.iter().any(|c| matches!(c, HostCall::EnterGraphics(320, 200, 8))));
    let mut r = regs();
    r.eax = 0x0e41;
    let calls = m.bios_video(&mut r);
    assert!(matches!(calls[0], HostCall::WriteByte(_, 0x41)));
    assert_eq!(write_ansi_cursor(3, 12), b"\x1b[3;12H".to_vec());
    assert_eq!(pixel_bytes(320, 200, 8), 64000);
    assert!(keycode_to_bios(0xff).is_none());
}

#[test]
fn keyboard_services() {
    let mut m = machine();
    let mut r = regs();
    r.eax = 0x0100;
    let step = m.bios_keyboard(&mut r);
    assert_eq!(step, KeyboardStep::Poll);
    assert_eq!(m.keyboard_polled(&mut r, Some((2, 0x41))), KeyboardStep::Poll);
    assert_eq!(m.keyboard_polled(&mut r, None), KeyboardStep::Yield);
    assert_eq!(r.eflags & 0x40, 0x40);
    assert_eq!(m.keyboard_polled(&mut r, Some((1, 0x41))), KeyboardStep::Answered);
    assert_eq!((r.ah(), r.al(), r.eflags & 0x40), (0x1e, b'a', 0));
    r.eax = 0x1000;
    assert_eq!(m.bios_keyboard(&mut r), KeyboardStep::Answered);
    assert_eq!((r.ah(), r.al()), (0x1e, b'a'));
    r.eax = 0;
    assert_eq!(m.bios_keyboard(&mut r), KeyboardStep::Poll);
    assert_eq!(m.keyboard_polled(&mut r, None), KeyboardStep::ReadConsole);
    assert_eq!(console_read(&mut r, None), KeyboardStep::ReadConsole);
    assert_eq!(console_read(&mut r, Some(b'z')), KeyboardStep::Answered);
    assert_eq!((r.ah(), r.al()), (0, b'z'));
    assert_eq!(CLEAR_SCREEN.as_bytes(), b"\x1b[2J\x1b[H");
}

#[test]
fn services_read_no_more_than_they_need() {
    let mut m = machine();
    m.init_file_table(9);
    m.init_cwd(b"C:\\X.COM");
    m.dpmi_active = true;
    let len = m.mem.len() as u32;
    m.store(len - 3, b"ab$");
    let mut r = VMRegisters { eax: 0x0900, edx: len - 3, ds: 0, ..regs() };
    assert!(m.dos_api_ready(&r));
    assert!(matches!(m.dos_api(&mut r)[..], [HostCall::WriteMemory(1, a, 2, 0)] if a == len - 3));
    m.store(len - 3, b"abc");
    assert!(!m.dos_api_ready(&r));
    m.store(len - 3, b"A1\0");
    r.eax = 0x4100;
    assert!(m.dos_api_ready(&r));
    assert!(matches!(m.dos_api(&mut r)[..], [HostCall::RemoveFile]));
    assert_eq!(m.path, b"C:\\A1".to_vec());
    m.file_changed(&mut r, true);
    assert_eq!(r.eflags & 1, 0);
    let mut r = VMRegisters { eax: 0x3f00, ebx: 7, ecx: u32::MAX, edx: u32::MAX, ds: 0, ..regs() };
    assert!(m.dos_api_ready(&r));
    assert!(m.dos_api(&mut r).is_empty());
    assert_eq!((r.eax & 0xffff, r.eflags & 1), (6, 1));
    r.eax = 0x4000;
    assert!(m.dos_api_ready(&r));
    assert!(m.dos_api(&mut r).is_empty());
    assert_eq!((r.eax & 0xffff, r.eflags & 1), (6, 1));
    r.eax = 0x3f00;
    r.ebx = 0;
    assert!(!m.dos_api_ready(&r));
    let mut r = VMRegisters { eax: 0x4700, esi: len - 1, ds: 0, ..regs() };
    assert!(m.dos_api_ready(&r));
    m.dos_api(&mut r);
    assert_eq!(m.read8(len - 1), 0);
}

#[test]
fn blocks_without_paragraphs_are_answered() {
    let mut m = machine();
    m.dpmi_active = true;
    m.arena.dos_arena_set_start(0x1000);
    let unknown = LdtDescriptorParams { base: 0x3_0000, limit: 15, access: 0xf2, flags: 0x40 };
    m.ldt.dpmi_ldt_write(0x17, &unknown);
    let mut r = VMRegisters { eax: 0x0102, ebx: 0, edx: 0x17, ..regs() };
    assert!(m.dpmi_int31_ready(&r));
    assert!(m.dpmi_int31(&mut r).is_empty());
    assert_eq!((r.ebx & 0xffff, r.eflags & 1), (m.arena.dos_arena_largest() as u32, 1));
    let mut r = VMRegisters { eax: 0x0100, ebx: 0, ..regs() };
    assert!(m.dpmi_int31_ready(&r));
    let calls = m.dpmi_int31(&mut r);
    if let Pending::DosBlock(_, 0) = m.pending {
        assert!(matches!(calls[..], [HostCall::LdtAllocate]));
        assert!(!m.dpmi_reply_ready(0x17));
        assert!(m.dpmi_reply_ready(0xffff_ffff));
        assert!(m.dpmi_reply(&mut r, 0xffff_ffff).is_empty());
        assert_eq!((r.edx & 0xffff, r.eflags & 1), (0xffff, 0));
    } else {
        assert_eq!(r.eflags & 1, 1);
    }
    let mut r = VMRegisters { eax: 0x0100, ebx: 2, ..regs() };
    m.dpmi_int31(&mut r);
    assert!(m.dpmi_reply_ready(0x1f));
    let calls = m.dpmi_reply(&mut r, 0x1f);
    assert!(matches!(calls[..], [HostCall::LdtModify(0x1f, p)] if p.limit == 31));
    let r = VMRegisters { eax: 0x0102, ebx: 0, edx: 0x1f, ..regs() };
    let segment = (m.ldt.dpmi_ldt_read(0x1f).base / 16) as u16;
    assert_eq!(m.dpmi_int31_ready(&r), !m.arena.dos_arena_can_resize(segment, 0));
}

#[test]
fn protected_mode_is_entered() {
    let mut m = machine();
    let mut r = VMRegisters { eax: 0, ..regs() };
    assert_eq!(m.dpmi_enter(&mut r).len(), 2);
    assert_eq!(r.eflags & 1, 1);
    let mut r = VMRegisters { eax: 1, ..regs() };
    m.write16(0x8000 + 0xfffe, 0x1234);
    m.write16(0x8000 + 0xfffe + 2, 0x0900);
    assert_eq!(m.dpmi_enter(&mut r).len(), 5);
    let calls = m.dpmi_enter_selectors(&mut r, 7, 15, 23, 31);
    assert!(matches!(calls[0], HostCall::LdtModify(7, p) if p.base == 0x9000));
    assert!(matches!(calls[4], HostCall::MapMemory(0x4000)));
    let pm = m.dpmi_enter_stack(&mut r, 0x50_0000).unwrap();
    assert_eq!((pm.eip, pm.cs, pm.ds, pm.ss, pm.es), (0x1234, 7, 15, 23, 31));
    assert_eq!((pm.esp, pm.eflags, m.dpmi_active), (0x50_4000, 0x200, true));
    let mut r = VMRegisters { eax: 0x0300, ebx: 0x21, es: 31, edi: 0x40, ..pm };
    m.write32(0x8040 + 28, 0x3000);
    let calls = m.dpmi_int31(&mut r);
    let mut vm = match calls[..] {
        [HostCall::Reflect(0x21, vm)] => vm,
        _ => panic!("no interrupt"),
    };
    let waiting = m.pending;
    assert!(!m.dpmi_active);
    m.dos_api(&mut vm);
    m.pending = waiting;
    m.dpmi_reflected(&mut r, &vm);
    assert_eq!((m.read32(0x8040 + 28) & 0xff, m.dpmi_active, r.eflags & 1), (5, true, 0));
}

#[test]
fn protected_mode_services() {
    let mut m = machine();
    m.dpmi_active = true;
    let mut r = regs();
    r.eax = 0x0000;
    r.ecx = 1;
    let calls = m.dpmi_int31(&mut r);
    assert!(matches!(calls[0], HostCall::LdtAllocate));
    assert_eq!(m.pending, Pending::Descriptors(1));
    m.dpmi_reply(&mut r, 0x17);
    assert_eq!(r.eax & 0xffff, 0x17);
    assert_eq!(m.pending, Pending::Nothing);
    assert!(matches!(dpmi_handle_int(0x21, &r), PmInterrupt::DosApi | PmInterrupt::Stop));
    assert!(matches!(dpmi_handle_int(0x31, &r), PmInterrupt::Services));
    assert_eq!(exit_reason_parts(0x21_0005), (0x05, 0x21));
}

#[test]
fn missing_services_are_logged() {
    let line = dos_log(LogLine::Missing(Missing::DosApi(0x99)));
    assert!(line.windows(2).any(|w| w == b"99"));
}

#[test]
fn turns_of_a_program() {
    let mut m = machine();
    m.setup_dos_memory();
    let mut r = regs();
    r.cs = 0x800;
    r.ss = 0x800;
    r.eip = 0x100;
    r.esp = 0xff00;
    m.write8(0x8100, 0xcd);
    m.write8(0x8101, 0x10);
    assert_eq!(m.compat_start(&mut r, 0), CompatStep::Serve(0x10));
    step_over(&mut r);
    assert_eq!(r.eip, 0x102);
    r.eflags = 0x302;
    m.set_vector(9, 0x900, 0x20);
    assert_eq!(m.compat_start(&mut r, 0x201), CompatStep::Resume);
    assert_eq!((r.cs, r.eip, r.eflags & 0x100, r.esp), (0x900, 0x20, 0, 0xfefa));
    m.write8(0x9020, 0xcf);
    assert_eq!(m.compat_start(&mut r, 0), CompatStep::Resume);
    assert_eq!((r.cs, r.eip, r.esp), (0x800, 0x102, 0xff00));
    assert_eq!(m.compat_start(&mut r, 7), CompatStep::End);
}

#[test]
fn protected_mode_is_left() {
    assert_eq!(dpmi_protected_mode_loop(0x31_0002, 2, 3), PmExit::Interrupt(0x31));
    assert!(matches!(
        dpmi_protected_mode_loop(0x0d_0003, 2, 3),
        PmExit::Stop(LogLine::Missing(Missing::DpmiFault(0x0d)))
    ));
    assert_eq!(dpmi_protected_mode_loop(9, 2, 3), PmExit::Stop(LogLine::UnknownExit));
    assert_eq!(dos_log(LogLine::UnknownExit), b"DPMI: unknown exit reason\n".to_vec());
    assert_eq!(set_stdin_canonical(0x11, true), 0x1b);
    assert_eq!(set_stdin_canonical(0x1b, false), 0x11);
    let mut page = vec![0u8; 24];
    assert_eq!(load_info_path(&page), None);
    page[..12].copy_from_slice(&[0x44, 0x41, 0x4f, 0x4c, 24, 0, 0, 0, 9, 0, 0, 0]);
    assert_eq!(load_info_path(&page), Some((24, 9)));
}
