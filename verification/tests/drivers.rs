use idos::api::compat::VMRegisters;
use idos::api::io::{DriverCommand, IoError, Message};
use idos::drivers::e1000::{
    rx_ring, setup, tx_ring, E1000Controller, EthernetDevice, EthernetDriver, EthernetReply, RegisterAction,
    REG_RDT, REG_TDT, TX_LAST, TX_MORE,
};
use idos::drivers::floppy::{
    check_lock, check_version, device_name, needs_reset, next_transfer, parse_u8,
    reads_before_write, recalibrate_again, transfer_params, BlockRequest, ChsGeometry,
    ControllerError, DmaChannelRegisters, DriveSelect, DriveType, FloppyDeviceDriver, FloppyReply,
};
use idos::drivers::sb16::{
    mix_into, parse_u16_hex, to_samples, version_supported, AudioStream, Dsp, SB16Driver,
};
use idos::hardware::serial::PortWrite;
use idos::programs::gfx::{
    get_vbe_mode_info, instruction_address, map_signal, parse_request, step_bios,
    video_bios_interrupt, BiosStep, GfxRequest,
};
use idos::programs::netcat::{
    build_config, connecting_message, listening_message, parse_ipv4, parse_u16, relay,
    sending_message, udp_buffer, Mode, RelayStep, BAD_PORT, NO_HOST, USAGE,
};
use idos::programs::tonegen::{sine_i16, tone_chunk, TOTAL_SAMPLES};

fn message(unique_id: u32, args: [u32; 6]) -> Message {
    Message { unique_id, args }
}

#[test]
fn sectors_have_places() {
    assert_eq!(ChsGeometry::from_lba(0), ChsGeometry { cylinder: 0, head: 0, sector: 1 });
    assert_eq!(ChsGeometry::from_lba(18), ChsGeometry { cylinder: 0, head: 1, sector: 1 });
    assert_eq!(ChsGeometry::from_lba(2879), ChsGeometry { cylinder: 79, head: 1, sector: 18 });
}

#[test]
fn floppy_reads_give_the_disk() {
    let disk: Vec<u8> = (0..2880 * 512u32).map(|i| (i % 253) as u8).collect();
    let mut request = BlockRequest {
        drive: DriveSelect::Primary,
        buf_offset: 0,
        position: 17 * 512 + 100,
        total: 6000,
    };
    let mut buffer = vec![0u8; 6000];
    let mut dma = vec![0u8; 4096];
    let mut count = 0;
    while let Some(t) = request.transfer() {
        let from = t.first_sector * 512;
        let len = t.sector_count * 512;
        dma[..len].copy_from_slice(&disk[from..from + len]);
        request.take(&t, &dma, &mut buffer);
        request.advance(&t);
        count += 1;
    }
    assert_eq!(&buffer[..], &disk[17 * 512 + 100..17 * 512 + 6100]);
    assert_eq!(count, 3);
}

#[test]
fn floppy_writes_change_the_request_alone() {
    let before: Vec<u8> = (0..100 * 512u32).map(|i| (i % 249) as u8).collect();
    let mut disk = before.clone();
    let data = vec![0xABu8; 5000];
    let mut request = BlockRequest {
        drive: DriveSelect::Primary,
        buf_offset: 0,
        position: 300,
        total: 5000,
    };
    let mut dma = vec![0u8; 4096];
    while let Some(t) = request.transfer() {
        let from = t.first_sector * 512;
        let len = t.sector_count * 512;
        if reads_before_write(&t) {
            dma[..len].copy_from_slice(&disk[from..from + len]);
        }
        request.put(&t, &mut dma, &data);
        disk[from..from + len].copy_from_slice(&dma[..len]);
        request.advance(&t);
    }
    assert_eq!(&disk[300..5300], &data[..]);
    assert_eq!(&disk[..300], &before[..300]);
    assert_eq!(&disk[5300..], &before[5300..]);
    assert!(!reads_before_write(&next_transfer(512, 1024)));
}

#[test]
fn floppy_commands() {
    assert_eq!(check_version(0x90), Ok(()));
    assert_eq!(check_version(0x80), Err(ControllerError::UnsupportedController));
    assert_eq!(check_lock(0), Err(ControllerError::InvalidResponse));
    assert!(recalibrate_again(1, 0) && !recalibrate_again(1, 0x20) && !recalibrate_again(2, 0));
    assert!(!needs_reset(0x80) && needs_reset(0xc0) && needs_reset(0));
    assert_eq!(
        transfer_params(DriveSelect::Secondary, &ChsGeometry { cylinder: 5, head: 1, sector: 9 }),
        vec![5, 5, 1, 9, 2, 18, 0x1b, 0xff]
    );
    let (dma, mask) = DmaChannelRegisters::for_channel(2, 1);
    assert_eq!(mask, PortWrite { port: 0x0f, value: 5 });
    assert_eq!(dma.set_address(0x123456)[3], PortWrite { port: 0x81, value: 0x12 });
    assert_eq!(dma.set_count(0x1ff)[2], PortWrite { port: 5, value: 1 });
    assert_eq!(dma.set_mode(0x56), PortWrite { port: 0x0b, value: 0x56 });
    assert_eq!(dma.release(), PortWrite { port: 0x0f, value: 1 });
    assert_eq!(parse_u8(b"IRQ 6"), 6);
    assert_eq!(parse_u8(b"300"), 44);
    assert_eq!(&device_name(2), b"FD2");
}

#[test]
fn floppy_files() {
    let mut d = FloppyDeviceDriver::new();
    d.set_device(0, DriveType::Capacity1440K);
    assert_eq!(d.select_drive(DriveSelect::Secondary, 0x1c), Some(0x1d));
    assert_eq!(d.select_drive(DriveSelect::Secondary, 0x1c), None);
    assert_eq!(d.open(2), Err(IoError::NotFound));
    let r = d.handle_driver_request(DriverCommand::OpenRaw, &message(1, [1, 0, 0, 0, 0, 0]));
    assert!(matches!(r, FloppyReply::Done(Ok(1))));
    let r = d.handle_driver_request(DriverCommand::Read, &message(1, [1, 0, 100, 7, 0, 0]));
    assert!(matches!(
        r,
        FloppyReply::Read(BlockRequest { drive: DriveSelect::Secondary, buf_offset: 0, position: 7, total: 100 })
    ));
    let r = d.handle_driver_request(DriverCommand::Write, &message(1, [8, 0, 100, 7, 0, 0]));
    assert!(matches!(r, FloppyReply::Done(Err(IoError::FileHandleInvalid))));
    let r = d.handle_driver_request(DriverCommand::Write, &message(1, [8, 0, 0, 7, 0, 0]));
    assert!(matches!(r, FloppyReply::Done(Ok(0))));
    let r = d.handle_driver_request(DriverCommand::Close, &message(1, [1, 0, 0, 0, 0, 0]));
    assert!(matches!(r, FloppyReply::Done(Ok(1))));
    assert_eq!(d.close(1), Err(IoError::FileHandleInvalid));
    let r = d.handle_driver_request(DriverCommand::OpenRaw, &message(1, [2, 0, u32::MAX, 9, 0, 0]));
    assert!(matches!(r, FloppyReply::Done(Err(IoError::NotFound))));
    let r = d.handle_driver_request(DriverCommand::OpenRaw, &message(1, [0, 0, 0, 0, 0, 0]));
    assert!(matches!(r, FloppyReply::Done(Ok(2))));
}

#[test]
fn sound_commands() {
    let dsp = Dsp::new(0x220);
    assert_eq!(dsp.ack_irq_16(), 0x22f);
    assert_eq!(dsp.set_sample_rate(22050), vec![0x41, 0x56, 0x22]);
    assert_eq!(dsp.start_playback_16bit(1024), vec![0xB6, 0x10, 0xff, 3]);
    assert_eq!((dsp.stop(), dsp.resume(), dsp.get_version()), (0xD5, 0xD6, 0xE1));
    assert!(Dsp::reset(0x80, 0xAA) && !Dsp::reset(0x80, 0) && !Dsp::reset(0, 0xAA));
    assert!(Dsp::ready_for_command(0) && !Dsp::ready_for_command(0x80));
    assert!(version_supported(4) && !version_supported(3));
    assert_eq!(parse_u16_hex(b"0x220"), 0x220);
    assert_eq!(parse_u16_hex(b"12 4f"), 0x124f);
    let writes = SB16Driver::new(0x12_3456).setup_dma_16bit();
    assert_eq!(writes.len(), 10);
    assert_eq!(writes[3], PortWrite { port: 0xC4, value: 0x2b });
    assert_eq!(writes[5], PortWrite { port: 0x8B, value: 0x12 });
    assert_eq!(writes[8], PortWrite { port: 0xC6, value: 0x07 });
}

#[test]
fn streams_are_mixed() {
    let mut a = AudioStream::new();
    let mut b = AudioStream::new();
    assert_eq!(a.write_samples(&[100, 30000, -30000, 5]), 4);
    assert_eq!(b.write_samples(&[1, 30000, -30000]), 3);
    let mut streams = vec![Some(a), None, Some(b)];
    let mut out = [9i16; 5];
    mix_into(&mut streams, &mut out);
    assert_eq!(out, [101, 32767, -32768, 5, 0]);
    assert!(streams[0].as_ref().unwrap().is_empty());
    let mut many: Vec<Option<AudioStream>> = (0..40)
        .map(|_| {
            let mut s = AudioStream::new();
            s.write_samples(&[3, -1000]);
            Some(s)
        })
        .collect();
    let mut out = [0i16; 2];
    mix_into(&mut many, &mut out);
    assert_eq!(out, [120, -32768]);
}

#[test]
fn ring_of_a_stream() {
    let mut s = AudioStream::new();
    assert_eq!(s.space(), 8191);
    assert_eq!(s.write_samples(&vec![7i16; 9000]), 8191);
    assert_eq!(s.available(), 8191);
    assert_eq!(s.read_sample(), 7);
    assert_eq!(s.write_samples(&[8]), 1);
    for _ in 0..8190 {
        assert_eq!(s.read_sample(), 7);
    }
    assert_eq!(s.read_sample(), 8);
    assert_eq!(s.read_sample(), 0);
}

#[test]
fn sound_writes_wait_for_room() {
    let mut d = SB16Driver::new(0);
    let file = d.open().unwrap();
    assert_eq!(file, 1);
    assert_eq!(d.open().unwrap(), 2 | (1 << 16));
    assert!(d.streams[0].as_ref().unwrap().pending_write.is_none());
    let bytes = vec![1u8; 20000];
    let out = d.write_audio(file, &bytes, 77);
    assert!(out.result.is_none() && out.start);
    assert_eq!(to_samples(&bytes[..3]), vec![0x0101]);
    let mut half = vec![0i16; 1024];
    assert_eq!(d.finished_half(), 1024);
    assert!(d.handle_irq(&mut half).is_empty());
    assert_eq!(half[0], 0x0101);
    assert_eq!(d.finished_half(), 0);
    let done = d.handle_irq(&mut half);
    assert_eq!(done.len(), 1);
    assert_eq!((done[0].request_id, done[0].len), (77, 20000));
    assert_eq!(d.write_audio(file, &[0, 1], 78).result, Some(Ok(2)));
    assert_eq!(d.write_audio(5 << 16, &[0, 1], 78).result, Some(Err(IoError::FileHandleInvalid)));
    assert_eq!(d.close_stream(file), (Ok(1), false));
    assert_eq!(d.close_stream(1 << 16), (Ok(1), true));
    assert_eq!(d.close_stream(1 << 16), (Err(IoError::FileHandleInvalid), false));
    for _ in 0..8 {
        assert!(d.open().is_ok());
    }
    assert_eq!(d.open(), Err(IoError::OperationFailed));
}

#[test]
fn packets_are_sent_in_parts() {
    let mut d = EthernetDriver::new();
    d.tx_ring_index = 7;
    let data: Vec<u8> = (0..2500u32).map(|i| i as u8).collect();
    let mut ring = tx_ring(0xa000);
    assert_eq!((ring.len(), ring[2].addr_low, ring[2].command), (8, 0xa000 + 2 * 1024, 0));
    ring[0].status = 1;
    let (sent, parts, end) = d.tx(&data, &mut ring);
    assert_eq!(sent, 2500);
    assert_eq!((ring[7].length, ring[0].length, ring[1].length), (1024, 1024, 452));
    assert_eq!((ring[0].status, ring[0].command, ring[1].command), (0, TX_MORE, TX_LAST));
    assert_eq!((ring[2].length, ring[0].addr_low), (0, 0xa000));
    assert_eq!(parts.iter().map(|p| p.index).collect::<Vec<_>>(), vec![7, 0, 1]);
    assert_eq!(parts.iter().map(|p| p.command).collect::<Vec<_>>(), vec![TX_MORE, TX_MORE, TX_LAST]);
    assert_eq!(parts.iter().flat_map(|p| p.data.clone()).collect::<Vec<u8>>(), data);
    assert_eq!(end, RegisterAction::Write(REG_TDT, 2));
    assert_eq!(setup(0x1000)[11], RegisterAction::Write(0x3800, 0x1080));
    assert_eq!(E1000Controller::get_mac_address(0x44332211, 0x6655), [0x11, 0x22, 0x33, 0x44, 0x55, 0x66]);
    assert_eq!(E1000Controller::set_flags(1, 6), 7);
    assert_eq!(E1000Controller::clear_flags(7, 2), 5);
    assert_eq!(E1000Controller::new(0x1000).register(0x400), 0x1400);
}

#[test]
fn packets_are_received() {
    let mut ring = rx_ring(0x8000);
    assert_eq!(ring[3].addr_low, 0x8000 + 3 * 1024);
    let mut dev = EthernetDevice::new(EthernetDriver::new());
    let read = message(5, [1, 0x500, 60, 0, 0, 0]);
    assert!(matches!(dev.handle_request(DriverCommand::Read, &read, &ring), EthernetReply::Waiting));
    assert!(dev.handle_interrupt(0x80, &ring).is_none());
    ring[0].status = 3;
    assert!(dev.handle_interrupt(0, &ring).is_none());
    let (pending, index, len) = dev.handle_interrupt(0x80, &ring).unwrap();
    assert_eq!((pending.request_id, index, len), (5, 0, 60));
    assert_eq!(dev.driver.mark_current_rx_read(&mut ring), RegisterAction::Write(REG_RDT, 0));
    assert_eq!(ring[0].status, 0);
    assert_eq!(dev.driver.rx_ring_index, 1);
    ring[1].status = 1;
    let big = message(6, [1, 0x500, 9999, 0, 0, 0]);
    assert!(matches!(
        dev.handle_request(DriverCommand::Read, &big, &ring),
        EthernetReply::Receive { index: 1, len: 1024 }
    ));
    assert!(matches!(dev.handle_request(DriverCommand::OpenRaw, &big, &ring), EthernetReply::Done(Ok(1))));
    assert!(matches!(dev.handle_request(DriverCommand::Close, &big, &ring), EthernetReply::Done(Ok(1))));
    assert!(matches!(
        dev.handle_request(DriverCommand::Stat, &big, &ring),
        EthernetReply::Done(Err(IoError::UnsupportedOperation))
    ));
}

fn args(s: &[&str]) -> Vec<Vec<u8>> {
    s.iter().map(|a| a.as_bytes().to_vec()).collect()
}

#[test]
fn netcat_arguments() {
    let c = build_config(&args(&["-u", "10.0.2.2", "5000"])).ok().unwrap();
    assert_eq!((c.mode, c.udp, c.host, c.port), (Mode::Connect, true, b"10.0.2.2".to_vec(), 5000));
    let c = build_config(&args(&["-l", "80"])).ok().unwrap();
    assert_eq!((c.mode, c.port), (Mode::Listen, 80));
    assert_eq!(build_config(&args(&["host", "x"])).err(), Some(BAD_PORT));
    assert_eq!(build_config(&args(&["80"])).err(), Some(USAGE));
    assert_eq!(build_config(&args(&[])).err(), Some(USAGE));
    assert!(NO_HOST.starts_with("Must specify"));
    assert_eq!(parse_u16(b"65535"), Some(65535));
    assert_eq!(parse_u16(b"65536"), None);
    assert_eq!(parse_u16(b"0"), None);
    assert_eq!(parse_u16(b"8a"), None);
}

#[test]
fn netcat_addresses() {
    assert_eq!(parse_ipv4(b"10.0.2.255"), Some([10, 0, 2, 255]));
    assert_eq!(parse_ipv4(b"10.0.2.256"), None);
    assert_eq!(parse_ipv4(b"10.0.2"), None);
    assert_eq!(parse_ipv4(b"10..2.1"), None);
    assert_eq!(parse_ipv4(b"1.2.3.4.5"), None);
    assert_eq!(parse_ipv4(b"1.2.3.x"), None);
    assert_eq!(udp_buffer(&[1, 2, 3, 4], 0x1234, b"hi"), vec![1, 2, 3, 4, 0x12, 0x34, b'h', b'i']);
    assert_eq!(listening_message(80), b"Listening on port 80...\n".to_vec());
    assert_eq!(connecting_message(b"h", 80), b"Connecting to h:80...\n".to_vec());
    assert_eq!(sending_message(&[b'h'; 64], 80).len(), 64);
    assert_eq!(relay(0), RelayStep::Stop);
    assert_eq!(relay(0x8000_0001), RelayStep::Stop);
    assert_eq!(relay(12), RelayStep::Forward(12));
}

#[test]
fn tone_is_made() {
    assert_eq!(sine_i16(0, 50), 0);
    assert_eq!(sine_i16(1, 8), 32767);
    assert_eq!(sine_i16(5, 8), -32767);
    assert_eq!(sine_i16(1, 50), (((1310 * (16384 - 1310)) >> 13) * 4) as i16);
    assert_eq!(tone_chunk(0).len(), 512);
    assert_eq!(tone_chunk(0)[51], sine_i16(1, 50));
    for phase in 0..25 {
        assert_eq!(sine_i16(phase + 25, 50), -sine_i16(phase, 50));
    }
    assert_eq!(tone_chunk(TOTAL_SAMPLES - 10).len(), 10);
}

fn registers() -> VMRegisters {
    VMRegisters {
        eax: 0, ebx: 0, ecx: 0, edx: 0, esi: 0, edi: 0, ebp: 0, eip: 0, cs: 0, eflags: 2, esp: 0,
        ss: 0, es: 5, ds: 0, fs: 0, gs: 0,
    }
}

#[test]
fn video_modes_are_set() {
    let r = parse_request(0x12, &[0x118, 0x9004, 0, 0, 0, 0]);
    assert_eq!(r, GfxRequest::SetVbe { mode: 0x118, signal: 0x9004 });
    assert_eq!(parse_request(0x10, &[0; 6]), GfxRequest::Ignored);
    assert_eq!(map_signal(0x9004), (0x9000, 4));
    let mut regs = registers();
    video_bios_interrupt(r, &mut regs, 0, 0x1234, 0xc000, 0x9000);
    assert_eq!((regs.eax, regs.ebx, regs.eip, regs.cs, regs.esp), (0x4F02, 0x4118, 0x1234, 0xc000, 0x8ffa));
    assert_eq!(instruction_address(&regs), 0xc1234);
    let info = parse_request(0x11, &[0x118, 1, 2, 0, 0, 0]);
    video_bios_interrupt(info, &mut regs, 0x9000, 0, 0, 0x9000);
    assert_eq!((regs.eax, regs.ecx, regs.es, regs.edi), (0x4F01, 0x118, 0, 0x9000));
    video_bios_interrupt(parse_request(0x17, &[3, 4, 5, 0, 0, 0]), &mut regs, 0, 0, 0, 0x9000);
    assert_eq!((regs.eax, regs.ecx, regs.edx), (0x4F07, 3, 4));
    video_bios_interrupt(parse_request(0x01, &[0x113, 5, 0, 0, 0, 0]), &mut regs, 0, 0, 0, 0x9000);
    assert_eq!(regs.eax, 0x13);
}

#[test]
fn video_code_is_helped() {
    let mut regs = registers();
    regs.eflags = 0x20246;
    let step = step_bios(0x9c, &mut regs, 0);
    assert_eq!(step, BiosStep::WriteAndResume { address: 0xfffe, word: 0x246 });
    assert_eq!((regs.esp, regs.eip), (0xfffe, 1));
    assert_eq!(step_bios(0x9d, &mut regs, 0x46), BiosStep::Resume);
    assert_eq!((regs.esp, regs.eip, regs.eflags), (0, 2, 0x20246));
    assert_eq!(step_bios(0xfa, &mut regs, 0), BiosStep::Resume);
    assert_eq!(step_bios(0xfb, &mut regs, 0), BiosStep::Resume);
    assert_eq!(step_bios(0xcf, &mut regs, 0), BiosStep::Return);
    assert_eq!(regs.eip, 4);
    let mut s = vec![0u8; 256];
    s[16..22].copy_from_slice(&[0, 4, 0, 2, 0x80, 1]);
    s[25] = 16;
    s[40..44].copy_from_slice(&[0, 0, 0, 0xfd]);
    let info = get_vbe_mode_info(&s);
    assert_eq!((info.pitch, info.width, info.height, info.bpp, info.framebuffer), (1024, 512, 384, 16, 0xfd000000));
}
