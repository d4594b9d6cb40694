use std::collections::VecDeque;

use idos::api::compat::{VMRegisters, VM86_IRQ_TIMER};
use idos::api::io::{DriverCommand, IoError, Message};
use idos::hardware::com::{device_name, needs_irq3, ports_of_irq, ComDeviceDriver, ComReply};
use idos::hardware::serial::{
    has_data, is_transmitting, BufferedSerialPort, ComPorts, Poll, PortWrite, SendWait, SerialPort,
};
use idos::interrupts::idt::{init_idt, IdtDescriptor, IdtEntry};
use idos::interrupts::pic::{
    handle_pit_interrupt, timer_interrupted, InstallableHandlerType, Interrupted, InterruptTable,
    IrqPlan, Listener,
};
use idos::io::fatfs::mount_fat_fs_single;
use idos::io::provider::{encode_result, CompletedOp, MessageIOProvider, MessagePacket, TaskIOProvider};
use idos::io::sysfs::{
    content, generate_drives_content, read_slice, FileStatus, ListingType, SysFS, SystemFacts,
};
use idos::log::{BufferedLogger, TaggedLogger};
use idos::task::scheduling::{CPUScheduler, TaskStates, WorkItem};
use idos::task::state::{BlockType, FxState, RunState, Task, TaskID};
use idos::task::vm::{enter_protected_mode, enter_vm86_mode, Vm86State};
use idos::time::system::{SystemClock, Timestamp};

fn message(unique_id: u32, args: [u32; 6]) -> Message {
    Message { unique_id, args }
}

fn task() -> Task {
    Task::new(TaskID(3), TaskID(1), vec![0xEEu8; 64], 0x1000, Timestamp(5))
}

#[test]
fn serial_port_is_set_up() {
    let port = SerialPort::new(0x3f8);
    let writes = port.init();
    assert_eq!(writes[1], PortWrite { port: 0x3fb, value: 0x80 });
    assert_eq!(writes[7], PortWrite { port: 0x3f9, value: 1 });
    assert_eq!(port.send_byte(65), PortWrite { port: 0x3f8, value: 65 });
    assert!(is_transmitting(0));
    assert!(!is_transmitting(0x20));
    assert!(has_data(0x21));
    let mut wait = SendWait { timeout: 2 };
    assert_eq!(wait.poll(0), Poll::Again);
    assert_eq!(wait.poll(0), Poll::GiveUp);
    assert_eq!(SendWait::new().poll(0x20), Poll::Ready);
}

#[test]
fn ring_of_a_port_keeps_order() {
    let mut p = BufferedSerialPort::new(SerialPort::new(0x3f8));
    let data: Vec<u8> = (0..300u32).map(|i| i as u8).collect();
    let n = p.push(&data, 0);
    assert_eq!(n, 255);
    let mut sent = Vec::new();
    while !p.is_empty() {
        let burst = p.flush();
        assert!(burst.len() <= 16);
        sent.extend_from_slice(&burst);
    }
    assert_eq!(p.push(&data, n), 300);
    while !p.is_empty() {
        sent.extend_from_slice(&p.flush());
    }
    assert_eq!(sent, data);
    assert_eq!(p.read_byte(1, 9), Some(9));
    assert_eq!(p.read_byte(0, 9), None);
}

#[test]
fn stuck_ports_drop_the_rest() {
    let mut p = BufferedSerialPort::new(SerialPort::new(0x3f8));
    let data = [7u8; 300];
    assert_eq!(p.push(&data, 0), 255);
    assert!(!p.goes_on(&data, 255));
    p.flush();
    assert!(p.goes_on(&data, 255));
    assert_eq!(p.push(&data, 255), 271);
    assert!(!p.goes_on(&data, 271));
    assert!(!p.goes_on(&[], 0));
    assert!(!BufferedSerialPort::new(SerialPort::new(0x3f8)).goes_on(&data, 300));
}

#[test]
fn ports_are_registered() {
    let mut ports = ComPorts::new();
    assert!(!ports.port_exists(1));
    assert_eq!(ports.init_port(1, 0x2f8).len(), 8);
    assert!(ports.port_exists(1));
    assert!(!ports.port_exists(9));
    assert_eq!(device_name(1), "COM2");
    assert!(needs_irq3(true, false));
    assert_eq!(ports_of_irq(3), vec![1, 3]);
    assert_eq!(ports_of_irq(4), vec![0, 2]);
}

#[test]
fn serial_reads_are_served() {
    let mut d = ComDeviceDriver::new();
    let r = d.handle_request(DriverCommand::OpenRaw, &message(1, [0, 0, 0, 0, 0, 0]));
    assert!(matches!(r, ComReply::Done(Ok(1))));
    let r = d.handle_request(DriverCommand::OpenRaw, &message(2, [1, 0, 0, 0, 0, 0]));
    assert!(matches!(r, ComReply::Done(Ok(2))));
    let r = d.handle_request(DriverCommand::Read, &message(3, [1, 100, 4, 0, 0, 0]));
    assert!(matches!(r, ComReply::Waiting { port_index: 0 }));
    let r = d.handle_request(DriverCommand::Read, &message(4, [2, 200, 4, 0, 0, 0]));
    assert!(matches!(r, ComReply::Waiting { port_index: 1 }));
    let r = d.handle_request(DriverCommand::Read, &message(5, [1, 300, 8, 0, 0, 0]));
    assert!(matches!(r, ComReply::Waiting { port_index: 0 }));
    let mut inputs = vec![b"abcdefg".to_vec(), b"x".to_vec(), vec![], vec![]];
    let done = d.try_complete_reads(&[0, 2], &mut inputs);
    assert_eq!(done.len(), 2);
    assert_eq!((done[0].request_id, done[0].data.clone()), (3, b"abcd".to_vec()));
    assert_eq!((done[1].request_id, done[1].data.clone()), (5, b"efg".to_vec()));
    assert_eq!(inputs[1], b"x".to_vec());
    assert_eq!(d.read_list.len(), 1);
    let r = d.handle_request(DriverCommand::Write, &message(6, [2, 50, 3, 0, 0, 0]));
    assert!(matches!(r, ComReply::Send { port_index: 1, buffer_ptr: 50, buffer_len: 3 }));
    let r = d.handle_request(DriverCommand::Write, &message(6, [9, 50, 3, 0, 0, 0]));
    assert!(matches!(r, ComReply::Done(Err(IoError::FileHandleInvalid))));
    let r = d.handle_request(DriverCommand::Stat, &message(6, [1, 0, 0, 0, 0, 0]));
    assert!(matches!(r, ComReply::Done(Err(IoError::UnsupportedOperation))));
}

#[test]
fn loggers_write_lines() {
    let mut log = BufferedLogger::new();
    assert_eq!(log.log("one"), b"LOG: one\n".to_vec());
    log.log("two");
    assert_eq!(log.flush_to_file(), vec![b"one".to_vec(), b"two".to_vec()]);
    assert!(log.flush_to_file().is_empty());
    let tagged = TaggedLogger::new("NET", 35);
    assert_eq!(&tagged.tag_bytes(), b"NET     ");
    assert_eq!(&TaggedLogger::new("LONGERNAME", 1).tag_bytes(), b"LONGERNA");
    assert_eq!(tagged.log(b"up"), b"\x1b[35mNET     \x1b[0m: up\n".to_vec());
}

#[test]
fn task_states_change() {
    let mut t = task();
    assert!(!t.can_resume());
    t.make_runnable();
    assert_eq!(t.state, RunState::Initialized);
    assert!(t.can_resume());
    t.state = RunState::Running;
    t.sleep(30);
    assert_eq!(t.state.label(), "Sleep");
    assert!(!t.update_timeout(10));
    assert_eq!(t.state, RunState::Blocked(Some(20), BlockType::Sleep));
    assert!(t.update_timeout(20));
    t.futex_wait(None);
    assert!(!t.update_timeout(1000));
    t.futex_wake();
    assert_eq!(t.state, RunState::Running);
    t.begin_file_mapping_request();
    t.futex_wake();
    assert_eq!(t.state.label(), "FileMapWait");
    assert!(t.resolve_file_mapping_request(Ok(7)));
    assert!(!t.resolve_file_mapping_request(Ok(8)));
    assert_eq!(t.last_map_result, Some(Ok(7)));
    t.terminate();
    assert!(t.is_terminated());
    assert!(!t.has_executable());
}

#[test]
fn task_stack_grows_down() {
    let mut t = task();
    assert_eq!(t.stack_pointer, 0x1000 + 60);
    assert_eq!(t.get_stack_top(), 0x1040);
    t.stack_push_u32(0x0102_0304);
    assert_eq!(&t.stack[56..60], &[4, 3, 2, 1]);
    t.stack_push_u8(9);
    assert_eq!(t.stack[55], 9);
    t.reset_stack_pointer();
    t.set_entry_point(0xc0de_0000);
    assert_eq!(t.stack_pointer, 0x1040 - 32);
    assert_eq!(&t.stack[32..36], &[0, 0, 0xde, 0xc0]);
    assert!(t.stack[..32].iter().all(|b| *b == 0xee));
    assert!(t.stack[36..64].iter().all(|b| *b == 0));
    t.set_filename(b"X.ELF");
    t.push_arg(b"a");
    t.push_args(&vec![b"b".to_vec(), b"c".to_vec()]);
    assert_eq!(t.args, vec![b"a".to_vec(), b"b".to_vec(), b"c".to_vec()]);
    let idle = Task::create_initial_task(vec![0; 16], 0, Timestamp(0));
    assert_eq!(idle.filename, b"IDLE".to_vec());
    assert_eq!((idle.stack.len(), idle.stack_pointer, idle.page_directory), (16, 12, 0));
    assert_eq!(idle.fpu_state.data[..], FxState::new().data[..]);
    let fx = FxState::new();
    assert_eq!((fx.data[0], fx.data[1], fx.data[24], fx.data[25]), (0x7f, 3, 0x80, 0x1f));
}

#[test]
fn tasks_run_in_turn() {
    let mut states = TaskStates { states: Default::default() };
    states.states.insert(1, RunState::Running);
    states.states.insert(2, RunState::Terminated);
    states.states.insert(3, RunState::Initialized);
    let mut s = CPUScheduler::new(0, TaskID(0));
    for id in [1, 2, 3] {
        s.reenqueue_task(TaskID(id));
    }
    assert_eq!(s.switch(&states), Some(TaskID(1)));
    assert_eq!(s.switch(&states), Some(TaskID(3)));
    assert_eq!(s.switch(&states), Some(TaskID(1)));
    states.states.insert(1, RunState::Terminated);
    states.states.insert(3, RunState::Blocked(None, BlockType::Futex));
    assert_eq!(s.switch(&states), Some(TaskID(0)));
    assert_eq!(s.switch(&states), None);
    assert_eq!(s.get_current_task(), s.get_idle_task());
    assert_eq!(s.get_next_work_item(), None);
    s.reenqueue_work_item(WorkItem::Task(TaskID(9)));
    assert_eq!(s.get_next_work_item(), Some(WorkItem::Task(TaskID(9))));
    assert_eq!([s.tick(), s.tick(), s.tick(), s.tick()], [false, true, false, true]);
}

fn registers() -> VMRegisters {
    VMRegisters {
        eax: 1, ebx: 2, ecx: 3, edx: 4, esi: 5, edi: 6, ebp: 7, eip: 8, cs: 9, eflags: 2, esp: 11,
        ss: 12, es: 13, ds: 14, fs: 15, gs: 16,
    }
}

#[test]
fn old_modes_are_entered() {
    let mut state = Vm86State { irq_mask: 0, pending_irqs: 0 };
    let mut regs = registers();
    enter_vm86_mode(&mut state, &mut regs, 3);
    assert_eq!((regs.eflags, state.irq_mask), (0x20202, 3));
    let mut regs = registers();
    assert_eq!(enter_protected_mode(&mut regs), [8, 9, 0x202, 11, 12]);
}

#[test]
fn interrupt_table_is_filled() {
    let handlers: Vec<u32> = (0..256u32).map(|v| 0x10_0000 + v * 16).collect();
    let idt = init_idt(&handlers);
    assert_eq!(idt[9], IdtEntry::new());
    assert_eq!(idt[0x32], IdtEntry::new());
    assert_eq!(idt[0x2b].type_and_attributes, 0xee);
    assert_eq!(idt[0x0e].type_and_attributes, 0x8e);
    assert_eq!((idt[0xf0].offset_high, idt[0xf0].offset_low, idt[0xf0].selector), (0x10, 0xf00, 8));
    let mut d = IdtDescriptor::new();
    d.point_to(&idt, 0xc000_0000);
    assert_eq!(d, IdtDescriptor { size: 2047, offset: 0xc000_0000 });
}

#[test]
fn listeners_are_told() {
    let mut t = InterruptTable::new();
    assert!(t.add_interrupt_listener(5, TaskID(9), 1));
    assert!(t.add_interrupt_listener(5, TaskID(4), 2));
    assert!(!t.add_interrupt_listener(5, TaskID(9), 3));
    assert!(!t.add_interrupt_listener(16, TaskID(1), 3));
    assert!(t.has_listeners(5) && !t.has_listeners(6) && !t.has_listeners(77));
    let told = t.notify_interrupt_listeners(5);
    assert_eq!(told[0], Listener { task: TaskID(4), io_index: 2 });
    assert_eq!(told[1], Listener { task: TaskID(9), io_index: 1 });
    assert!(t.is_interrupt_active(5));
    assert!(t.notify_interrupt_listeners(5).is_empty());
    assert!(t.acknowledge_interrupt(5));
    assert!(!t.is_interrupt_active(5));
    assert_eq!(t.notify_interrupt_listeners(5).len(), 2);
    t.install_interrupt_handler(3, 0xabc, None);
    t.install_interrupt_handler(4, 0xdef, Some(TaskID(2)));
    assert_eq!(t.try_installed_handler(3), InstallableHandlerType::Kernel(0xabc));
    assert_eq!(t.try_installed_handler(4), InstallableHandlerType::KernelTask(0xdef, TaskID(2)));
    assert_eq!(t.handle_pic_interrupt(0, 0), IrqPlan::Timer);
    assert_eq!(t.handle_pic_interrupt(7, 0), IrqPlan::Spurious);
    assert_eq!(t.handle_pic_interrupt(7, 0x80), IrqPlan::Serve { notify: false });
    assert_eq!(t.handle_pic_interrupt(15, 0x80), IrqPlan::SpuriousSecond);
    assert_eq!(t.handle_pic_interrupt(5, 0), IrqPlan::Serve { notify: true });
}

#[test]
fn timer_reaches_programs() {
    let mut clock = SystemClock::new();
    assert_eq!(handle_pit_interrupt(&mut clock), 10);
    assert_eq!(clock.get_system_ticks(), 1);
    let mut frame = Interrupted { cs: 0, eflags: 0x20000 };
    let mut state = Vm86State { irq_mask: VM86_IRQ_TIMER, pending_irqs: 0 };
    assert!(timer_interrupted(&mut frame, &mut state, true));
    assert_eq!((frame.eflags, state.pending_irqs), (0x20100, VM86_IRQ_TIMER));
    let mut frame = Interrupted { cs: 8, eflags: 0 };
    assert!(!timer_interrupted(&mut frame, &mut state, true));
}

#[test]
fn mounts_are_requested() {
    assert_eq!(mount_fat_fs_single(b"C", b"ATA1", 1, 1), Some(b"\x01C\x04ATA1".to_vec()));
    assert_eq!(mount_fat_fs_single(b"C", b"ATA1", 0, 1), None);
}

fn facts() -> SystemFacts {
    SystemFacts {
        user_ticks: 1,
        kernel_ticks: 2,
        idle_ticks: 3,
        total_frames: 10,
        free_frames: 4,
        drives: vec![b"SYS".to_vec(), b"C".to_vec()],
    }
}

#[test]
fn system_files_tell() {
    assert_eq!(
        content(ListingType::CPU, &facts()),
        b"CPU Usage:\nUser Time: 10 ms\nKernel Time: 20 ms\nIdle Time: 30 ms\nTotal Ticks: 6".to_vec()
    );
    assert_eq!(
        content(ListingType::Memory, &facts()),
        b"Total Memory: 40 KiB\nFree Memory: 16 KiB".to_vec()
    );
    assert_eq!(content(ListingType::KernInfo, &facts()), b"IDOS-NX Version 0.1\n".to_vec());
    assert_eq!(generate_drives_content(&facts().drives), b"C\nDEV\nSYS".to_vec());
    assert_eq!(generate_drives_content(&vec![]), b"DEV".to_vec());
    let long = SystemFacts { user_ticks: u32::MAX, total_frames: 0x3fff_ffff, ..facts() };
    assert_eq!(
        content(ListingType::Memory, &long),
        b"Total Memory: 4294967292 KiB\nFree Memory: 16 KiB".to_vec()
    );
    assert_eq!(content(ListingType::Drives, &long), b"C\nDEV\nSYS".to_vec());
    let late = SystemFacts { idle_ticks: 429_496_729, total_frames: u32::MAX, ..facts() };
    assert!(content(ListingType::CPU, &late).ends_with(b"Idle Time: 4294967290 ms\nTotal Ticks: 429496732"));
}

#[test]
fn system_files_are_opened() {
    let mut fs = SysFS::new();
    assert_eq!(fs.open(Some("")), Ok(0));
    assert_eq!(fs.open(Some("kernInfo")), Ok(1));
    assert_eq!(fs.open(Some("dr\u{131}ves")), Ok(2));
    assert_eq!(fs.open(Some("nothing")), Err(IoError::NotFound));
    assert_eq!(fs.open(None), Err(IoError::NotFound));
    let mut buffer = [b'-'; 8];
    assert_eq!(fs.read(1, &mut buffer, 8, &facts()), Ok(8));
    assert_eq!(&buffer, b"Version ");
    assert_eq!(fs.read(1, &mut buffer, 100, &facts()), Ok(0));
    assert_eq!(fs.read(9, &mut buffer, 0, &facts()), Err(IoError::FileHandleInvalid));
    let mut status = FileStatus { byte_size: 9, file_type: 9, modification_time: 9 };
    assert_eq!(fs.stat(1, &mut status), Ok(1));
    assert_eq!(status, FileStatus { byte_size: 0, file_type: 1, modification_time: 0 });
    assert_eq!(fs.stat(8, &mut status), Err(IoError::FileHandleInvalid));
    assert_eq!(fs.close(1), Ok(1));
    assert_eq!(fs.close(1), Err(IoError::FileHandleInvalid));
    assert_eq!(fs.open(Some("CPU")), Ok(1));
    assert_eq!(ListingType::from_upper("MEMORY"), Some(ListingType::Memory));
    let mut small = [0u8; 2];
    assert_eq!(read_slice(b"abc", &mut small, 1), 2);
    assert_eq!(&small, b"bc");
}

#[test]
fn messages_are_handed_over() {
    let mut p = MessageIOProvider::for_task(TaskID(1));
    assert_eq!(p.next_id, 1);
    let mut queue: VecDeque<MessagePacket> = VecDeque::new();
    let packet = |n: u32| MessagePacket { sender: TaskID(n), message: message(n, [0; 6]) };
    let (first, done) = p.add_op(0x1000, &mut queue);
    assert!(done.is_none());
    p.add_op(0x2000, &mut queue);
    for n in 1..=3 {
        queue.push_back(packet(n));
    }
    let out = p.check_messages(&mut queue);
    assert_eq!(out.len(), 2);
    assert_eq!((out[0].op.id, out[0].packet.sender), (first, TaskID(1)));
    assert_eq!((out[1].op.address, out[1].packet.sender), (0x2000, TaskID(2)));
    assert!(queue.is_empty());
    queue.push_back(packet(4));
    assert!(p.check_messages(&mut queue).is_empty());
    assert_eq!(queue.len(), 1);
    let (_, done) = p.add_op(0x3000, &mut queue);
    assert_eq!(done.unwrap().packet.sender, TaskID(4));
    assert_eq!(MessageIOProvider::copy_message(0x1234), (0x1000, 0x234));
}

#[test]
fn ends_of_tasks_are_told() {
    let mut p = TaskIOProvider::for_task(TaskID(6));
    assert!(p.matches_task(TaskID(6)) && !p.matches_task(TaskID(7)));
    let (a, none) = p.add_read();
    assert!(none.is_none());
    let (b, _) = p.add_read();
    assert_eq!(
        p.task_exited(42),
        vec![CompletedOp { id: a, value: 42 }, CompletedOp { id: b, value: 42 }]
    );
    let (c, done) = p.add_read();
    assert_eq!(done, Some(CompletedOp { id: c, value: 42 }));
    assert_eq!(p.close(), Ok(0));
    assert_eq!(encode_result(Ok(0x8000_0005)), 5);
    assert_eq!(encode_result(Err(5)), 0x8000_0005);
}
