//! Starting the system: what each directive of the configuration does.
use vstd::prelude::*;

use crate::api::syscall::PciDeviceQuery;
use crate::bits::{bytes_round_trip, u16_of, u32_bytes, u32_of};
use crate::bytes::le32_bytes;
use crate::config::{Directive, DirectiveModel};
use crate::text::{decimal, push_decimal, push_text, same_text, text};

verus! {

/// A device on the bus.
#[derive(Clone, Copy, Debug)]
pub struct PciDevice {
    pub vendor_id: u16,
    pub device_id: u16,
    pub bus: u8,
    pub device: u8,
    pub function: u8,
    pub irq: Option<u8>,
    pub bar: [Option<u32>; 6],
}

/// One step of starting the system.
pub enum BootStep {
    /// Write to the log.
    Log(Vec<u8>),
    /// Run a driver program with its path and a number as arguments, and wait until it
    /// is ready.
    RunIsa { path: String, irq: Vec<u8> },
    /// Let a device master the bus.
    EnableBusMaster { bus: u8, device: u8, function: u8 },
    /// Run a driver program, send it what it needs to know of its device, and wait until
    /// it is ready.
    RunPci { path: String, query: Vec<u8> },
    /// Mount a FAT disk.
    MountFat { drive_letter: String, disk: String },
    RegisterGraphics { path: String },
    InitConsole,
    StartNet,
    SetTimezone(i32),
}

/// The same, over sequences.
pub enum BootModel {
    Log(Seq<u8>),
    RunIsa(Seq<char>, Seq<u8>),
    EnableBusMaster(u8, u8, u8),
    RunPci(Seq<char>, Seq<u8>),
    MountFat(Seq<char>, Seq<char>),
    RegisterGraphics(Seq<char>),
    InitConsole,
    StartNet,
    SetTimezone(i32),
}

impl View for BootStep {
    type V = BootModel;

    open spec fn view(&self) -> BootModel {
        match self {
            BootStep::Log(t) => BootModel::Log(t@),
            BootStep::RunIsa { path, irq } => BootModel::RunIsa(path@, irq@),
            BootStep::EnableBusMaster { bus, device, function } => BootModel::EnableBusMaster(
                *bus, *device, *function,
            ),
            BootStep::RunPci { path, query } => BootModel::RunPci(path@, query@),
            BootStep::MountFat { drive_letter, disk } => BootModel::MountFat(
                drive_letter@, disk@,
            ),
            BootStep::RegisterGraphics { path } => BootModel::RegisterGraphics(path@),
            BootStep::InitConsole => BootModel::InitConsole,
            BootStep::StartNet => BootModel::StartNet,
            BootStep::SetTimezone(offset) => BootModel::SetTimezone(*offset),
        }
    }
}

pub open spec fn steps_model(v: Seq<BootStep>) -> Seq<BootModel> {
    Seq::new(v.len(), |i: int| v[i]@)
}

/// Some numbers of a register list as bytes.
pub open spec fn bars_bytes(bar: Seq<u32>) -> Seq<u8>
    decreases bar.len(),
{
    if bar.len() == 0 { Seq::empty() } else { bars_bytes(bar.drop_last()) + le32_bytes(bar.last()) }
}

/// What a driver program is sent of its device.
pub open spec fn query_bytes(q: PciDeviceQuery) -> Seq<u8> {
    seq![
        (q.vendor_id % 256) as u8, (q.vendor_id / 256) as u8, (q.device_id % 256) as u8,
        (q.device_id / 256) as u8, q.bus, q.device, q.function, q.irq,
    ] + bars_bytes(q.bar@)
}

/// The query with a device filled in: what the device lacks is 0.
pub open spec fn is_query_for(q: PciDeviceQuery, d: PciDevice) -> bool {
    &&& q.vendor_id == d.vendor_id
    &&& q.device_id == d.device_id
    &&& q.bus == d.bus
    &&& q.device == d.device
    &&& q.function == d.function
    &&& q.irq == (match d.irq {
        Some(irq) => irq,
        None => 0,
    })
    &&& forall|i: int|
        0 <= i < 6 ==> #[trigger] q.bar@[i] == (match d.bar@[i] {
            Some(b) => b,
            None => 0,
        })
}

/// The query for a device.
pub fn query_for(d: &PciDevice) -> (q: PciDeviceQuery)
    ensures
        is_query_for(q, *d),
{
    let mut q: PciDeviceQuery = PciDeviceQuery::new(d.vendor_id, d.device_id);
    q.bus = d.bus;
    q.device = d.device;
    q.function = d.function;
    q.irq = match d.irq {
        Some(irq) => irq,
        None => 0,
    };
    let mut i: usize = 0;
    while i < 6
        invariant
            i <= 6,
            q.vendor_id == d.vendor_id,
            q.device_id == d.device_id,
            q.bus == d.bus,
            q.device == d.device,
            q.function == d.function,
            q.irq == (match d.irq {
                Some(irq) => irq,
                None => 0,
            }),
            forall|k: int|
                0 <= k < i ==> #[trigger] q.bar@[k] == (match d.bar@[k] {
                    Some(b) => b,
                    None => 0,
                }),
        decreases 6 - i,
    {
        q.bar[i] = match d.bar[i] {
            Some(b) => b,
            None => 0,
        };
        i += 1;
    }
    q
}

/// A query as bytes.
pub fn encode_query(q: &PciDeviceQuery) -> (r: Vec<u8>)
    ensures
        r@ == query_bytes(*q),
{
    let mut out: Vec<u8> = vec![
        (q.vendor_id % 256) as u8,
        (q.vendor_id / 256) as u8,
        (q.device_id % 256) as u8,
        (q.device_id / 256) as u8,
        q.bus,
        q.device,
        q.function,
        q.irq,
    ];
    let ghost head = out@;
    assert(head =~= seq![
        (q.vendor_id % 256) as u8, (q.vendor_id / 256) as u8, (q.device_id % 256) as u8,
        (q.device_id / 256) as u8, q.bus, q.device, q.function, q.irq,
    ]);
    let mut i: usize = 0;
    assert(bars_bytes(q.bar@.subrange(0, 0)) =~= Seq::empty());
    assert(out@ =~= head + bars_bytes(q.bar@.subrange(0, 0)));
    while i < 6
        invariant
            i <= 6,
            out@ == head + bars_bytes(q.bar@.subrange(0, i as int)),
        decreases 6 - i,
    {
        let (a, b, c, d): (u8, u8, u8, u8) = u32_bytes(q.bar[i]);
        let ghost part = q.bar@.subrange(0, i + 1);
        assert(part.drop_last() =~= q.bar@.subrange(0, i as int));
        assert(part.last() == q.bar@[i as int]);
        out.push(a);
        out.push(b);
        out.push(c);
        out.push(d);
        assert(out@ =~= head + bars_bytes(part));
        i += 1;
    }
    assert(q.bar@.subrange(0, 6) =~= q.bar@);
    out
}

/// The address of a register list in the bytes of a query.
pub open spec fn bar_in(s: Seq<u8>, i: int) -> u32 {
    u32_of(s[8 + 4 * i], s[9 + 4 * i], s[10 + 4 * i], s[11 + 4 * i])
}

proof fn lemma_bars(bar: Seq<u32>, i: int)
    requires
        0 <= i < bar.len(),
    ensures
        bars_bytes(bar).len() == 4 * bar.len(),
        bars_bytes(bar).subrange(4 * i, 4 * i + 4) == le32_bytes(bar[i]),
    decreases bar.len(),
{
    let rest = bar.drop_last();
    lemma_bars_len(bar);
    lemma_bars_len(rest);
    if i < bar.len() - 1 {
        lemma_bars(rest, i);
        assert(bars_bytes(bar).subrange(4 * i, 4 * i + 4) =~= bars_bytes(rest).subrange(
            4 * i, 4 * i + 4,
        ));
    } else {
        assert(bars_bytes(bar).subrange(4 * i, 4 * i + 4) =~= le32_bytes(bar[i]));
    }
}

proof fn lemma_bars_len(bar: Seq<u32>)
    ensures
        bars_bytes(bar).len() == 4 * bar.len(),
    decreases bar.len(),
{
    if bar.len() > 0 {
        lemma_bars_len(bar.drop_last());
    }
}

/// A driver program reads from its query what was put into it.
pub proof fn query_round_trip(q: PciDeviceQuery, i: int)
    requires
        0 <= i < 6,
    ensures
        query_bytes(q).len() == 32,
        u16_of(query_bytes(q)[0], query_bytes(q)[1]) == q.vendor_id,
        u16_of(query_bytes(q)[2], query_bytes(q)[3]) == q.device_id,
        query_bytes(q)[7] == q.irq,
        bar_in(query_bytes(q), i) == q.bar@[i],
{
    let s = query_bytes(q);
    lemma_bars(q.bar@, i);
    let part = bars_bytes(q.bar@).subrange(4 * i, 4 * i + 4);
    assert(s[8 + 4 * i] == part[0]);
    assert(s[9 + 4 * i] == part[1]);
    assert(s[10 + 4 * i] == part[2]);
    assert(s[11 + 4 * i] == part[3]);
    bytes_round_trip(q.bar@[i], 0, 0, 0, 0);
}

/// A device with the given numbers.
pub open spec fn is_device(d: PciDevice, vendor_id: u16, device_id: u16) -> bool {
    d.vendor_id == vendor_id && d.device_id == device_id
}

/// The first device with the given numbers.
pub open spec fn found_at(devices: Seq<PciDevice>, vendor_id: u16, device_id: u16, i: int) -> bool {
    0 <= i < devices.len() && is_device(devices[i], vendor_id, device_id) && forall|k: int|
        0 <= k < i ==> !is_device(#[trigger] devices[k], vendor_id, device_id)
}

/// Find the first device with the given numbers.
pub fn find_device(devices: &Vec<PciDevice>, vendor_id: u16, device_id: u16) -> (r: Option<usize>)
    ensures
        match r {
            Some(i) => found_at(devices@, vendor_id, device_id, i as int),
            None => forall|k: int|
                0 <= k < devices@.len() ==> !is_device(#[trigger] devices@[k], vendor_id, device_id),
        },
{
    let mut i: usize = 0;
    while i < devices.len()
        invariant
            i <= devices@.len(),
            forall|k: int| 0 <= k < i ==> !is_device(#[trigger] devices@[k], vendor_id, device_id),
        decreases devices@.len() - i,
    {
        if devices[i].vendor_id == vendor_id && devices[i].device_id == device_id {
            return Some(i);
        }
        i += 1;
    }
    None
}

/// What a directive for a device does.
pub open spec fn pci_steps(
    path: Seq<char>, busmaster: bool, device: Option<PciDevice>, steps: Seq<BootModel>,
) -> bool {
    let head = seq![BootModel::Log(logged("PCI driver: ", path))];
    match device {
        None => steps == head + seq![BootModel::Log(text("  PCI device not found\n"))],
        Some(d) => exists|q: PciDeviceQuery| #[trigger]
            is_query_for(q, d) && steps == head + (if busmaster {
                seq![BootModel::EnableBusMaster(d.bus, d.device, d.function)]
            } else {
                Seq::empty()
            }) + seq![BootModel::RunPci(path, query_bytes(q))],
    }
}

/// A line of the log with a name.
pub open spec fn logged(label: &str, name: Seq<char>) -> Seq<u8> {
    text(label) + vstd::utf8::encode_utf8(name) + text("\n")
}

/// What a directive does, given the devices on the bus.
pub open spec fn does(d: DirectiveModel, devices: Seq<PciDevice>, steps: Seq<BootModel>) -> bool {
    match d {
        DirectiveModel::Driver(name) => steps == seq![
            BootModel::Log(
                if name == "ps2"@ {
                    text("Driver ps2 already installed (bootstrap)\n")
                } else if name == "ata"@ {
                    text("Driver ata already installed (bootstrap)\n")
                } else if name == "floppy"@ {
                    text("Warning: floppy is now a userspace driver, use 'isa' directive\n")
                } else {
                    logged("Unknown driver: ", name)
                },
            ),
        ],
        DirectiveModel::Isa(path, irq) => steps == seq![
            BootModel::Log(logged("ISA driver: ", path)),
            BootModel::RunIsa(path, decimal(irq as nat)),
        ],
        DirectiveModel::Pci(vendor_id, device_id, path, busmaster) => {
            (exists|i: int| #[trigger]
                found_at(devices, vendor_id, device_id, i) && pci_steps(
                    path, busmaster, Some(devices[i]), steps,
                )) || ((forall|k: int|
                0 <= k < devices.len() ==> !is_device(#[trigger] devices[k], vendor_id, device_id))
                && pci_steps(path, busmaster, None, steps))
        },
        DirectiveModel::Mount(drive_letter, fs_type, device) => steps == (if fs_type == "FAT"@ {
            seq![
                BootModel::Log(
                    text("Mounting ") + vstd::utf8::encode_utf8(drive_letter) + text(":\\ ...\n"),
                ),
                BootModel::MountFat(drive_letter, device),
            ]
        } else {
            seq![BootModel::Log(logged("Unknown filesystem type: ", fs_type))]
        }),
        DirectiveModel::Graphics(path) => steps == seq![
            BootModel::Log(text("Initializing Graphics Driver...\n")),
            BootModel::RegisterGraphics(path),
        ],
        DirectiveModel::Console => steps == seq![BootModel::InitConsole],
        DirectiveModel::Net => steps == seq![
            BootModel::Log(text("Initializing Net Stack...\n")),
            BootModel::StartNet,
        ],
        DirectiveModel::Timezone(offset) => steps == seq![
            BootModel::Log(text("Setting timezone offset\n")),
            BootModel::SetTimezone(offset),
        ],
    }
}

fn log_of(s: &str) -> (r: BootStep)
    ensures
        r@ == BootModel::Log(text(s)),
{
    let mut out: Vec<u8> = Vec::new();
    push_text(&mut out, s);
    assert(out@ =~= text(s));
    BootStep::Log(out)
}

fn log_name(label: &str, name: &str, end: &str) -> (r: BootStep)
    ensures
        r@ == BootModel::Log(text(label) + vstd::utf8::encode_utf8(name@) + text(end)),
{
    let mut out: Vec<u8> = Vec::new();
    push_text(&mut out, label);
    push_text(&mut out, name);
    push_text(&mut out, end);
    assert(out@ =~= text(label) + vstd::utf8::encode_utf8(name@) + text(end));
    BootStep::Log(out)
}

/// What a directive does, in order.
pub fn execute_directive(directive: &Directive, devices: &Vec<PciDevice>) -> (r: Vec<BootStep>)
    ensures
        does(directive@, devices@, steps_model(r@)),
{
    let mut steps: Vec<BootStep> = Vec::new();
    match directive {
        Directive::Driver(name) => {
            let n: &str = name.as_str();
            if same_text(n, "ps2") {
                steps.push(log_of("Driver ps2 already installed (bootstrap)\n"));
            } else if same_text(n, "ata") {
                steps.push(log_of("Driver ata already installed (bootstrap)\n"));
            } else if same_text(n, "floppy") {
                steps.push(
                    log_of("Warning: floppy is now a userspace driver, use 'isa' directive\n"),
                );
            } else {
                steps.push(log_name("Unknown driver: ", n, "\n"));
            }
            assert(steps_model(steps@) =~= seq![steps@[0]@]);
        },
        Directive::Isa { path, irq } => {
            steps.push(log_name("ISA driver: ", path.as_str(), "\n"));
            let mut number: Vec<u8> = Vec::new();
            push_decimal(&mut number, *irq as u64);
            assert(number@ =~= decimal(*irq as nat));
            steps.push(BootStep::RunIsa { path: path.clone(), irq: number });
            assert(steps_model(steps@) =~= seq![steps@[0]@, steps@[1]@]);
        },
        Directive::Pci { vendor_id, device_id, path, busmaster } => {
            steps.push(log_name("PCI driver: ", path.as_str(), "\n"));
            let ghost head = seq![BootModel::Log(logged("PCI driver: ", path@))];
            match find_device(devices, *vendor_id, *device_id) {
                None => {
                    steps.push(log_of("  PCI device not found\n"));
                    assert(steps_model(steps@) =~= head + seq![
                        BootModel::Log(text("  PCI device not found\n")),
                    ]);
                },
                Some(i) => {
                    let d: PciDevice = devices[i];
                    if *busmaster {
                        steps.push(
                            BootStep::EnableBusMaster {
                                bus: d.bus,
                                device: d.device,
                                function: d.function,
                            },
                        );
                    }
                    let q: PciDeviceQuery = query_for(&d);
                    steps.push(BootStep::RunPci { path: path.clone(), query: encode_query(&q) });
                    assert(steps_model(steps@) =~= head + (if *busmaster {
                        seq![BootModel::EnableBusMaster(d.bus, d.device, d.function)]
                    } else {
                        Seq::empty()
                    }) + seq![BootModel::RunPci(path@, query_bytes(q))]);
                    assert(is_query_for(q, devices@[i as int]));
                    assert(found_at(devices@, *vendor_id, *device_id, i as int));
                },
            }
        },
        Directive::Mount { drive_letter, fs_type, device } => {
            if same_text(fs_type.as_str(), "FAT") {
                steps.push(log_name("Mounting ", drive_letter.as_str(), ":\\ ...\n"));
                steps.push(
                    BootStep::MountFat {
                        drive_letter: drive_letter.clone(),
                        disk: device.clone(),
                    },
                );
                assert(steps_model(steps@) =~= seq![steps@[0]@, steps@[1]@]);
            } else {
                steps.push(log_name("Unknown filesystem type: ", fs_type.as_str(), "\n"));
                assert(steps_model(steps@) =~= seq![steps@[0]@]);
            }
        },
        Directive::Graphics(path) => {
            steps.push(log_of("Initializing Graphics Driver...\n"));
            steps.push(BootStep::RegisterGraphics { path: path.clone() });
            assert(steps_model(steps@) =~= seq![steps@[0]@, steps@[1]@]);
        },
        Directive::Console => {
            steps.push(BootStep::InitConsole);
            assert(steps_model(steps@) =~= seq![steps@[0]@]);
        },
        Directive::Net => {
            steps.push(log_of("Initializing Net Stack...\n"));
            steps.push(BootStep::StartNet);
            assert(steps_model(steps@) =~= seq![steps@[0]@, steps@[1]@]);
        },
        Directive::Timezone(offset) => {
            steps.push(log_of("Setting timezone offset\n"));
            steps.push(BootStep::SetTimezone(*offset));
            assert(steps_model(steps@) =~= seq![steps@[0]@, steps@[1]@]);
        },
    }
    steps
}

/// What is done where the configuration has no directive.
pub fn default_steps() -> (r: Vec<BootStep>)
    ensures
        steps_model(r@) == seq![
            BootModel::Log(
                text("Warning: no directives found in DRIVERS.CFG, using defaults\n"),
            ),
            BootModel::RegisterGraphics("C:\\GFX.ELF"@),
            BootModel::InitConsole,
        ],
{
    let mut steps: Vec<BootStep> = Vec::new();
    steps.push(log_of("Warning: no directives found in DRIVERS.CFG, using defaults\n"));
    steps.push(BootStep::RegisterGraphics { path: "C:\\GFX.ELF".to_owned() });
    steps.push(BootStep::InitConsole);
    assert(steps_model(steps@) =~= seq![
        BootModel::Log(text("Warning: no directives found in DRIVERS.CFG, using defaults\n")),
        BootModel::RegisterGraphics("C:\\GFX.ELF"@),
        BootModel::InitConsole,
    ]);
    steps
}

} // verus!
