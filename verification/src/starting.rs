//! What holds of the configuration and of the start of the system.
use vstd::prelude::*;

use crate::bits::u16_of;
use crate::boot::{does, found_at, query_round_trip, BootModel, PciDevice};
use crate::config::{
    before, config, directive_of, directives, line_directive, lines, vendor_device, DirectiveModel,
};
use crate::text::{decimal, unsigned_number, words};

verus! {

proof fn lemma_directive_names()
    ensures
        "driver"@ != "isa"@ && "driver"@ != "pci"@ && "driver"@ != "mount"@ && "driver"@ != "graphics"@,
        "driver"@ != "console"@ && "driver"@ != "net"@ && "driver"@ != "timezone"@,
        "isa"@ != "pci"@ && "isa"@ != "mount"@ && "isa"@ != "graphics"@ && "isa"@ != "console"@,
        "isa"@ != "net"@ && "isa"@ != "timezone"@,
        "pci"@ != "mount"@ && "pci"@ != "graphics"@ && "pci"@ != "console"@ && "pci"@ != "net"@,
        "pci"@ != "timezone"@,
        "mount"@ != "graphics"@ && "mount"@ != "console"@ && "mount"@ != "net"@ && "mount"@
            != "timezone"@,
        "graphics"@ != "console"@ && "graphics"@ != "net"@ && "graphics"@ != "timezone"@,
        "console"@ != "net"@ && "console"@ != "timezone"@,
        "net"@ != "timezone"@,
{
    reveal_strlit("driver");
    reveal_strlit("isa");
    reveal_strlit("pci");
    reveal_strlit("mount");
    reveal_strlit("graphics");
    reveal_strlit("console");
    reveal_strlit("net");
    reveal_strlit("timezone");
    assert("driver"@.len() == 6 && "isa"@.len() == 3 && "pci"@.len() == 3 && "mount"@.len() == 5);
    assert("graphics"@.len() == 8 && "console"@.len() == 7 && "net"@.len() == 3);
    assert("timezone"@.len() == 8);
    assert("isa"@[0] != "pci"@[0]);
    assert("isa"@[0] != "net"@[0]);
    assert("pci"@[0] != "net"@[0]);
    assert("graphics"@[0] != "timezone"@[0]);
}

/// A directive is named by the first word of its line and has the next words as its operands. Words
/// behind them are passed over.
pub proof fn directives_have_their_operands(a: Seq<char>, b: Seq<char>, c: Seq<char>, rest: Seq<Seq<char>>)
    ensures
        directive_of(seq!["driver"@, a] + rest) == Some(DirectiveModel::Driver(a)),
        directive_of(seq!["graphics"@, a] + rest) == Some(DirectiveModel::Graphics(a)),
        directive_of(seq!["console"@] + rest) == Some(DirectiveModel::Console),
        directive_of(seq!["net"@] + rest) == Some(DirectiveModel::Net),
        directive_of(seq!["mount"@, a, b, c] + rest) == Some(DirectiveModel::Mount(a, b, c)),
        directive_of(seq!["mount"@, a, b]) is None,
        directive_of(seq!["driver"@]) is None,
        directive_of(seq!["graphics"@]) is None,
{
    lemma_directive_names();
    let d = seq!["driver"@, a] + rest;
    assert(d[0] == "driver"@ && d[1] == a);
    let g = seq!["graphics"@, a] + rest;
    assert(g[0] == "graphics"@ && g[1] == a);
    assert((seq!["console"@] + rest)[0] == "console"@);
    assert((seq!["net"@] + rest)[0] == "net"@);
    let m = seq!["mount"@, a, b, c] + rest;
    assert(m[0] == "mount"@ && m[1] == a && m[2] == b && m[3] == c);
    assert(seq!["mount"@, a, b][0] == "mount"@);
    assert(seq!["driver"@][0] == "driver"@);
    assert(seq!["graphics"@][0] == "graphics"@);
}

/// Operands that are numbers have to be numbers: an interrupt line, a time zone, the two parts of
/// the name of a device.
pub proof fn directives_with_numbers(
    path: Seq<char>, number: Seq<char>, ids: Seq<char>, rest: Seq<Seq<char>>,
)
    ensures
        ({
            let isa = directive_of(seq!["isa"@, path, number] + rest);
            match unsigned_number(number, 10, 255) {
                Some(n) => isa == Some(DirectiveModel::Isa(path, n as u8)),
                None => isa is None,
            }
        }),
        ({
            let zone = directive_of(seq!["timezone"@, number] + rest);
            match crate::config::signed_number(number) {
                Some(n) => zone == Some(DirectiveModel::Timezone(n)),
                None => zone is None,
            }
        }),
        ({
            let plain = directive_of(seq!["pci"@, ids, path]);
            let master = directive_of(seq!["pci"@, ids, path, "busmaster"@] + rest);
            match vendor_device(ids) {
                Some((v, d)) => plain == Some(DirectiveModel::Pci(v, d, path, false)) && master == Some(
                    DirectiveModel::Pci(v, d, path, true),
                ),
                None => plain is None && master is None,
            }
        }),
{
    lemma_directive_names();
    let i = seq!["isa"@, path, number] + rest;
    assert(i[0] == "isa"@ && i[1] == path && i[2] == number);
    let t = seq!["timezone"@, number] + rest;
    assert(t[0] == "timezone"@ && t[1] == number);
    let p = seq!["pci"@, ids, path];
    assert(p[0] == "pci"@ && p[1] == ids && p[2] == path);
    let m = seq!["pci"@, ids, path, "busmaster"@] + rest;
    assert(m[0] == "pci"@ && m[1] == ids && m[2] == path && m[3] == "busmaster"@);
}

proof fn lemma_before(a: Seq<char>, c: char, b: Seq<char>)
    requires
        !a.contains(c),
    ensures
        before(a, c) == a,
        before(a + seq![c] + b, c) == a,
    decreases a.len(),
{
    let s = a + seq![c] + b;
    if a.len() > 0 {
        assert(s[0] == a[0]);
        assert(a[0] != c) by {
            assert(a.contains(a[0]));
        }
        assert(s.skip(1) =~= a.skip(1) + seq![c] + b);
        assert(!a.skip(1).contains(c)) by {
            if a.skip(1).contains(c) {
                let i = choose|i: int| 0 <= i < a.skip(1).len() && a.skip(1)[i] == c;
                assert(a[i + 1] == c);
            }
        }
        lemma_before(a.skip(1), c, b);
        assert(seq![a[0]] + a.skip(1) =~= a);
    } else {
        assert(s[0] == c);
        assert(before(s, c) =~= a);
        assert(before(a, c) =~= a);
    }
}

/// A device is named by the numbers of its vendor and of the device, with a colon between them.
pub proof fn a_colon_parts_vendor_and_device(vendor: Seq<char>, device: Seq<char>)
    requires
        !vendor.contains(':'),
        !device.contains(':'),
    ensures
        vendor_device(vendor + seq![':'] + device) == (match (
            unsigned_number(vendor, 16, 0xffff),
            unsigned_number(device, 16, 0xffff),
        ) {
            (Some(v), Some(d)) => Some((v as u16, d as u16)),
            _ => None,
        }),
        vendor_device(vendor) is None,
{
    let s = vendor + seq![':'] + device;
    lemma_before(vendor, ':', device);
    assert(s.skip(vendor.len() as int + 1) =~= device);
    lemma_before(device, ':', Seq::empty());
}

proof fn lemma_one_line(text: Seq<char>, line: Seq<char>)
    requires
        !line.contains('\n'),
        text.len() == 0 || text.last() == '\n',
    ensures
        lines(text + line) == lines(text).drop_last().push(line),
        lines(text).len() > 0,
        lines(text).last() == Seq::<char>::empty(),
    decreases line.len(),
{
    let s = text + line;
    assert(lines(text).last() =~= Seq::<char>::empty());
    if line.len() == 0 {
        assert(s =~= text);
        assert(line =~= Seq::empty());
        assert(lines(text) =~= lines(text).drop_last().push(line));
    } else {
        let less = line.drop_last();
        assert(s.drop_last() =~= text + less);
        assert(!less.contains('\n')) by {
            if less.contains('\n') {
                let i = choose|i: int| 0 <= i < less.len() && less[i] == '\n';
                assert(line[i] == '\n');
            }
        }
        assert(s.last() == line.last());
        assert(line.last() != '\n') by {
            assert(line.contains(line.last()));
        }
        lemma_one_line(text, less);
        assert(less.push(line.last()) =~= line);
        assert(lines(text).drop_last().push(less).drop_last() =~= lines(text).drop_last());
    }
}

/// The directives of a text are those of its lines in their order. A line that has none is passed
/// over.
pub proof fn each_line_is_read(front: Seq<char>, line: Seq<char>)
    requires
        !line.contains('\n'),
    ensures
        config(front.push('\n') + line) == config(front) + (match line_directive(line) {
            Some(d) => seq![d],
            None => Seq::empty(),
        }),
        config(line) == (match line_directive(line) {
            Some(d) => seq![d],
            None => Seq::empty(),
        }),
{
    let f = front.push('\n');
    assert(f.drop_last() =~= front);
    lemma_one_line(f, line);
    assert(lines(f).drop_last() =~= lines(front));
    let all = lines(f + line);
    assert(all.drop_last() =~= lines(front));
    assert(all.last() == line);
    assert(config(f + line) =~= config(front) + (match line_directive(line) {
        Some(d) => seq![d],
        None => Seq::empty(),
    }));
    let none = Seq::<char>::empty();
    lemma_one_line(none, line);
    assert(none + line =~= line);
    let one = lines(line);
    assert(one.drop_last() =~= lines(none).drop_last());
    assert(lines(none).drop_last() =~= Seq::empty());
    assert(directives(one.drop_last()) =~= Seq::empty());
    assert(config(line) =~= (match line_directive(line) {
        Some(d) => seq![d],
        None => Seq::empty(),
    }));
}

/// A line whose first word begins with a number sign has no directive; neither has an empty one.
/// Any other line has the directive of its words.
pub proof fn comments_are_passed_over(line: Seq<char>)
    ensures
        words(line).len() == 0 ==> line_directive(line) is None,
        words(line).len() > 0 && words(line)[0].len() > 0 && words(line)[0][0] == '#'
            ==> line_directive(line) is None,
        words(line).len() > 0 && words(line)[0].len() > 0 && words(line)[0][0] != '#' ==> line_directive(
            line,
        ) == directive_of(words(line)),
{
}

/// The driver of a device is started with what is known of the first device of that name: its
/// numbers and where it is. The device may master the bus before if the directive says so, and only
/// then. Without such a device nothing is started.
pub proof fn drivers_are_told_their_device(
    vendor: u16, device: u16, path: Seq<char>, busmaster: bool, devices: Seq<PciDevice>, i: int,
    steps: Seq<BootModel>,
)
    requires
        does(DirectiveModel::Pci(vendor, device, path, busmaster), devices, steps),
    ensures
        found_at(devices, vendor, device, i) ==> {
            let d = devices[i];
            &&& steps.last() matches BootModel::RunPci(program, query)
            &&& program == path
            &&& query.len() == 32
            &&& u16_of(query[0], query[1]) == vendor && u16_of(query[2], query[3]) == device
            &&& query[4] == d.bus && query[5] == d.device && query[6] == d.function
            &&& query[7] == (match d.irq { Some(irq) => irq, None => 0u8 })
            &&& steps.len() == (if busmaster { 3int } else { 2 })
            &&& busmaster ==> steps[1] == BootModel::EnableBusMaster(d.bus, d.device, d.function)
        },
        (forall|k: int|
            0 <= k < devices.len() ==> !((#[trigger] devices[k]).vendor_id == vendor && devices[k].device_id
                == device)) ==> steps.len() == 2 && steps[0] is Log && steps[1] is Log,
{
    if found_at(devices, vendor, device, i) {
        let j = choose|j: int| #[trigger] found_at(devices, vendor, device, j)
            && crate::boot::pci_steps(path, busmaster, Some(devices[j]), steps);
        assert(crate::boot::is_device(devices[i], vendor, device));
        assert(found_at(devices, vendor, device, j));
        assert(i == j) by {
            if i < j {
                assert(!crate::boot::is_device(devices[i], vendor, device));
            }
            if j < i {
                assert(!crate::boot::is_device(devices[j], vendor, device));
            }
        }
        let q = choose|q: crate::api::syscall::PciDeviceQuery| #[trigger]
            crate::boot::is_query_for(q, devices[i]) && steps.last() == BootModel::RunPci(
                path, crate::boot::query_bytes(q),
            );
        query_round_trip(q, 0);
    }
}

/// Every other directive is carried out by one step, with what it was given.
pub proof fn directives_are_carried_out(
    a: Seq<char>, b: Seq<char>, irq: u8, zone: i32, devices: Seq<PciDevice>, steps: Seq<BootModel>,
)
    ensures
        does(DirectiveModel::Isa(a, irq), devices, steps) ==> steps.len() == 2 && steps[1]
            == BootModel::RunIsa(a, decimal(irq as nat)),
        does(DirectiveModel::Mount(a, "FAT"@, b), devices, steps) ==> steps.len() == 2 && steps[1]
            == BootModel::MountFat(a, b),
        does(DirectiveModel::Graphics(a), devices, steps) ==> steps.len() == 2 && steps[1]
            == BootModel::RegisterGraphics(a),
        does(DirectiveModel::Console, devices, steps) ==> steps == seq![BootModel::InitConsole],
        does(DirectiveModel::Net, devices, steps) ==> steps.len() == 2 && steps[1] == BootModel::StartNet,
        does(DirectiveModel::Timezone(zone), devices, steps) ==> steps.len() == 2 && steps[1]
            == BootModel::SetTimezone(zone),
        does(DirectiveModel::Driver(a), devices, steps) ==> steps.len() == 1 && steps[0] is Log,
        a != "FAT"@ && does(DirectiveModel::Mount(b, a, b), devices, steps) ==> steps.len() == 1
            && steps[0] is Log,
{
}

} // verus!
