use idos::api::io::IoError;
use idos::boot::{default_steps, execute_directive, BootStep, PciDevice};
use idos::complaints::{config_messages, line_message, open_failure, read_messages};
use idos::config::{
    config_chunk, parse_config, parse_i32, parse_vendor_device, read_config, split_lines, Directive,
};
use idos::log::TaggedLogger;
use idos::text::{parse_unsigned, split_whitespace, trim};

#[test]
fn words_are_split_at_white_space() {
    assert_eq!(split_whitespace("  a\tbc \u{2003}d\n"), vec!["a", "bc", "d"]);
    assert!(split_whitespace(" \t ").is_empty());
}

#[test]
fn numbers_in_text() {
    assert_eq!(parse_unsigned("255", 10, 255), Some(255));
    assert_eq!(parse_unsigned("256", 10, 255), None);
    assert_eq!(parse_unsigned("+7", 10, 255), Some(7));
    assert_eq!(parse_unsigned("+", 10, 255), None);
    assert_eq!(parse_unsigned("", 10, 255), None);
    assert_eq!(parse_unsigned("fF", 16, 0xffff), Some(255));
    assert_eq!(parse_i32("-420"), Some(-420));
    assert_eq!(parse_i32("60"), Some(60));
    assert_eq!(parse_i32("x"), None);
    assert_eq!(parse_i32(""), None);
    assert_eq!(parse_i32("4x"), None);
    assert_eq!(parse_i32("-"), None);
    assert_eq!(parse_i32("-+4"), Some(-4));
    assert_eq!(parse_i32("-+"), None);
    assert_eq!(parse_i32("--4"), None);
    assert_eq!(parse_i32("+-4"), None);
    assert_eq!(parse_i32("+4"), Some(4));
    assert_eq!(parse_i32("3000000000"), None);
    assert_eq!(parse_i32("2147483647"), Some(i32::MAX));
    assert_eq!(parse_i32("2147483648"), None);
    assert_eq!(parse_i32("-2147483648"), Some(i32::MIN));
    assert_eq!(parse_i32("-2147483649"), None);
    assert_eq!(parse_vendor_device("8086:100e"), Some((0x8086, 0x100e)));
    assert_eq!(parse_vendor_device("8086:100E:zz"), Some((0x8086, 0x100e)));
    assert_eq!(parse_vendor_device("8086"), None);
    assert_eq!(parse_vendor_device("8086:xyz"), None);
}

#[test]
fn directives_of_a_file() {
    let text = "# a comment\r\n\r\n  driver ps2\nisa C:\\FLOPPY.ELF 6\npci 8086:100e C:\\E1000.ELF busmaster\npci 1:2 C:\\X.ELF\nmount A FAT FD1\ngraphics C:\\GFX.ELF\nconsole\nnet\ntimezone -420\nisa C:\\BAD.ELF 999\nwhat is this\ndriver";
    let d = parse_config(text);
    assert_eq!(d.len(), 9);
    assert!(matches!(&d[0], Directive::Driver(n) if n == "ps2"));
    assert!(matches!(&d[1], Directive::Isa { path, irq: 6 } if path == "C:\\FLOPPY.ELF"));
    assert!(matches!(
        &d[2],
        Directive::Pci { vendor_id: 0x8086, device_id: 0x100e, path, busmaster: true }
            if path == "C:\\E1000.ELF"
    ));
    assert!(matches!(&d[3], Directive::Pci { vendor_id: 1, device_id: 2, busmaster: false, .. }));
    assert!(matches!(
        &d[4],
        Directive::Mount { drive_letter, fs_type, device }
            if drive_letter == "A" && fs_type == "FAT" && device == "FD1"
    ));
    assert!(matches!(&d[5], Directive::Graphics(p) if p == "C:\\GFX.ELF"));
    assert!(matches!(&d[6], Directive::Console));
    assert!(matches!(&d[7], Directive::Net));
    assert!(matches!(&d[8], Directive::Timezone(-420)));
}

#[test]
fn bytes_that_are_no_text_have_no_directives() {
    assert!(read_config(&[b'n', b'e', b't', b'\n', 0xff]).is_empty());
    assert_eq!(read_config(b"net\n").len(), 1);
}

#[test]
fn chunks_are_collected() {
    let mut contents = Vec::new();
    assert!(config_chunk(&mut contents, b"net\n----", Ok(4)));
    assert!(!config_chunk(&mut contents, b"--------", Ok(0)));
    assert!(!config_chunk(&mut contents, b"--------", Err(IoError::ReadError)));
    assert_eq!(contents, b"net\n".to_vec());
}

#[test]
fn directives_are_carried_out() {
    let devices = vec![PciDevice {
        vendor_id: 0x8086,
        device_id: 0x100e,
        bus: 1,
        device: 2,
        function: 3,
        irq: Some(11),
        bar: [Some(0xfebc0000), None, None, None, None, Some(7)],
    }];
    let d = parse_config("pci 8086:100e E.ELF busmaster\npci 1:1 E.ELF\ndriver floppy\nmount B NTFS X\nisa S.ELF 5");
    let steps = execute_directive(&d[0], &devices);
    assert_eq!(steps.len(), 3);
    assert!(matches!(&steps[0], BootStep::Log(t) if t == b"PCI driver: E.ELF\n"));
    assert!(matches!(&steps[1], BootStep::EnableBusMaster { bus: 1, device: 2, function: 3 }));
    match &steps[2] {
        BootStep::RunPci { path, query } => {
            assert_eq!(path, "E.ELF");
            assert_eq!(query.len(), 32);
            assert_eq!(&query[..12], &[0x86, 0x80, 0x0e, 0x10, 1, 2, 3, 11, 0, 0, 0xbc, 0xfe]);
            assert_eq!(&query[28..], &[7, 0, 0, 0]);
        }
        _ => panic!("no program"),
    }
    let steps = execute_directive(&d[1], &devices);
    assert!(matches!(&steps[1], BootStep::Log(t) if t == b"  PCI device not found\n"));
    let steps = execute_directive(&d[2], &devices);
    assert_eq!(steps.len(), 1);
    let steps = execute_directive(&d[3], &devices);
    assert!(matches!(&steps[0], BootStep::Log(t) if t == b"Unknown filesystem type: NTFS\n"));
    let steps = execute_directive(&d[4], &devices);
    assert!(matches!(&steps[1], BootStep::RunIsa { irq, .. } if irq == b"5"));
    assert_eq!(default_steps().len(), 3);
}

#[test]
fn white_space_around_is_cut() {
    assert_eq!(trim("  a b\t\r\n"), "a b");
    assert_eq!(trim("\u{2003}\u{e9} \u{3000}"), "\u{e9}");
    assert_eq!(trim(" \t "), "");
    assert_eq!(trim("ab"), "ab");
    assert_eq!(split_lines("a\r\n\nb"), vec!["a\r", "", "b"]);
}

#[test]
fn lines_that_are_wrong_are_told() {
    let message = |line: &str| line_message(line).map(|m| String::from_utf8(m).unwrap());
    let told = |m: &str| Some(String::from(m));
    assert_eq!(message(" driver "), told("Config: 'driver' missing name: driver"));
    assert_eq!(message("isa X.ELF"), told("Config: 'isa' missing args: isa X.ELF"));
    assert_eq!(message("isa X.ELF 256"), told("Config: invalid IRQ '256': isa X.ELF 256"));
    assert_eq!(message("pci 1:2"), told("Config: 'pci' missing args: pci 1:2"));
    assert_eq!(message("\tpci 12 X.ELF"), told("Config: invalid PCI ID '12': pci 12 X.ELF"));
    assert_eq!(message("mount A FAT"), told("Config: 'mount' missing args: mount A FAT"));
    assert_eq!(message("graphics"), told("Config: 'graphics' missing path: graphics"));
    assert_eq!(message("timezone"), told("Config: 'timezone' missing offset: timezone"));
    assert_eq!(
        message("timezone  x"),
        told("Config: invalid timezone offset 'x': timezone  x")
    );
    assert_eq!(message("what is  this\r"), told("Config: unknown directive: what is  this"));
    for line in ["", " \t", "# driver", "  #driver", "net", "console", "timezone -+4", "isa X 5"] {
        assert_eq!(message(line), None);
    }
}

#[test]
fn every_line_gives_a_directive_or_a_message() {
    let text = "# all\r\nnet\r\ndriver\r\n\r\nbad\r\nisa X.ELF 5\r\n";
    assert_eq!(parse_config(text).len(), 2);
    assert_eq!(
        config_messages(text),
        vec![
            b"Config: 'driver' missing name: driver".to_vec(),
            b"Config: unknown directive: bad".to_vec(),
        ]
    );
}

#[test]
fn files_that_cannot_be_read_are_told() {
    let path = "C:\\DRIVERS.CFG";
    assert_eq!(
        read_messages(path, &[b'b', b'a', b'd', 0xff]),
        vec![b"C:\\DRIVERS.CFG contains invalid UTF-8".to_vec()]
    );
    assert_eq!(read_messages(path, b"bad\n"), vec![b"Config: unknown directive: bad".to_vec()]);
    assert!(read_messages(path, b"net\n").is_empty());
    assert_eq!(
        open_failure(path, IoError::NotFound),
        b"Failed to open C:\\DRIVERS.CFG: NotFound".to_vec()
    );
    assert_eq!(
        TaggedLogger::new("CONFIG", 33).log(b"bad"),
        b"\x1b[33mCONFIG  \x1b[0m: bad\n".to_vec()
    );
}
