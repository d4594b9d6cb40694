//! A program that joins its input and output to a connection.
use vstd::prelude::*;

use crate::bytes::truncated;
use crate::text::{decimal, decimal_value, is_digit, push_bytes, push_decimal, push_text, text};

verus! {

#[derive(Clone, Copy, PartialEq, Eq, Structural, Debug)]
pub enum Mode {
    Listen,
    Connect,
}

/// What the program was asked to do.
pub struct Config {
    pub mode: Mode,
    pub udp: bool,
    pub host: Vec<u8>,
    pub port: u16,
}

/// The same, over a sequence.
pub struct ConfigModel {
    pub mode: Mode,
    pub udp: bool,
    pub host: Option<Seq<u8>>,
    pub port: u16,
}

/// A port: a number from 1 to 65535 in decimal digits.
pub open spec fn port_of(s: Seq<u8>) -> Option<u16> {
    if (forall|i: int| 0 <= i < s.len() ==> is_digit(#[trigger] s[i])) && 1 <= decimal_value(s)
        <= 65535 {
        Some(decimal_value(s) as u16)
    } else {
        None
    }
}

proof fn lemma_value_grows(s: Seq<u8>, n: int)
    requires
        0 <= n <= s.len(),
    ensures
        decimal_value(s.subrange(0, n)) <= decimal_value(s),
    decreases s.len(),
{
    if n == s.len() {
        assert(s.subrange(0, n) =~= s);
    } else {
        lemma_value_grows(s.drop_last(), n);
        assert(s.drop_last().subrange(0, n) =~= s.subrange(0, n));
    }
}

/// Read a port.
pub fn parse_u16(s: &[u8]) -> (r: Option<u16>)
    ensures
        r == port_of(s@),
{
    let mut result: u32 = 0;
    let mut i: usize = 0;
    assert(decimal_value(s@.subrange(0, 0)) == 0);
    while i < s.len()
        invariant
            i <= s@.len(),
            result == decimal_value(s@.subrange(0, i as int)),
            result <= 65535,
            forall|k: int| 0 <= k < i ==> is_digit(#[trigger] s@[k]),
        decreases s@.len() - i,
    {
        let b: u8 = s[i];
        if b < 48 || b > 57 {
            assert(!is_digit(s@[i as int]));
            return None;
        }
        assert(s@.subrange(0, i + 1).drop_last() =~= s@.subrange(0, i as int));
        result = result * 10 + (b - 48) as u32;
        if result > 65535 {
            proof { lemma_value_grows(s@, i + 1); }
            return None;
        }
        i += 1;
    }
    assert(s@.subrange(0, s@.len() as int) =~= s@);
    if result == 0 {
        return None;
    }
    Some(result as u16)
}

pub const BAD_PORT: &'static str = "Invalid port number";
pub const USAGE: &'static str = "Usage: netcat [-l] [host] <port>";
pub const NO_HOST: &'static str = "Must specify a host for connect mode";

/// The most bytes of a host's name.
pub const HOST_SIZE: usize = 64;

pub open spec fn host_cut(s: Seq<u8>) -> Seq<u8> {
    if s.len() <= HOST_SIZE { s } else { s.subrange(0, HOST_SIZE as int) }
}

/// The settings after some words: "-l" to listen, "-u" for datagrams, else the host
/// where one is needed, and the port. None where a port is none.
pub open spec fn settings(args: Seq<Seq<u8>>) -> Option<ConfigModel>
    decreases args.len(),
{
    if args.len() == 0 {
        Some(ConfigModel { mode: Mode::Connect, udp: false, host: None, port: 0 })
    } else {
        let arg = args.last();
        match settings(args.drop_last()) {
            None => None,
            Some(c) => if arg == text("-l") {
                Some(ConfigModel { mode: Mode::Listen, ..c })
            } else if arg == text("-u") {
                Some(ConfigModel { udp: true, ..c })
            } else if c.host is None && c.mode == Mode::Connect {
                Some(ConfigModel { host: Some(host_cut(arg)), ..c })
            } else {
                match port_of(arg) {
                    None => None,
                    Some(port) => Some(ConfigModel { port, ..c }),
                }
            },
        }
    }
}

pub open spec fn arg_contents(args: Seq<Vec<u8>>) -> Seq<Seq<u8>> {
    Seq::new(args.len(), |i: int| args[i]@)
}

proof fn lemma_settings_fail(args: Seq<Seq<u8>>, n: int)
    requires
        0 <= n <= args.len(),
        settings(args.subrange(0, n)) is None,
    ensures
        settings(args) is None,
    decreases args.len(),
{
    if n == args.len() {
        assert(args.subrange(0, n) =~= args);
    } else {
        assert(args.drop_last().subrange(0, n) =~= args.subrange(0, n));
        lemma_settings_fail(args.drop_last(), n);
    }
}

/// Read the words of the command line, without the name of the program.
pub fn build_config(args: &Vec<Vec<u8>>) -> (r: Result<Config, &'static str>)
    ensures
        match settings(arg_contents(args@)) {
            None => r matches Err(m) && m@ == BAD_PORT@,
            Some(c) => if c.port == 0 {
                r matches Err(m) && m@ == USAGE@
            } else if c.mode == Mode::Connect && c.host is None {
                r matches Err(m) && m@ == NO_HOST@
            } else {
                r matches Ok(k) && k.mode == c.mode && k.udp == c.udp && k.port == c.port && k.host@
                    == (match c.host {
                    Some(h) => h,
                    None => Seq::empty(),
                })
            },
        },
{
    let ghost all = arg_contents(args@);
    let mut config: Config = Config {
        mode: Mode::Connect,
        udp: false,
        host: Vec::new(),
        port: 0,
    };
    let mut got_host: bool = false;
    let mut i: usize = 0;
    assert(all.subrange(0, 0) =~= Seq::empty());
    assert(config.host@ =~= Seq::empty());
    while i < args.len()
        invariant
            all == arg_contents(args@),
            i <= args@.len(),
            settings(all.subrange(0, i as int)) matches Some(c) && c.mode == config.mode && c.udp
                == config.udp && c.port == config.port && c.host == (if got_host {
                Some(config.host@)
            } else {
                None
            }),
            !got_host ==> config.host@ == Seq::<u8>::empty(),
        decreases args@.len() - i,
    {
        let arg: &[u8] = args[i].as_slice();
        let ghost part = all.subrange(0, i + 1);
        proof {
            assert(part.drop_last() =~= all.subrange(0, i as int));
            assert(part.last() == arg@);
        }
        if crate::text::bytes_equal(arg, "-l".as_bytes()) {
            config.mode = Mode::Listen;
        } else if crate::text::bytes_equal(arg, "-u".as_bytes()) {
            config.udp = true;
        } else if !got_host && config.mode == Mode::Connect {
            let len: usize = if arg.len() < HOST_SIZE { arg.len() } else { HOST_SIZE };
            config.host = crate::text::sub_bytes(arg, 0, len);
            assert(config.host@ =~= host_cut(arg@));
            got_host = true;
        } else {
            match parse_u16(arg) {
                Some(port) => {
                    config.port = port;
                },
                None => {
                    proof { lemma_settings_fail(all, i + 1); }
                    return Err(BAD_PORT);
                },
            }
        }
        i += 1;
    }
    assert(all.subrange(0, args@.len() as int) =~= all);
    if config.port == 0 {
        return Err(USAGE);
    }
    if config.mode == Mode::Connect && !got_host {
        return Err(NO_HOST);
    }
    Ok(config)
}

/// What was read of an address: its finished numbers, the current one, and whether it
/// has a digit.
pub struct AddressState {
    pub octets: Seq<u8>,
    pub current: int,
    pub has_digit: bool,
}

/// The state after some bytes of an address.
pub open spec fn address_state(s: Seq<u8>) -> Option<AddressState>
    decreases s.len(),
{
    if s.len() == 0 {
        Some(AddressState { octets: Seq::empty(), current: 0, has_digit: false })
    } else {
        match address_state(s.drop_last()) {
            None => None,
            Some(a) => if s.last() == 0x2E {
                if !a.has_digit || a.octets.len() >= 3 || a.current > 255 {
                    None
                } else {
                    Some(
                        AddressState {
                            octets: a.octets.push(a.current as u8),
                            current: 0,
                            has_digit: false,
                        },
                    )
                }
            } else if is_digit(s.last()) {
                Some(
                    AddressState {
                        current: a.current * 10 + (s.last() - 48),
                        has_digit: true,
                        ..a
                    },
                )
            } else {
                None
            },
        }
    }
}

/// An address: four numbers up to 255 with dots between.
pub open spec fn address_of(s: Seq<u8>) -> Option<Seq<u8>> {
    match address_state(s) {
        None => None,
        Some(a) => if a.has_digit && a.octets.len() == 3 && a.current <= 255 {
            Some(a.octets.push(a.current as u8))
        } else {
            None
        },
    }
}

proof fn lemma_address_fail(s: Seq<u8>, n: int)
    requires
        0 <= n <= s.len(),
        address_state(s.subrange(0, n)) is None,
    ensures
        address_state(s) is None,
    decreases s.len(),
{
    if n == s.len() {
        assert(s.subrange(0, n) =~= s);
    } else {
        assert(s.drop_last().subrange(0, n) =~= s.subrange(0, n));
        lemma_address_fail(s.drop_last(), n);
    }
}

/// A number that is too large never becomes part of an address.
proof fn lemma_too_large(s: Seq<u8>, n: int)
    requires
        0 <= n <= s.len(),
        address_state(s.subrange(0, n)) matches Some(a) && a.current > 255,
    ensures
        address_of(s) is None,
        address_state(s) matches Some(a) ==> a.current > 255,
    decreases s.len(),
{
    if n == s.len() {
        assert(s.subrange(0, n) =~= s);
    } else {
        assert(s.drop_last().subrange(0, n) =~= s.subrange(0, n));
        lemma_too_large(s.drop_last(), n);
    }
}

/// Read an address.
pub fn parse_ipv4(s: &[u8]) -> (r: Option<[u8; 4]>)
    ensures
        match r {
            Some(a) => address_of(s@) == Some(a@),
            None => address_of(s@) is None,
        },
{
    let mut octets: [u8; 4] = [0; 4];
    let mut octet_idx: usize = 0;
    let mut current: u16 = 0;
    let mut has_digit: bool = false;
    let mut i: usize = 0;
    assert(s@.subrange(0, 0) =~= Seq::empty());
    assert(octets@.subrange(0, 0) =~= Seq::empty());
    while i < s.len()
        invariant
            i <= s@.len(),
            octet_idx <= 3,
            current <= 255,
            address_state(s@.subrange(0, i as int)) == Some(
                AddressState {
                    octets: octets@.subrange(0, octet_idx as int),
                    current: current as int,
                    has_digit,
                },
            ),
        decreases s@.len() - i,
    {
        let b: u8 = s[i];
        let ghost part = s@.subrange(0, i + 1);
        proof {
            assert(part.drop_last() =~= s@.subrange(0, i as int));
            assert(part.last() == b);
        }
        if b == 0x2E {
            if !has_digit || octet_idx >= 3 {
                proof { lemma_address_fail(s@, i + 1); }
                return None;
            }
            let ghost before = octets@.subrange(0, octet_idx as int);
            octets[octet_idx] = current as u8;
            assert(octets@.subrange(0, octet_idx + 1) =~= before.push(current as u8));
            octet_idx += 1;
            current = 0;
            has_digit = false;
        } else if b >= 48 && b <= 57 {
            current = current * 10 + (b - 48) as u16;
            has_digit = true;
            if current > 255 {
                proof { lemma_too_large(s@, i + 1); }
                return None;
            }
        } else {
            proof { lemma_address_fail(s@, i + 1); }
            return None;
        }
        i += 1;
    }
    assert(s@.subrange(0, s@.len() as int) =~= s@);
    if !has_digit || octet_idx != 3 {
        return None;
    }
    let ghost before = octets@.subrange(0, 3);
    octets[3] = current as u8;
    assert(octets@ =~= before.push(current as u8));
    Some(octets)
}

/// A datagram for a socket: the address, the port with its high byte first, and the
/// data.
pub open spec fn datagram(ip: Seq<u8>, port: u16, data: Seq<u8>) -> Seq<u8> {
    ip + seq![(port / 256) as u8, (port % 256) as u8] + data
}

/// What is written to a socket to send data.
pub fn udp_buffer(ip: &[u8; 4], port: u16, data: &[u8]) -> (r: Vec<u8>)
    ensures
        r@ == datagram(ip@, port, data@),
{
    let mut out: Vec<u8> = Vec::new();
    push_bytes(&mut out, ip.as_slice());
    out.push((port / 256) as u8);
    out.push((port % 256) as u8);
    push_bytes(&mut out, data);
    assert(out@ =~= datagram(ip@, port, data@));
    out
}

/// The network understands a datagram as it was meant.
pub proof fn datagram_round_trip(
    ip: Seq<u8>, port: u16, data: Seq<u8>, source: crate::net::address::SocketPort,
    callback: crate::net::address::AsyncCallback,
)
    requires
        ip.len() == 4,
    ensures
        ({
            let p = crate::net::listen::parsed_write(source, datagram(ip, port, data), callback);
            p.dest_ip == ip && p.dest_port == port && p.payload == data
        }),
{
    let s = datagram(ip, port, data);
    assert(s.subrange(0, 4) =~= ip);
    assert(s[4] == (port / 256) as u8 && s[5] == (port % 256) as u8);
    assert(s.skip(6) =~= data);
}

fn fit(s: Vec<u8>, size: usize) -> (r: Vec<u8>)
    ensures
        r@ == truncated(s@, size as int),
{
    if s.len() <= size { s } else { crate::text::sub_bytes(s.as_slice(), 0, size) }
}

/// What the program says when it waits for a connection.
pub fn listening_message(port: u16) -> (r: Vec<u8>)
    ensures
        r@ == truncated(text("Listening on port ") + decimal(port as nat) + text("...\n"), 64),
{
    let mut out: Vec<u8> = Vec::new();
    push_text(&mut out, "Listening on port ");
    push_decimal(&mut out, port as u64);
    push_text(&mut out, "...\n");
    assert(out@ =~= text("Listening on port ") + decimal(port as nat) + text("...\n"));
    fit(out, 64)
}

/// What the program says when it opens a connection.
pub fn connecting_message(host: &[u8], port: u16) -> (r: Vec<u8>)
    ensures
        r@ == truncated(
            text("Connecting to ") + host@ + text(":") + decimal(port as nat) + text("...\n"),
            128,
        ),
{
    let mut out: Vec<u8> = Vec::new();
    push_text(&mut out, "Connecting to ");
    push_bytes(&mut out, host);
    push_text(&mut out, ":");
    push_decimal(&mut out, port as u64);
    push_text(&mut out, "...\n");
    assert(out@ =~= text("Connecting to ") + host@ + text(":") + decimal(port as nat) + text(
        "...\n",
    ));
    fit(out, 128)
}

/// What the program says when it sends datagrams.
pub fn sending_message(host: &[u8], port: u16) -> (r: Vec<u8>)
    ensures
        r@ == truncated(
            text("Sending UDP to ") + host@ + text(":") + decimal(port as nat) + text("\n"), 64,
        ),
{
    let mut out: Vec<u8> = Vec::new();
    push_text(&mut out, "Sending UDP to ");
    push_bytes(&mut out, host);
    push_text(&mut out, ":");
    push_decimal(&mut out, port as u64);
    push_text(&mut out, "\n");
    assert(out@ =~= text("Sending UDP to ") + host@ + text(":") + decimal(port as nat) + text(
        "\n",
    ));
    fit(out, 64)
}

/// What follows a read on one side.
#[derive(Clone, Copy, PartialEq, Eq, Structural, Debug)]
pub enum RelayStep {
    /// Hand so many bytes to the other side, and read again.
    Forward(u32),
    /// That side is over.
    Stop,
}

/// What the result of a read means: an error, marked by the top bit, and an end stop.
pub fn relay(result: u32) -> (r: RelayStep)
    ensures
        r == (if result >= 0x8000_0000 || result == 0 {
            RelayStep::Stop
        } else {
            RelayStep::Forward(result)
        }),
{
    if result >= 0x8000_0000 || result == 0 {
        RelayStep::Stop
    } else {
        RelayStep::Forward(result)
    }
}

} // verus!
