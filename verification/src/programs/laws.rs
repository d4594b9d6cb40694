//! What holds of the arguments of programs.
use vstd::prelude::*;

use crate::programs::netcat::{
    address_of, address_state, host_cut, port_of, settings, AddressState, ConfigModel, Mode,
};
use crate::text::{all_digits, decimal, decimal_round_trip, decimal_value, is_digit, text};

verus! {

/// A port is a number from 1 to 65535.
pub proof fn ports_are_numbers(n: nat)
    ensures
        1 <= n <= 65535 ==> port_of(decimal(n)) == Some(n as u16),
        n == 0 || n > 65535 ==> port_of(decimal(n)) is None,
{
    decimal_round_trip(n);
}

/// What holds a byte that is no digit is no port.
pub proof fn other_texts_are_no_ports(s: Seq<u8>, i: int)
    requires
        0 <= i < s.len(),
        !(0x30 <= s[i] <= 0x39),
    ensures
        port_of(s) is None,
{
    assert(!is_digit(s[i]));
}

proof fn lemma_octet(front: Seq<u8>, n: nat, octets: Seq<u8>)
    requires
        address_state(front) == Some(AddressState { octets, current: 0, has_digit: false }),
    ensures
        address_state(front + decimal(n)) == Some(
            AddressState { octets, current: n as int, has_digit: true },
        ),
    decreases n,
{
    let s = front + decimal(n);
    if n < 10 {
        assert(s.drop_last() =~= front);
        assert(s.last() == (48 + n) as u8);
    } else {
        lemma_octet(front, n / 10, octets);
        assert(s.drop_last() =~= front + decimal(n / 10));
        assert(s.last() == (48 + n % 10) as u8);
    }
}

proof fn lemma_dot(front: Seq<u8>, n: nat, octets: Seq<u8>)
    requires
        address_state(front) == Some(AddressState { octets, current: n as int, has_digit: true }),
    ensures
        n <= 255 && octets.len() < 3 ==> address_state(front.push(0x2E)) == Some(
            AddressState { octets: octets.push(n as u8), current: 0, has_digit: false },
        ),
        n > 255 || octets.len() >= 3 ==> address_state(front.push(0x2E)) is None,
{
    assert(front.push(0x2E).drop_last() =~= front);
}

/// An address is four numbers with dots between them, each below 256.
#[verifier::rlimit(50)]
pub proof fn addresses_are_four_numbers(a: nat, b: nat, c: nat, d: nat)
    requires
        a <= 255,
        b <= 255,
        c <= 255,
    ensures
        ({
            let s = decimal(a).push(0x2E) + decimal(b).push(0x2E) + decimal(c).push(0x2E) + decimal(d);
            &&& d <= 255 ==> address_of(s) == Some(seq![a as u8, b as u8, c as u8, d as u8])
            &&& d > 255 ==> address_of(s) is None
        }),
        address_of(decimal(a).push(0x2E) + decimal(b).push(0x2E) + decimal(c)) is None,
        address_of(decimal(a).push(0x2E) + decimal(b)) is None,
{
    let s0 = Seq::<u8>::empty();
    lemma_octet(s0, a, s0);
    let s1 = decimal(a);
    assert(s0 + s1 =~= s1);
    lemma_dot(s1, a, s0);
    let o1 = s0.push(a as u8);
    let s2 = s1.push(0x2E);
    lemma_octet(s2, b, o1);
    let s3 = s2 + decimal(b);
    lemma_dot(s3, b, o1);
    let o2 = o1.push(b as u8);
    let s4 = s3.push(0x2E);
    assert(s4 =~= s2 + decimal(b).push(0x2E));
    lemma_octet(s4, c, o2);
    let s5 = s4 + decimal(c);
    lemma_dot(s5, c, o2);
    let o3 = o2.push(c as u8);
    let s6 = s5.push(0x2E);
    assert(s6 =~= s4 + decimal(c).push(0x2E));
    lemma_octet(s6, d, o3);
    assert(o3.push(d as u8) =~= seq![a as u8, b as u8, c as u8, d as u8]);
}

/// What is no option.
pub open spec fn plain(arg: Seq<u8>) -> bool {
    arg != text("-l") && arg != text("-u")
}

proof fn lemma_options()
    ensures
        text("-l") != text("-u"),
{
    reveal_strlit("-l");
    reveal_strlit("-u");
    assert("-l"@[1] != "-u"@[1]);
    if text("-l") == text("-u") {
        crate::command::names::texts_tell_strings_apart("-l", "-u");
    }
}

/// A program that connects is given a host and a port; one that listens, an option and a port.
/// Another option says that datagrams are sent, whatever else is said.
#[verifier::rlimit(50)]
pub proof fn arguments_say_what_to_do(host: Seq<u8>, port: Seq<u8>, args: Seq<Seq<u8>>)
    requires
        plain(host),
        plain(port),
        host.len() <= 16,
    ensures
        ({
            let connect = settings(seq![host, port]);
            let listen = settings(seq![text("-l"), port]);
            match port_of(port) {
                Some(p) => {
                    &&& connect == Some(
                        ConfigModel { mode: Mode::Connect, udp: false, host: Some(host), port: p },
                    )
                    &&& listen == Some(
                        ConfigModel { mode: Mode::Listen, udp: false, host: None, port: p },
                    )
                },
                None => connect is None && listen is None,
            }
        }),
        settings(args) matches Some(c) ==> settings(args.push(text("-u"))) == Some(
            ConfigModel { udp: true, ..c },
        ),
        settings(args) matches Some(c) ==> settings(args.push(text("-l"))) == Some(
            ConfigModel { mode: Mode::Listen, ..c },
        ),
        settings(args) is None ==> settings(args.push(host)) is None,
{
    lemma_options();
    reveal_with_fuel(settings, 3);
    let one = seq![host, port];
    assert(one.drop_last() =~= seq![host]);
    assert(seq![host].drop_last() =~= Seq::empty());
    assert(seq![host].last() == host);
    assert(host_cut(host) == host);
    let two = seq![text("-l"), port];
    assert(two.drop_last() =~= seq![text("-l")]);
    assert(seq![text("-l")].drop_last() =~= Seq::empty());
    assert(seq![text("-l")].last() == text("-l"));
    assert(args.push(text("-u")).drop_last() =~= args);
    assert(args.push(text("-l")).drop_last() =~= args);
    assert(args.push(host).drop_last() =~= args);
}

/// Digits are read from the left.
pub proof fn the_last_digit_counts_once(s: Seq<u8>, digit: u8)
    requires
        all_digits(s),
        0x30 <= digit <= 0x39,
        decimal_value(s) * 10 + (digit - 0x30) <= 65535,
        decimal_value(s) * 10 + (digit - 0x30) >= 1,
    ensures
        port_of(s.push(digit)) == Some((decimal_value(s) * 10 + (digit - 0x30)) as u16),
{
    let t = s.push(digit);
    assert(t.drop_last() =~= s);
    assert forall|i: int| 0 <= i < t.len() implies is_digit(#[trigger] t[i]) by {
        if i < s.len() {
            assert(t[i] == s[i]);
            assert(is_digit(s[i]));
        }
    }
}

} // verus!
