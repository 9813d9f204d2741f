//! The network stack's interfaces and addresses, and the bookkeeping of an
//! echo request.
use vstd::prelude::*;
use crate::text::{chars_of, chars_eq, string_from_chars, string_push};

verus! {

/// An Ethernet hardware address.
#[derive(Debug, Clone, Copy, PartialEq, Eq)]
pub struct MacAddress(pub [u8; 6]);

/// An IPv4 address.
#[derive(Debug, Clone, Copy, PartialEq, Eq)]
pub struct Ipv4Addr(pub [u8; 4]);

/// The decimal digits of `n`, without leading zeros.
pub open spec fn decimal(n: u8) -> Seq<char> {
    if n < 10 {
        seq![digit_char(n as int)]
    } else if n < 100 {
        seq![digit_char(n as int / 10), digit_char(n as int % 10)]
    } else {
        seq![digit_char(n as int / 100), digit_char((n as int / 10) % 10), digit_char(n as int % 10)]
    }
}

/// The character of decimal digit `d`.
pub open spec fn digit_char(d: int) -> char {
    (('0' as int) + d) as char
}

/// The lower-case hexadecimal digit `d`.
pub open spec fn hex_char(d: int) -> char {
    if d < 10 {
        (('0' as int) + d) as char
    } else {
        (('a' as int) + d - 10) as char
    }
}

/// `n` as two lower-case hexadecimal digits.
pub open spec fn hex2(n: u8) -> Seq<char> {
    seq![hex_char(n as int / 16), hex_char(n as int % 16)]
}

/// The dotted-decimal text of an IPv4 address, e.g. `192.168.1.100`.
pub open spec fn ipv4_text(a: [u8; 4]) -> Seq<char> {
    decimal(a[0]) + seq!['.'] + decimal(a[1]) + seq!['.'] + decimal(a[2]) + seq!['.'] + decimal(a[3])
}

/// The colon-separated hexadecimal text of a MAC address, e.g.
/// `52:54:00:12:34:56`.
pub open spec fn mac_text(a: [u8; 6]) -> Seq<char> {
    hex2(a[0]) + seq![':'] + hex2(a[1]) + seq![':'] + hex2(a[2]) + seq![':'] + hex2(a[3]) + seq![':']
        + hex2(a[4]) + seq![':'] + hex2(a[5])
}

fn push_digit(s: &mut String, d: u8)
    requires
        d < 10,
    ensures
        final(s)@ == old(s)@.push(digit_char(d as int)),
{
    string_push(s, ('0' as u8 + d) as char);
}

fn push_decimal(s: &mut String, n: u8)
    ensures
        final(s)@ == old(s)@ + decimal(n),
{
    let ghost s0 = s@;
    if n < 10 {
        push_digit(s, n);
    } else if n < 100 {
        push_digit(s, n / 10);
        push_digit(s, n % 10);
    } else {
        push_digit(s, n / 100);
        push_digit(s, (n / 10) % 10);
        push_digit(s, n % 10);
    }
    assert(s@ =~= s0 + decimal(n));
}

fn push_hex2(s: &mut String, n: u8)
    ensures
        final(s)@ == old(s)@ + hex2(n),
{
    let ghost s0 = s@;
    let hi = n / 16;
    let lo = n % 16;
    let c1 = if hi < 10 { ('0' as u8 + hi) as char } else { ('a' as u8 + hi - 10) as char };
    let c2 = if lo < 10 { ('0' as u8 + lo) as char } else { ('a' as u8 + lo - 10) as char };
    string_push(s, c1);
    string_push(s, c2);
    assert(s@ =~= s0 + hex2(n));
}

impl Ipv4Addr {
    /// The address in dotted-decimal notation.
    pub fn to_string(&self) -> (r: String)
        ensures
            r@ == ipv4_text(self.0),
    {
        let mut s = String::new();
        push_decimal(&mut s, self.0[0]);
        string_push(&mut s, '.');
        push_decimal(&mut s, self.0[1]);
        string_push(&mut s, '.');
        push_decimal(&mut s, self.0[2]);
        string_push(&mut s, '.');
        push_decimal(&mut s, self.0[3]);
        assert(s@ =~= ipv4_text(self.0));
        s
    }
}

impl MacAddress {
    /// The address as six colon-separated pairs of lower-case hex digits.
    pub fn to_string(&self) -> (r: String)
        ensures
            r@ == mac_text(self.0),
    {
        let mut s = String::new();
        push_hex2(&mut s, self.0[0]);
        string_push(&mut s, ':');
        push_hex2(&mut s, self.0[1]);
        string_push(&mut s, ':');
        push_hex2(&mut s, self.0[2]);
        string_push(&mut s, ':');
        push_hex2(&mut s, self.0[3]);
        string_push(&mut s, ':');
        push_hex2(&mut s, self.0[4]);
        string_push(&mut s, ':');
        push_hex2(&mut s, self.0[5]);
        assert(s@ =~= mac_text(self.0));
        s
    }
}

/// A network interface and its traffic counters.
pub struct NetworkInterface {
    pub name: String,
    pub mac: MacAddress,
    pub ip: Ipv4Addr,
    pub rx_packets: u64,
    pub tx_packets: u64,
    pub rx_bytes: u64,
    pub tx_bytes: u64,
}

/// The loopback interface as the machine starts: `lo0`, hardware address
/// 00:00:00:00:00:00, 127.0.0.1, four packets of 64 bytes each way.
pub open spec fn is_initial_loopback(i: NetworkInterface) -> bool {
    &&& i.name@ == "lo0"@
    &&& i.mac.0@ == seq![0u8, 0, 0, 0, 0, 0]
    &&& i.ip.0@ == seq![127u8, 0, 0, 1]
    &&& i.rx_packets == 4 && i.tx_packets == 4 && i.rx_bytes == 256 && i.tx_bytes == 256
}

/// The Ethernet interface as the machine starts: `eth0`, hardware address
/// 52:54:00:12:34:56, 192.168.1.100, 12 packets (1420 bytes) received and 8
/// (980 bytes) sent.
pub open spec fn is_initial_eth0(i: NetworkInterface) -> bool {
    &&& i.name@ == "eth0"@
    &&& i.mac.0@ == seq![0x52u8, 0x54, 0x00, 0x12, 0x34, 0x56]
    &&& i.ip.0@ == seq![192u8, 168, 1, 100]
    &&& i.rx_packets == 12 && i.tx_packets == 8 && i.rx_bytes == 1420 && i.tx_bytes == 980
}

impl NetworkInterface {
    /// The loopback interface `lo0`, 127.0.0.1.
    pub fn loopback() -> (r: Self)
        ensures
            is_initial_loopback(r),
    {
        NetworkInterface {
            name: "lo0".to_owned(),
            mac: MacAddress([0x00, 0x00, 0x00, 0x00, 0x00, 0x00]),
            ip: Ipv4Addr([127, 0, 0, 1]),
            rx_packets: 4,
            tx_packets: 4,
            rx_bytes: 256,
            tx_bytes: 256,
        }
    }

    /// The Ethernet interface `eth0`, 192.168.1.100.
    pub fn eth0() -> (r: Self)
        ensures
            is_initial_eth0(r),
    {
        NetworkInterface {
            name: "eth0".to_owned(),
            mac: MacAddress([0x52, 0x54, 0x00, 0x12, 0x34, 0x56]),
            ip: Ipv4Addr([192, 168, 1, 100]),
            rx_packets: 12,
            tx_packets: 8,
            rx_bytes: 1420,
            tx_bytes: 980,
        }
    }
}

/// The interfaces of the machine, in order.
pub struct NetworkStack {
    interfaces: Vec<NetworkInterface>,
}

/// Whether an echo request for `target` is answered by an interface with
/// address text `ip`: its own address, or the loopback names.
pub open spec fn answers(ip: Seq<char>, target: Seq<char>) -> bool {
    ip == target || target == "127.0.0.1"@ || target == "localhost"@
}

/// The first interface of `ifs` that answers `target`, or -1.
pub open spec fn answering(ifs: Seq<NetworkInterface>, target: Seq<char>) -> int
    decreases ifs.len(),
{
    if ifs.len() == 0 {
        -1
    } else {
        let r = answering(ifs.drop_last(), target);
        if r >= 0 {
            r
        } else if answers(ipv4_text(ifs.last().ip.0), target) {
            ifs.len() - 1
        } else {
            -1
        }
    }
}

/// `i` after one echo exchange: four packets of 64 bytes each way.
pub open spec fn after_ping(i: NetworkInterface) -> NetworkInterface {
    NetworkInterface {
        tx_packets: (i.tx_packets + 4) as u64,
        rx_packets: (i.rx_packets + 4) as u64,
        tx_bytes: (i.tx_bytes + 256) as u64,
        rx_bytes: (i.rx_bytes + 256) as u64,
        ..i
    }
}

/// Every interface can count one more echo exchange.
pub open spec fn counters_have_room(ifs: Seq<NetworkInterface>) -> bool {
    forall|k: int|
        0 <= k < ifs.len() ==> (#[trigger] ifs[k]).tx_packets <= u64::MAX - 4 && ifs[k].rx_packets
            <= u64::MAX - 4 && ifs[k].tx_bytes <= u64::MAX - 256 && ifs[k].rx_bytes <= u64::MAX
            - 256
}

proof fn lemma_answering_prefix(ifs: Seq<NetworkInterface>, target: Seq<char>, n: int)
    requires
        0 <= n <= ifs.len(),
        answering(ifs.take(n), target) >= 0,
    ensures
        answering(ifs, target) == answering(ifs.take(n), target),
    decreases ifs.len() - n,
{
    if n < ifs.len() {
        assert(ifs.take(n + 1).drop_last() =~= ifs.take(n));
        lemma_answering_prefix(ifs, target, n + 1);
    } else {
        assert(ifs.take(n) =~= ifs);
    }
}

impl NetworkStack {
    /// The interfaces, in order.
    pub closed spec fn ifaces(&self) -> Seq<NetworkInterface> {
        self.interfaces@
    }

    /// The loopback interface, then `eth0`.
    pub fn new() -> (s: Self)
        ensures
            s.ifaces().len() == 2,
            is_initial_loopback(s.ifaces()[0]),
            is_initial_eth0(s.ifaces()[1]),
            counters_have_room(s.ifaces()),
    {
        let lo = NetworkInterface::loopback();
        let eth = NetworkInterface::eth0();
        let mut v: Vec<NetworkInterface> = Vec::new();
        v.push(lo);
        v.push(eth);
        NetworkStack { interfaces: v }
    }

    /// The interfaces, in order.
    pub fn interfaces(&self) -> (r: &Vec<NetworkInterface>)
        ensures
            r@ == self.ifaces(),
    {
        &self.interfaces
    }

    /// Sends an echo request to `target` (an address, `127.0.0.1` or
    /// `localhost`): the first interface that answers counts four packets of
    /// 64 bytes each way. Tells whether one answered.
    pub fn ping(&mut self, target: &str) -> (answered: bool)
        requires
            counters_have_room(old(self).ifaces()),
        ensures
            answered == (answering(old(self).ifaces(), target@) >= 0),
            answered ==> final(self).ifaces() == old(self).ifaces().update(
                answering(old(self).ifaces(), target@),
                after_ping(old(self).ifaces()[answering(old(self).ifaces(), target@)]),
            ),
            !answered ==> final(self).ifaces() == old(self).ifaces(),
    {
        let t = chars_of(target);
        let is_loop = chars_eq(t.as_slice(), chars_of("127.0.0.1").as_slice()) || chars_eq(
            t.as_slice(),
            chars_of("localhost").as_slice(),
        );
        let ghost ifs = self.interfaces@;
        let mut i: usize = 0;
        while i < self.interfaces.len()
            invariant
                self.interfaces@ == ifs,
                ifs == old(self).ifaces(),
                t@ == target@,
                is_loop == (target@ == "127.0.0.1"@ || target@ == "localhost"@),
                counters_have_room(ifs),
                i <= ifs.len(),
                answering(ifs.take(i as int), target@) == -1,
            decreases ifs.len() - i,
        {
            let ip_text = self.interfaces[i].ip.to_string();
            let hit = is_loop || chars_eq(chars_of(ip_text.as_str()).as_slice(), t.as_slice());
            assert(ifs.take(i as int + 1).drop_last() =~= ifs.take(i as int));
            assert(ifs.take(i as int + 1).last() == ifs[i as int]);
            if hit {
                proof {
                    lemma_answering_prefix(ifs, target@, i as int + 1);
                }
                let iface = &mut self.interfaces[i];
                iface.tx_packets += 4;
                iface.rx_packets += 4;
                iface.tx_bytes += 256;
                iface.rx_bytes += 256;
                return true;
            }
            i += 1;
        }
        assert(ifs.take(i as int) =~= ifs);
        false
    }
}

} // verus!
