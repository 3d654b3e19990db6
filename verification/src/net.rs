//! Early networking: a minimal Ethernet + ARP + IPv4 + ICMP-echo stack
//! driven over a loopback device. Frames are byte vectors; what the stack
//! answers to a frame is [`frame_reply`], what it counts is
//! [`frame_counts`], and [`Stack::poll`] drains the receive queue through
//! them.

use vstd::prelude::*;
use crate::bytes::{be16, be16_bytes, be16_spec, push_all, push_be16, to_vec};
use std::collections::VecDeque;

verus! {

/// Length of an Ethernet hardware address.
pub const ETH_ALEN: usize = 6;

/// An Ethernet hardware address.
pub type MacAddr = [u8; 6];

/// An IPv4 address.
pub type Ipv4Addr = [u8; 4];

pub const ETHERTYPE_ARP: u16 = 0x0806;
pub const ETHERTYPE_IPV4: u16 = 0x0800;
pub const IPPROTO_ICMP: u8 = 1;

/// Sum of the first `k` big-endian 16-bit words of `d`.
pub open spec fn pair_sum(d: Seq<u8>, k: nat) -> nat
    decreases k,
{
    if k == 0 {
        0
    } else {
        pair_sum(d, (k - 1) as nat) + be16_spec(d, 2 * (k - 1)) as nat
    }
}

/// The 16-bit word sum of `d`, an odd last byte counting as its high byte.
pub open spec fn word_sum(d: Seq<u8>) -> nat {
    pair_sum(d, d.len() / 2) + (if d.len() % 2 == 1 { d[d.len() - 1] as nat * 256 } else { 0 })
}

/// End-around carry: fold the bits above 16 back in until none are left.
pub open spec fn fold16(s: nat) -> nat
    decreases s,
    via fold16_decreases
{
    if s < 0x10000 { s } else { fold16(s % 0x10000 + s / 0x10000) }
}

#[via_fn]
proof fn fold16_decreases(s: nat) {
    lemma_fold_step(s);
}

proof fn lemma_fold_step(s: nat)
    ensures
        s >= 0x10000 ==> s % 0x10000 + s / 0x10000 < s,
{
    if s >= 0x10000 {
        assert(s % 0x10000 + s / 0x10000 < s) by (nonlinear_arith)
            requires s >= 0x10000;
    }
}

/// The Internet checksum of `d`: the ones' complement of its folded word
/// sum.
pub open spec fn checksum(d: Seq<u8>) -> u16 {
    (0xFFFF - fold16(word_sum(d))) as u16
}

proof fn lemma_pair_sum_bound(d: Seq<u8>, k: nat)
    requires
        2 * k <= d.len(),
    ensures
        pair_sum(d, k) <= 0xFFFF * k,
    decreases k,
{
    if k > 0 {
        lemma_pair_sum_bound(d, (k - 1) as nat);
    }
}

proof fn lemma_fold16_bound(s: nat)
    ensures
        fold16(s) < 0x10000,
    decreases s,
{
    if s >= 0x10000 {
        lemma_fold_step(s);
        lemma_fold16_bound(s % 0x10000 + s / 0x10000);
    }
}

/// The Internet checksum (RFC 1071) of `data`.
pub fn checksum16(data: &[u8]) -> (c: u16)
    requires
        data@.len() < 0x20000,
    ensures
        c == checksum(data@),
{
    let n = data.len();
    let mut sum: u32 = 0;
    let mut i: usize = 0;
    while i + 1 < n
        invariant
            n == data@.len() < 0x20000,
            i % 2 == 0,
            i <= n,
            sum == pair_sum(data@, (i / 2) as nat),
        decreases n - i,
    {
        proof {
            lemma_pair_sum_bound(data@, (i / 2) as nat);
            assert(0xFFFF * (i / 2) + 0xFFFF <= 0xFFFF * 0xFFFF) by (nonlinear_arith)
                requires i / 2 < 0xFFFF;
            assert((i + 2) / 2 == i / 2 + 1);
        }
        sum = sum + be16(data, i) as u32;
        i = i + 2;
    }
    assert(i / 2 == n / 2);
    proof {
        lemma_pair_sum_bound(data@, (n / 2) as nat);
        assert(0xFFFF * (n / 2) <= 0xFFFF * 0xFFFF) by (nonlinear_arith)
            requires n / 2 <= 0xFFFF;
    }
    if i < n {
        let b = data[i] as u32;
        assert(b < 256 ==> (b << 8) == b * 256) by (bit_vector);
        sum = sum + (b << 8);
    }
    assert(sum == word_sum(data@));
    let ghost total = sum as nat;
    while sum >> 16 != 0
        invariant
            fold16(sum as nat) == fold16(total),
        decreases sum,
    {
        let ghost s0 = sum;
        assert(s0 >> 16 == s0 / 0x10000 && s0 & 0xFFFF == s0 % 0x10000) by (bit_vector);
        assert(s0 >> 16 != 0 ==> s0 >= 0x10000) by (bit_vector);
        proof { lemma_fold_step(s0 as nat); }
        sum = (sum & 0xFFFF) + (sum >> 16);
    }
    assert(sum >> 16 == 0 ==> sum < 0x10000) by (bit_vector);
    let s16 = sum as u16;
    assert(!s16 == 0xFFFF - s16) by (bit_vector);
    !s16
}

/// An IPv4 header (20 bytes, no options) for `payload_len` bytes of
/// payload, protocol `proto`, with the header checksum field `c`.
pub open spec fn ipv4_header(payload_len: nat, proto: u8, src_ip: Seq<u8>, dst_ip: Seq<u8>, c: u16) -> Seq<u8> {
    seq![0x45u8, 0x00u8] + be16_bytes(((20 + payload_len) % 0x10000) as u16) + seq![0u8, 0u8, 0x40u8, 0u8, 64u8, proto]
        + be16_bytes(c) + src_ip + dst_ip
}

/// The Ethernet frame carrying an IPv4 packet of `payload` (header
/// checksummed, TTL 64, don't-fragment).
pub open spec fn ipv4_frame(src_mac: Seq<u8>, dst_mac: Seq<u8>, src_ip: Seq<u8>, dst_ip: Seq<u8>, proto: u8,
    payload: Seq<u8>) -> Seq<u8> {
    let c = checksum(ipv4_header(payload.len(), proto, src_ip, dst_ip, 0));
    dst_mac + src_mac + be16_bytes(ETHERTYPE_IPV4) + ipv4_header(payload.len(), proto, src_ip, dst_ip, c) + payload
}

/// Build an Ethernet frame carrying an IPv4 packet (see [`ipv4_frame`]).
pub fn build_ipv4_frame(src_mac: MacAddr, dst_mac: MacAddr, src_ip: Ipv4Addr, dst_ip: Ipv4Addr, proto: u8,
    payload: &[u8]) -> (f: Vec<u8>)
    ensures
        f@ == ipv4_frame(src_mac@, dst_mac@, src_ip@, dst_ip@, proto, payload@),
{
    let lo = (payload.len() % 0x10000) as u16;
    let total_len = lo.wrapping_add(20);
    assert(total_len == ((20 + payload@.len()) % 0x10000) as u16);
    let mut ip: Vec<u8> = Vec::new();
    ip.push(0x45);
    ip.push(0x00);
    push_be16(&mut ip, total_len);
    ip.push(0);
    ip.push(0);
    ip.push(0x40);
    ip.push(0);
    ip.push(64);
    ip.push(proto);
    push_be16(&mut ip, 0);
    push_all(&mut ip, src_ip.as_slice());
    push_all(&mut ip, dst_ip.as_slice());
    assert(ip@ =~= ipv4_header(payload@.len(), proto, src_ip@, dst_ip@, 0));
    let csum = checksum16(ip.as_slice());
    ip.set(10, (csum >> 8) as u8);
    ip.set(11, csum as u8);
    assert((csum >> 8) as u8 == csum / 256 && csum as u8 == csum % 256) by (bit_vector);
    assert(ip@ =~= ipv4_header(payload@.len(), proto, src_ip@, dst_ip@, csum));
    push_all(&mut ip, payload);
    let mut frame: Vec<u8> = Vec::new();
    push_all(&mut frame, dst_mac.as_slice());
    push_all(&mut frame, src_mac.as_slice());
    push_be16(&mut frame, ETHERTYPE_IPV4);
    push_all(&mut frame, ip.as_slice());
    assert(frame@ =~= ipv4_frame(src_mac@, dst_mac@, src_ip@, dst_ip@, proto, payload@));
    frame
}

/// The ARP answer to an ARP message `a` (the frame after its Ethernet
/// header), for the host `ip`/`mac`: only requests (operation 1) for `ip`
/// are answered, to the asker.
pub open spec fn arp_reply(ip: Seq<u8>, mac: Seq<u8>, a: Seq<u8>) -> Option<Seq<u8>> {
    if a.len() < 28 || be16_spec(a, 6) != 1 || a.subrange(24, 28) != ip {
        None
    } else {
        let sender_mac = a.subrange(8, 14);
        let sender_ip = a.subrange(14, 18);
        Some(sender_mac + mac + be16_bytes(ETHERTYPE_ARP) + seq![0u8, 1u8, 0x08u8, 0u8, 6u8, 4u8, 0u8, 2u8]
            + mac + ip + sender_mac + sender_ip)
    }
}

/// The ICMP message an IPv4 packet `p` carries: version 4, header length
/// from the IHL field, protocol ICMP, at least 8 bytes.
pub open spec fn ip_message(p: Seq<u8>) -> Option<Seq<u8>> {
    if p.len() < 20 || p[0] >> 4u8 != 4 {
        None
    } else {
        let ihl = (p[0] & 0x0F) as int * 4;
        if p.len() < ihl || p[9] != IPPROTO_ICMP || p.len() - ihl < 8 {
            None
        } else {
            Some(p.subrange(ihl, p.len() as int))
        }
    }
}

/// The echo reply message for echo request `m`: type 0, same identifier,
/// sequence and data, checksum recomputed.
pub open spec fn echo_answer(m: Seq<u8>) -> Seq<u8> {
    let z = m.update(0, 0u8).update(2, 0u8).update(3, 0u8);
    let c = checksum(z);
    z.update(2, (c / 256) as u8).update(3, (c % 256) as u8)
}

/// The frame the host `ip`/`mac` answers the Ethernet frame `f` with, if
/// any: an ARP reply to an ARP request for `ip`, or an ICMP echo reply to
/// an echo request addressed to `ip` (sent back to the frame's source).
pub open spec fn frame_reply(ip: Seq<u8>, mac: Seq<u8>, f: Seq<u8>) -> Option<Seq<u8>> {
    if f.len() < 14 {
        None
    } else if be16_spec(f, 12) == ETHERTYPE_ARP {
        arp_reply(ip, mac, f.subrange(14, f.len() as int))
    } else if be16_spec(f, 12) == ETHERTYPE_IPV4 {
        let p = f.subrange(14, f.len() as int);
        match ip_message(p) {
            Some(m) => if m[0] == 8 && p.subrange(16, 20) == ip {
                Some(ipv4_frame(mac, f.subrange(6, 12), p.subrange(16, 20), p.subrange(12, 16), IPPROTO_ICMP,
                    echo_answer(m)))
            } else {
                None
            },
            None => None,
        }
    } else {
        None
    }
}

/// What handling frame `f` adds to the counters: (echo replies received,
/// ARP replies sent).
pub open spec fn frame_counts(ip: Seq<u8>, mac: Seq<u8>, f: Seq<u8>) -> (nat, nat) {
    if f.len() < 14 {
        (0, 0)
    } else if be16_spec(f, 12) == ETHERTYPE_ARP {
        if arp_reply(ip, mac, f.subrange(14, f.len() as int)) is Some { (0, 1) } else { (0, 0) }
    } else if be16_spec(f, 12) == ETHERTYPE_IPV4 {
        match ip_message(f.subrange(14, f.len() as int)) {
            Some(m) => if m[0] == 0 { (1, 0) } else { (0, 0) },
            None => (0, 0),
        }
    } else {
        (0, 0)
    }
}

/// A frame's share of the work still queued: itself, and its answer.
pub open spec fn weight(ip: Seq<u8>, mac: Seq<u8>, f: Seq<u8>) -> nat {
    if frame_reply(ip, mac, f) is Some { 2 } else { 1 }
}

/// The work queued in `q`.
pub open spec fn total_weight(ip: Seq<u8>, mac: Seq<u8>, q: Seq<Seq<u8>>) -> nat
    decreases q.len(),
{
    if q.len() == 0 { 0 } else { weight(ip, mac, q[0]) + total_weight(ip, mac, q.drop_first()) }
}

/// One receive step: take the oldest frame, queue its answer, count.
pub open spec fn net_step(ip: Seq<u8>, mac: Seq<u8>, q: Seq<Seq<u8>>, c: (nat, nat)) -> (Seq<Seq<u8>>, (nat, nat)) {
    let f = q[0];
    let rest = q.drop_first();
    let (di, da) = frame_counts(ip, mac, f);
    let (ci, ca) = c;
    (match frame_reply(ip, mac, f) { Some(r) => rest.push(r), None => rest }, (ci + di, ca + da))
}

/// Up to `n` receive steps, stopping when the queue is empty.
pub open spec fn drain(ip: Seq<u8>, mac: Seq<u8>, q: Seq<Seq<u8>>, c: (nat, nat), n: nat) -> (Seq<Seq<u8>>, (nat, nat))
    decreases n,
{
    if n == 0 {
        (q, c)
    } else {
        let (q1, c1) = drain(ip, mac, q, c, (n - 1) as nat);
        if q1.len() == 0 { (q1, c1) } else { net_step(ip, mac, q1, c1) }
    }
}

proof fn lemma_be16_bytes(v: u16)
    ensures
        be16_spec(be16_bytes(v), 0) == v,
{
}

/// The stack never answers an answer: what it sends in reply to a frame is
/// itself left unanswered, and never counts as an ARP reply sent.
pub proof fn lemma_reply_unanswered(ip: Seq<u8>, mac: Seq<u8>, f: Seq<u8>)
    requires
        ip.len() == 4,
        mac.len() == 6,
        frame_reply(ip, mac, f) is Some,
    ensures
        frame_reply(ip, mac, frame_reply(ip, mac, f)->0) is None,
        frame_counts(ip, mac, frame_reply(ip, mac, f)->0).1 == 0,
{
    let r = frame_reply(ip, mac, f)->0;
    if be16_spec(f, 12) == ETHERTYPE_ARP {
        let a = f.subrange(14, f.len() as int);
        let ra = r.subrange(14, r.len() as int);
        assert(r.len() == 42);
        assert(r[12] == 0x08 && r[13] == 0x06);
        assert(ra[6] == 0 && ra[7] == 2);
    } else {
        let p = f.subrange(14, f.len() as int);
        let m = ip_message(p)->0;
        let ans = echo_answer(m);
        assert(ans[0] == 0);
        let rp = r.subrange(14, r.len() as int);
        assert(r[12] == 0x08 && r[13] == 0x00);
        assert(rp[0] == 0x45);
        let b0 = rp[0];
        assert(b0 == 0x45u8 ==> b0 >> 4u8 == 4 && (b0 & 0x0F) == 5) by (bit_vector);
        assert(rp[9] == IPPROTO_ICMP);
        assert(rp.subrange(20, rp.len() as int) =~= ans);
    }
}

/// The loopback device: every transmitted frame is queued straight back
/// for receive.
pub struct Loopback {
    mac: MacAddr,
    queue: VecDeque<Vec<u8>>,
}

/// A link-layer device the stack transmits through; received frames come
/// back through `receive`.
pub trait NetDevice {
    fn mac(&self) -> MacAddr;
    fn transmit(&mut self, frame: &[u8]);
    fn receive(&mut self) -> Option<Vec<u8>>;
}

impl Loopback {
    /// Its hardware address.
    pub closed spec fn mac_view(&self) -> Seq<u8> {
        self.mac@
    }

    /// The frames waiting to be received, oldest first.
    pub closed spec fn frames(&self) -> Seq<Seq<u8>> {
        self.queue@.map_values(|v: Vec<u8>| v@)
    }

    /// A loopback device with address 02:00:00:00:00:01 and nothing queued.
    pub fn new() -> (d: Loopback)
        ensures
            d.mac_view() == seq![0x02u8, 0x00u8, 0x00u8, 0x00u8, 0x00u8, 0x01u8],
            d.frames() == Seq::<Seq<u8>>::empty(),
    {
        let d = Loopback { mac: [0x02, 0x00, 0x00, 0x00, 0x00, 0x01], queue: VecDeque::new() };
        assert(d.frames() =~= Seq::<Seq<u8>>::empty());
        d
    }
}

impl NetDevice for Loopback {
    fn mac(&self) -> (m: MacAddr)
        ensures
            m@ == self.mac_view(),
    {
        self.mac
    }

    fn transmit(&mut self, frame: &[u8])
        ensures
            final(self).frames() == old(self).frames().push(frame@),
            final(self).mac_view() == old(self).mac_view(),
    {
        self.queue.push_back(to_vec(frame));
        assert(self.frames() =~= old(self).frames().push(frame@));
    }

    fn receive(&mut self) -> (r: Option<Vec<u8>>)
        ensures
            old(self).frames().len() == 0 ==> r is None && final(self).frames() == old(self).frames(),
            old(self).frames().len() > 0 ==> (r matches Some(f) && f@ == old(self).frames()[0])
                && final(self).frames() == old(self).frames().drop_first(),
            final(self).mac_view() == old(self).mac_view(),
    {
        let r = self.queue.pop_front();
        assert(self.frames() =~= if old(self).frames().len() > 0 { old(self).frames().drop_first() } else { old(self).frames() });
        r
    }
}

proof fn lemma_weight_push(ip: Seq<u8>, mac: Seq<u8>, q: Seq<Seq<u8>>, f: Seq<u8>)
    ensures
        total_weight(ip, mac, q.push(f)) == total_weight(ip, mac, q) + weight(ip, mac, f),
    decreases q.len(),
{
    if q.len() > 0 {
        assert(q.push(f).drop_first() =~= q.drop_first().push(f));
        assert(q.push(f)[0] == q[0]);
        lemma_weight_push(ip, mac, q.drop_first(), f);
    } else {
        assert(q.push(f).drop_first() =~= Seq::<Seq<u8>>::empty());
        assert(q.push(f)[0] == f);
        assert(total_weight(ip, mac, Seq::<Seq<u8>>::empty()) == 0);
    }
}

/// Equality of two IPv4 addresses.
fn ip_eq(a: &Ipv4Addr, b: &Ipv4Addr) -> (r: bool)
    ensures
        r == (a@ == b@),
{
    let r = a[0] == b[0] && a[1] == b[1] && a[2] == b[2] && a[3] == b[3];
    if r {
        assert(a@ =~= b@);
    }
    r
}

/// Four bytes from `b[o..o+4]`.
fn take4(b: &[u8], o: usize) -> (a: [u8; 4])
    requires
        o + 4 <= b@.len(),
    ensures
        a@ == b@.subrange(o as int, o + 4),
{
    let a = [b[o], b[o + 1], b[o + 2], b[o + 3]];
    assert(a@ =~= b@.subrange(o as int, o + 4));
    a
}

/// Six bytes from `b[o..o+6]`.
fn take6(b: &[u8], o: usize) -> (a: [u8; 6])
    requires
        o + 6 <= b@.len(),
    ensures
        a@ == b@.subrange(o as int, o + 6),
{
    let a = [b[o], b[o + 1], b[o + 2], b[o + 3], b[o + 4], b[o + 5]];
    assert(a@ =~= b@.subrange(o as int, o + 6));
    a
}

/// The hardware address for `ip` in an ARP table (first entry), or the
/// broadcast address.
pub open spec fn arp_lookup(t: Seq<(Seq<u8>, Seq<u8>)>, ip: Seq<u8>) -> Seq<u8>
    decreases t.len(),
{
    if t.len() == 0 {
        seq![0xFFu8, 0xFFu8, 0xFFu8, 0xFFu8, 0xFFu8, 0xFFu8]
    } else {
        let (a, m) = t[0];
        if a == ip { m } else { arp_lookup(t.drop_first(), ip) }
    }
}

/// The data an echo request carries.
pub open spec fn ping_data() -> Seq<u8> {
    vstd::utf8::encode_utf8("buitenzorg-dahan"@)
}

/// The ICMP echo request with identifier `ident` and sequence `sq`.
pub open spec fn echo_request(ident: u16, sq: u16) -> Seq<u8> {
    let z = seq![8u8, 0u8, 0u8, 0u8] + be16_bytes(ident) + be16_bytes(sq) + ping_data();
    let c = checksum(z);
    z.update(2, (c / 256) as u8).update(3, (c % 256) as u8)
}

proof fn lemma_ping_data()
    ensures
        ping_data().len() == 16,
{
    reveal_strlit("buitenzorg-dahan");
    vstd::utf8::is_ascii_chars_encode_utf8("buitenzorg-dahan"@);
}

/// The network stack on one loopback interface.
pub struct Stack {
    device: Loopback,
    ip: Ipv4Addr,
    arp: Vec<(Ipv4Addr, MacAddr)>,
    echo_replies: u64,
    arp_replies: u64,
}

impl Stack {
    /// The interface's IPv4 address.
    pub closed spec fn ip_view(&self) -> Seq<u8> {
        self.ip@
    }

    /// The interface's hardware address.
    pub closed spec fn mac_view(&self) -> Seq<u8> {
        self.device.mac_view()
    }

    /// Frames waiting to be received.
    pub closed spec fn queue(&self) -> Seq<Seq<u8>> {
        self.device.frames()
    }

    /// The ARP table.
    pub closed spec fn arp_table(&self) -> Seq<(Seq<u8>, Seq<u8>)> {
        self.arp@.map_values(|e: (Ipv4Addr, MacAddr)| (e.0@, e.1@))
    }

    /// (echo replies received, ARP replies sent).
    pub closed spec fn counts(&self) -> (nat, nat) {
        (self.echo_replies as nat, self.arp_replies as nat)
    }

    /// The queued frames that would be answered fit the checksum's range,
    /// and the counters have room for the queued work.
    pub closed spec fn wf(&self) -> bool {
        let (ip, mac, q) = (self.ip@, self.device.mac_view(), self.device.frames());
        &&& mac.len() == 6
        &&& forall|i: int| 0 <= i < q.len() && frame_reply(ip, mac, #[trigger] q[i]) is Some ==> q[i].len() < 0x20000
        &&& self.echo_replies + self.arp_replies + total_weight(ip, mac, q) <= u64::MAX
        &&& total_weight(ip, mac, q) <= usize::MAX
    }

    /// Room for `k` more units of queued work.
    pub open spec fn has_room(&self, k: nat) -> bool {
        let w = total_weight(self.ip_view(), self.mac_view(), self.queue());
        &&& self.counts().0 + self.counts().1 + w + k <= u64::MAX
        &&& w + k <= usize::MAX
    }

    /// Bring up the loopback interface with address `ip`; the ARP table
    /// holds this host.
    pub fn init(ip: Ipv4Addr) -> (s: Stack)
        ensures
            s.wf(),
            s.ip_view() == ip@,
            s.mac_view() == seq![0x02u8, 0x00u8, 0x00u8, 0x00u8, 0x00u8, 0x01u8],
            s.queue() == Seq::<Seq<u8>>::empty(),
            s.arp_table() == seq![(ip@, s.mac_view())],
            s.counts() == (0nat, 0nat),
    {
        let device = Loopback::new();
        let mac = device.mac();
        let s = Stack { device, ip, arp: vec![(ip, mac)], echo_replies: 0, arp_replies: 0 };
        assert(s.arp_table() =~= seq![(ip@, s.mac_view())]);
        s
    }

    /// (echo replies received, ARP replies sent).
    pub fn counters(&self) -> (r: (u64, u64))
        ensures
            (r.0 as nat, r.1 as nat) == self.counts(),
    {
        (self.echo_replies, self.arp_replies)
    }

    /// Queue an ICMP echo request from this host to `dest`, to the hardware
    /// address the ARP table has for it (broadcast when none);
    /// [`Stack::poll`] drives the exchange.
    pub fn send_ping(&mut self, dest: Ipv4Addr, ident: u16, sq: u16)
        requires
            old(self).wf(),
            old(self).has_room(2),
        ensures
            final(self).wf(),
            final(self).ip_view() == old(self).ip_view() && final(self).mac_view() == old(self).mac_view(),
            final(self).arp_table() == old(self).arp_table(),
            final(self).counts() == old(self).counts(),
            final(self).queue() == old(self).queue().push(ipv4_frame(old(self).mac_view(),
                arp_lookup(old(self).arp_table(), dest@), old(self).ip_view(), dest@, IPPROTO_ICMP,
                echo_request(ident, sq))),
    {
        let src_mac = self.device.mac();
        let mut dst_mac: MacAddr = [0xFF; 6];
        let mut i: usize = 0;
        let mut found = false;
        assert(self.arp_table().subrange(0, self.arp@.len() as int) =~= self.arp_table());
        while i < self.arp.len() && !found
            invariant
                i <= self.arp@.len(),
                !found ==> arp_lookup(self.arp_table(), dest@)
                    == arp_lookup(self.arp_table().subrange(i as int, self.arp@.len() as int), dest@),
                !found ==> dst_mac@ == seq![0xFFu8, 0xFFu8, 0xFFu8, 0xFFu8, 0xFFu8, 0xFFu8],
                found ==> dst_mac@ == arp_lookup(self.arp_table(), dest@),
            decreases self.arp@.len() - i + (if found { 0int } else { 1int }),
        {
            let ghost t = self.arp_table().subrange(i as int, self.arp@.len() as int);
            assert(t.drop_first() =~= self.arp_table().subrange(i + 1, self.arp@.len() as int));
            assert(t[0] == self.arp_table()[i as int]);
            if ip_eq(&self.arp[i].0, &dest) {
                dst_mac = self.arp[i].1;
                found = true;
            } else {
                i = i + 1;
            }
        }
        proof {
            if !found {
                assert(self.arp_table().subrange(i as int, i as int) =~= Seq::<(Seq<u8>, Seq<u8>)>::empty());
            }
            assert(dst_mac@ =~= arp_lookup(self.arp_table(), dest@));
            lemma_ping_data();
        }
        let mut msg: Vec<u8> = vec![8u8, 0, 0, 0, (ident >> 8) as u8, ident as u8, (sq >> 8) as u8, sq as u8];
        push_all(&mut msg, "buitenzorg-dahan".as_bytes());
        assert((ident >> 8) as u8 == ident / 256 && ident as u8 == ident % 256) by (bit_vector);
        assert((sq >> 8) as u8 == sq / 256 && sq as u8 == sq % 256) by (bit_vector);
        let ghost z = seq![8u8, 0u8, 0u8, 0u8] + be16_bytes(ident) + be16_bytes(sq) + ping_data();
        assert(msg@ =~= z);
        let csum = checksum16(msg.as_slice());
        msg.set(2, (csum >> 8) as u8);
        msg.set(3, csum as u8);
        assert((csum >> 8) as u8 == csum / 256 && csum as u8 == csum % 256) by (bit_vector);
        assert(msg@ =~= echo_request(ident, sq));
        let frame = build_ipv4_frame(src_mac, dst_mac, self.ip, dest, IPPROTO_ICMP, msg.as_slice());
        proof {
            let f = frame@;
            let q0 = self.queue();
            let (ip, mac) = (self.ip@, self.mac_view());
            lemma_weight_push(ip, mac, q0, f);
            assert forall|k: int| 0 <= k < q0.push(f).len() && frame_reply(ip, mac, #[trigger] q0.push(f)[k]) is Some
                implies q0.push(f)[k].len() < 0x20000 by {
                if k < q0.len() { assert(q0.push(f)[k] == q0[k]); }
            }
        }
        self.device.transmit(frame.as_slice());
    }
}

impl Stack {
    /// `self` is `old` after handling one frame: same interface and ARP
    /// table, `reply` queued (if any), the counters advanced by `d`.
    pub closed spec fn handled_from(&self, old: &Stack, reply: Option<Seq<u8>>, d: (nat, nat)) -> bool {
        &&& self.ip@ == old.ip@ && self.device.mac_view() == old.device.mac_view() && self.arp@ == old.arp@
        &&& self.device.frames() == match reply { Some(r) => old.device.frames().push(r), None => old.device.frames() }
        &&& self.echo_replies == old.echo_replies + d.0 && self.arp_replies == old.arp_replies + d.1
    }

    /// Answer an ARP request for this host (the message after the Ethernet
    /// header).
    fn handle_arp(&mut self, arp: &[u8])
        requires
            old(self).arp_replies < u64::MAX,
            old(self).device.mac_view().len() == 6,
        ensures
            final(self).handled_from(old(self), arp_reply(old(self).ip@, old(self).device.mac_view(), arp@),
                (0, if arp_reply(old(self).ip@, old(self).device.mac_view(), arp@) is Some { 1 } else { 0 })),
    {
        if arp.len() < 28 {
            return;
        }
        let oper = be16(arp, 6);
        if oper != 1 {
            return;
        }
        let target_ip = take4(arp, 24);
        if !ip_eq(&target_ip, &self.ip) {
            return;
        }
        let sender_mac = take6(arp, 8);
        let sender_ip = take4(arp, 14);
        let our_mac = self.device.mac();
        let mut reply: Vec<u8> = Vec::new();
        push_all(&mut reply, sender_mac.as_slice());
        push_all(&mut reply, our_mac.as_slice());
        push_be16(&mut reply, ETHERTYPE_ARP);
        reply.push(0);
        reply.push(1);
        reply.push(0x08);
        reply.push(0);
        reply.push(6);
        reply.push(4);
        reply.push(0);
        reply.push(2);
        push_all(&mut reply, our_mac.as_slice());
        push_all(&mut reply, self.ip.as_slice());
        push_all(&mut reply, sender_mac.as_slice());
        push_all(&mut reply, sender_ip.as_slice());
        assert(reply@ =~= arp_reply(self.ip@, self.device.mac_view(), arp@)->0);
        self.device.transmit(reply.as_slice());
        self.arp_replies = self.arp_replies + 1;
    }

    /// Answer the echo request `req` carried by `frame` from `src_ip` to
    /// `dst_ip`, when it is addressed to this host.
    fn reply_echo(&mut self, frame: &[u8], src_ip: Ipv4Addr, dst_ip: Ipv4Addr, req: &[u8])
        requires
            frame@.len() >= 14,
            req@.len() >= 8,
            dst_ip@ == old(self).ip@ ==> req@.len() < 0x20000,
        ensures
            final(self).handled_from(old(self), if dst_ip@ == old(self).ip@ {
                Some(ipv4_frame(old(self).device.mac_view(), frame@.subrange(6, 12), dst_ip@, src_ip@, IPPROTO_ICMP,
                    echo_answer(req@)))
            } else {
                None
            }, (0, 0)),
    {
        if !ip_eq(&dst_ip, &self.ip) {
            return;
        }
        let src_mac = take6(frame, 6);
        let our_mac = self.device.mac();
        let mut m = to_vec(req);
        m.set(0, 0);
        m.set(2, 0);
        m.set(3, 0);
        let csum = checksum16(m.as_slice());
        m.set(2, (csum >> 8) as u8);
        m.set(3, csum as u8);
        assert((csum >> 8) as u8 == csum / 256 && csum as u8 == csum % 256) by (bit_vector);
        assert(m@ =~= echo_answer(req@));
        let reply = build_ipv4_frame(our_mac, src_mac, dst_ip, src_ip, IPPROTO_ICMP, m.as_slice());
        self.device.transmit(reply.as_slice());
    }

    /// Handle an IPv4 packet `ip` (the part of `frame` after its Ethernet
    /// header): answer echo requests for this host, count echo replies.
    fn handle_ipv4(&mut self, frame: &[u8], ip: &[u8])
        requires
            frame@.len() >= 14,
            ip@ == frame@.subrange(14, frame@.len() as int),
            old(self).echo_replies < u64::MAX,
            frame_reply(old(self).ip@, old(self).device.mac_view(), frame@) is Some ==> frame@.len() < 0x20000,
            be16_spec(frame@, 12) == ETHERTYPE_IPV4,
        ensures
            final(self).handled_from(old(self), frame_reply(old(self).ip@, old(self).device.mac_view(), frame@),
                frame_counts(old(self).ip@, old(self).device.mac_view(), frame@)),
    {
        let ghost (our_ip, mac) = (self.ip@, self.device.mac_view());
        if ip.len() < 20 || (ip[0] >> 4) != 4 {
            return;
        }
        let ihl = (ip[0] & 0x0F) as usize * 4;
        if ip.len() < ihl {
            return;
        }
        let proto = ip[9];
        let src_ip = take4(ip, 12);
        let dst_ip = take4(ip, 16);
        if proto != IPPROTO_ICMP {
            return;
        }
        if ip.len() - ihl < 8 {
            return;
        }
        let msg = vstd::slice::slice_subrange(ip, ihl, ip.len());
        assert(ip_message(ip@) == Some(msg@));
        if msg[0] == 8 {
            self.reply_echo(frame, src_ip, dst_ip, msg);
        } else if msg[0] == 0 {
            self.echo_replies = self.echo_replies + 1;
        }
    }

    /// Handle one received Ethernet frame (see [`frame_reply`] and
    /// [`frame_counts`]).
    fn handle_frame(&mut self, frame: &[u8])
        requires
            old(self).echo_replies < u64::MAX,
            old(self).arp_replies < u64::MAX,
            old(self).device.mac_view().len() == 6,
            frame_reply(old(self).ip@, old(self).device.mac_view(), frame@) is Some ==> frame@.len() < 0x20000,
        ensures
            final(self).handled_from(old(self), frame_reply(old(self).ip@, old(self).device.mac_view(), frame@),
                frame_counts(old(self).ip@, old(self).device.mac_view(), frame@)),
    {
        if frame.len() < 14 {
            return;
        }
        let ethertype = be16(frame, 12);
        if ethertype == ETHERTYPE_ARP {
            let a = vstd::slice::slice_subrange(frame, 14, frame.len());
            self.handle_arp(a);
        } else if ethertype == ETHERTYPE_IPV4 {
            let p = vstd::slice::slice_subrange(frame, 14, frame.len());
            self.handle_ipv4(frame, p);
        }
    }

    /// Drive the stack: handle every queued frame, including the answers
    /// queued on the way, until the queue is empty. Returns how many frames
    /// were handled.
    pub fn poll(&mut self) -> (n: usize)
        requires
            old(self).wf(),
        ensures
            final(self).wf(),
            final(self).ip_view() == old(self).ip_view() && final(self).mac_view() == old(self).mac_view(),
            final(self).arp_table() == old(self).arp_table(),
            final(self).queue().len() == 0,
            drain(old(self).ip_view(), old(self).mac_view(), old(self).queue(), old(self).counts(), n as nat)
                == (final(self).queue(), final(self).counts()),
            forall|m: nat| m < n ==> (#[trigger] drain(old(self).ip_view(), old(self).mac_view(), old(self).queue(),
                old(self).counts(), m)).0.len() > 0,
    {
        let ghost (ip, mac, q0, c0) = (self.ip@, self.device.mac_view(), self.device.frames(), self.counts());
        let ghost w0 = total_weight(ip, mac, q0);
        let mut handled: usize = 0;
        loop
            invariant
                self.wf(),
                self.ip@ == ip && self.device.mac_view() == mac && self.arp@ == old(self).arp@,
                ip == old(self).ip_view() && mac == old(self).mac_view() && q0 == old(self).queue() && c0 == old(self).counts(),
                drain(ip, mac, q0, c0, handled as nat) == (self.device.frames(), self.counts()),
                forall|m: nat| m < handled ==> (#[trigger] drain(ip, mac, q0, c0, m)).0.len() > 0,
                handled + total_weight(ip, mac, self.device.frames()) <= w0,
                w0 <= usize::MAX,
            ensures
                self.wf(),
                self.ip@ == ip && self.device.mac_view() == mac && self.arp@ == old(self).arp@,
                self.device.frames().len() == 0,
                drain(ip, mac, q0, c0, handled as nat) == (self.device.frames(), self.counts()),
                forall|m: nat| m < handled ==> (#[trigger] drain(ip, mac, q0, c0, m)).0.len() > 0,
            decreases total_weight(ip, mac, self.device.frames()),
        {
            let ghost q = self.device.frames();
            let frame = match self.device.receive() {
                Some(f) => f,
                None => break,
            };
            let ghost f = frame@;
            proof {
                assert(q[0] == f);
                assert(total_weight(ip, mac, q) == weight(ip, mac, f) + total_weight(ip, mac, q.drop_first()));
                assert(frame_reply(ip, mac, f) is Some ==> f.len() < 0x20000);
            }
            self.handle_frame(frame.as_slice());
            proof {
                let rest = q.drop_first();
                match frame_reply(ip, mac, f) {
                    Some(r) => {
                        lemma_reply_unanswered(ip, mac, f);
                        lemma_weight_push(ip, mac, rest, r);
                        assert forall|k: int| 0 <= k < rest.push(r).len()
                            && frame_reply(ip, mac, #[trigger] rest.push(r)[k]) is Some
                            implies rest.push(r)[k].len() < 0x20000 by {
                            assert(rest.push(r)[k] == q[k + 1]);
                        }
                    },
                    None => {
                        assert forall|k: int| 0 <= k < rest.len() && frame_reply(ip, mac, #[trigger] rest[k]) is Some
                            implies rest[k].len() < 0x20000 by {
                            assert(rest[k] == q[k + 1]);
                        }
                    },
                }
                assert(drain(ip, mac, q0, c0, (handled + 1) as nat) == net_step(ip, mac, q, drain(ip, mac, q0, c0, handled as nat).1));
            }
            handled = handled + 1;
        }
        handled
    }
}

/// A ping of the host's own address over loopback completes: the request
/// is answered, the answer is counted as an echo reply, and after those two
/// frames nothing is left queued.
pub proof fn lemma_ping_roundtrip(ip: Seq<u8>, mac: Seq<u8>, dst_mac: Seq<u8>, ident: u16, sq: u16, c: (nat, nat))
    requires
        ip.len() == 4,
        mac.len() == 6,
        dst_mac.len() == 6,
    ensures
        drain(ip, mac, seq![ipv4_frame(mac, dst_mac, ip, ip, IPPROTO_ICMP, echo_request(ident, sq))], c, 1).0.len() == 1,
        drain(ip, mac, seq![ipv4_frame(mac, dst_mac, ip, ip, IPPROTO_ICMP, echo_request(ident, sq))], c, 2)
            == (Seq::<Seq<u8>>::empty(), (c.0 + 1, c.1)),
{
    lemma_ping_data();
    let req = echo_request(ident, sq);
    let f = ipv4_frame(mac, dst_mac, ip, ip, IPPROTO_ICMP, req);
    let p = f.subrange(14, f.len() as int);
    assert(req.len() == 24);
    assert(req[0] == 8);
    assert(f[12] == 0x08 && f[13] == 0x00);
    assert(p[0] == 0x45);
    let b0 = p[0];
    assert(b0 == 0x45u8 ==> b0 >> 4u8 == 4 && (b0 & 0x0F) == 5) by (bit_vector);
    assert(p[9] == IPPROTO_ICMP);
    assert(p.subrange(20, p.len() as int) =~= req);
    assert(p.subrange(16, 20) =~= ip);
    assert(p.subrange(12, 16) =~= ip);
    assert(f.subrange(6, 12) =~= mac);
    assert(be16_spec(f, 12) == ETHERTYPE_IPV4);
    assert(ip_message(p) == Some(req));
    let r = ipv4_frame(mac, mac, ip, ip, IPPROTO_ICMP, echo_answer(req));
    assert(frame_reply(ip, mac, f) == Some(r));
    assert(frame_counts(ip, mac, f) == (0nat, 0nat));
    lemma_reply_unanswered(ip, mac, f);
    let ans = echo_answer(req);
    let rp = r.subrange(14, r.len() as int);
    assert(ans[0] == 0);
    assert(r[12] == 0x08 && r[13] == 0x00);
    assert(rp[0] == 0x45);
    let b1 = rp[0];
    assert(b1 == 0x45u8 ==> b1 >> 4u8 == 4 && (b1 & 0x0F) == 5) by (bit_vector);
    assert(rp[9] == IPPROTO_ICMP);
    assert(rp.subrange(20, rp.len() as int) =~= ans);
    assert(frame_counts(ip, mac, r) == (1nat, 0nat));
    let q1 = seq![f].drop_first().push(r);
    assert(q1 =~= seq![r]);
    assert(drain(ip, mac, seq![f], c, 0) == (seq![f], c));
    assert(drain(ip, mac, seq![f], c, 1) == (q1, c));
    assert(seq![r].drop_first() =~= Seq::<Seq<u8>>::empty());
}

} // verus!
