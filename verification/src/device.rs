//! The network device between the VPN tunnel and the proxy's IP stack.
//!
//! Packets from the tunnel wait in one queue, frames for it in another. Both are
//! shared with the tunnel's side, so what a queue holds is known only while it is
//! locked: what is done with it then is a function of its own, on the queue.

use smoltcp::time::Instant;
use std::collections::VecDeque;
use std::sync::{Arc, Mutex, MutexGuard};
use vstd::prelude::*;

verus! {

// ---------------------------------------------------------------------------
// Shared queues
// ---------------------------------------------------------------------------

/// `smoltcp::time::Instant`, a time that the stack passes along. Nothing is said
/// of it.
#[verifier::external_type_specification]
#[verifier::external_body]
pub struct ExInstant(smoltcp::time::Instant);

/// `std::sync::Mutex`. A value of it stands for the lock, not for what it guards.
#[verifier::external_type_specification]
#[verifier::external_body]
#[verifier::reject_recursive_types(T)]
pub struct ExMutex<T: ?Sized>(std::sync::Mutex<T>);

/// `std::sync::MutexGuard`, through which what a mutex guards is reached while it
/// is locked.
#[verifier::external_type_specification]
#[verifier::external_body]
#[verifier::reject_recursive_types(T)]
pub struct ExMutexGuard<'a, T: ?Sized + 'a>(std::sync::MutexGuard<'a, T>);

/// What the queue holds that a guard gives access to.
pub uninterp spec fn guarded(guard: MutexGuard<'_, VecDeque<Vec<u8>>>) -> Seq<Vec<u8>>;

/// The lock that a guard holds.
pub uninterp spec fn lock_of(guard: MutexGuard<'_, VecDeque<Vec<u8>>>) -> Mutex<VecDeque<Vec<u8>>>;

/// `Mutex::lock` waits until no one else holds the lock, and then gives access to
/// the queue: the guard is one of this lock. A lock that was held by a thread that
/// panicked gives access too. What the queue holds by then is up to those that share
/// it, so nothing is stated of it. No function here locks a queue while it holds a lock.
#[verifier::external_body]
fn lock_queue<'a>(queue: &'a Mutex<VecDeque<Vec<u8>>>) -> (guard: MutexGuard<
    'a,
    VecDeque<Vec<u8>>,
>)
    ensures
        lock_of(guard) == *queue,
{
    match queue.lock() {
        Ok(guard) => guard,
        Err(poisoned) => poisoned.into_inner(),
    }
}

/// Whether the guard is one that locking the queue gave, as it was given: before
/// anything was done through it.
pub closed spec fn given(
    queue: Mutex<VecDeque<Vec<u8>>>,
    guard: MutexGuard<'_, VecDeque<Vec<u8>>>,
) -> bool {
    call_ensures(lock_queue, (&queue,), guard)
}

/// `MutexGuard::deref_mut` gives the queue itself: what the guard gives access to,
/// and changes to it are changes to that. The guard stays one of the same lock.
#[verifier::external_body]
fn queue_mut<'b, 'a>(guard: &'b mut MutexGuard<'a, VecDeque<Vec<u8>>>) -> (queue: &'b mut VecDeque<
    Vec<u8>,
>)
    ensures
        queue@ == guarded(*old(guard)),
        guarded(*final(guard)) == final(queue)@,
        lock_of(*final(guard)) == lock_of(*old(guard)),
{
    &mut **guard
}

/// `Arc::clone` gives another handle to the same queue.
#[verifier::external_body]
fn share_queue(queue: &Arc<Mutex<VecDeque<Vec<u8>>>>) -> (shared: Arc<Mutex<VecDeque<Vec<u8>>>>)
    ensures
        shared == *queue,
{
    Arc::clone(queue)
}

// ---------------------------------------------------------------------------
// Packets
// ---------------------------------------------------------------------------

/// Whether the packet is an IPv4 packet: its first four bits are the version.
pub open spec fn is_ipv4(packet: Seq<u8>) -> bool {
    packet.len() > 0 && packet[0] / 16 == 4
}

/// How many packets stand in front of the first IPv4 packet.
pub open spec fn passed_over(queue: Seq<Vec<u8>>) -> nat
    decreases queue.len(),
{
    if queue.len() == 0 || is_ipv4(queue[0]@) {
        0
    } else {
        1 + passed_over(queue.drop_first())
    }
}

/// The IPv4 packets of a queue, in their order.
pub open spec fn ipv4_packets(queue: Seq<Vec<u8>>) -> Seq<Vec<u8>> {
    queue.filter(|packet: Vec<u8>| is_ipv4(packet@))
}

/// Takes the first IPv4 packet from the queue, and whatever stands in front of it:
/// the interface is IPv4 only, and the stack must not be handed anything else.
pub fn take_ipv4_packet(queue: &mut VecDeque<Vec<u8>>) -> (packet: Option<Vec<u8>>)
    ensures
        ({
            let k = passed_over(old(queue)@) as int;
            if k < old(queue)@.len() {
                &&& packet == Some(old(queue)@[k])
                &&& is_ipv4(old(queue)@[k]@)
                &&& final(queue)@ == old(queue)@.skip(k + 1)
            } else {
                &&& packet is None
                &&& final(queue)@ == Seq::<Vec<u8>>::empty()
            }
        }),
{
    let ghost all = queue@;
    let ghost mut k: int = 0;
    assert(all.skip(0) =~= all);
    loop
        invariant
            all == old(queue)@,
            0 <= k <= all.len(),
            queue@ == all.skip(k),
            passed_over(all) == k + passed_over(all.skip(k)),
        decreases all.len() - k,
    {
        match queue.pop_front() {
            None => {
                assert(queue@ =~= Seq::<Vec<u8>>::empty());
                return None;
            },
            Some(packet) => {
                assert(all.skip(k).subrange(1, all.len() - k) =~= all.skip(k + 1));
                assert(all.skip(k).drop_first() =~= all.skip(k + 1));
                if packet.len() > 0 {
                    let first: u8 = packet[0];
                    assert(first >> 4 == first / 16) by (bit_vector);
                    if first >> 4 == 4 {
                        return Some(packet);
                    }
                }
                proof {
                    k = k + 1;
                }
            },
        }
    }
}

/// The queue's IPv4 packets are handed out one by one, in order and none left
/// out, and no other packet ever is.
pub proof fn law_ipv4_packets_in_order(queue: Seq<Vec<u8>>)
    ensures
        ({
            let k = passed_over(queue) as int;
            if k < queue.len() {
                &&& is_ipv4(queue[k]@)
                &&& ipv4_packets(queue) == seq![queue[k]] + ipv4_packets(queue.skip(k + 1))
            } else {
                ipv4_packets(queue) == Seq::<Vec<u8>>::empty()
            }
        }),
    decreases queue.len(),
{
    let ipv4 = |packet: Vec<u8>| is_ipv4(packet@);
    if queue.len() == 0 {
        assert(ipv4_packets(queue) =~= Seq::<Vec<u8>>::empty()) by {
            reveal(Seq::filter);
        }
    } else {
        let first = seq![queue[0]];
        let rest = queue.drop_first();
        assert(queue =~= first + rest);
        Seq::filter_distributes_over_add(first, rest, ipv4);
        assert(first.filter(ipv4) =~= if is_ipv4(queue[0]@) {
            first
        } else {
            Seq::empty()
        }) by {
            reveal_with_fuel(Seq::filter, 2);
            assert(first.drop_last() =~= Seq::<Vec<u8>>::empty());
        }
        if is_ipv4(queue[0]@) {
            assert(queue.skip(1) =~= rest);
        } else {
            law_ipv4_packets_in_order(rest);
            let k = passed_over(queue) as int;
            assert(ipv4_packets(queue) =~= ipv4_packets(rest));
            if k < queue.len() {
                assert(queue.skip(k + 1) =~= rest.skip(k));
                assert(queue[k] == rest[k - 1]);
            }
        }
    }
}

// ---------------------------------------------------------------------------
// Frames
// ---------------------------------------------------------------------------

/// A frame of the given length with nothing written to it yet.
pub open spec fn blank(len: nat) -> Seq<u8> {
    Seq::new(len, |i: int| 0u8)
}

/// Whether `f` may be called on a buffer that holds `bytes`.
pub open spec fn accepts<R, F: FnOnce(&mut [u8]) -> R>(f: F, bytes: Seq<u8>) -> bool {
    forall|buf: &mut [u8]| (#[trigger] buf@) == bytes ==> call_requires(f, (buf,))
}

/// Lets `f` write a frame of the given length. The buffer is zeroed first.
pub fn fill_frame<R, F>(len: usize, f: F) -> (res: (R, Vec<u8>)) where
    F: FnOnce(&mut [u8]) -> R,

    requires
        accepts(f, blank(len as nat)),
    ensures
        exists|buf: &mut [u8]|
            (#[trigger] buf@) == blank(len as nat) && call_ensures(f, (buf,), res.0) && final(buf)@
                == res.1@,
{
    let mut frame: Vec<u8> = vec![0u8; len];
    assert(frame@ =~= blank(len as nat));
    let result = f(frame.as_mut_slice());
    (result, frame)
}

/// Whether a queue that held `before` holds, in `after`, the frame behind all that
/// was there.
pub open spec fn queued(before: Seq<Vec<u8>>, after: Seq<Vec<u8>>, frame: Seq<u8>) -> bool {
    &&& after.len() == before.len() + 1
    &&& after.drop_last() == before
    &&& after.last()@ == frame
}

/// Puts a frame behind those that wait already.
pub fn queue_frame(queue: &mut VecDeque<Vec<u8>>, frame: Vec<u8>)
    ensures
        final(queue)@ == old(queue)@.push(frame),
        queued(old(queue)@, final(queue)@, frame@),
{
    queue.push_back(frame);
    assert(queue@.drop_last() =~= old(queue)@);
}

// ---------------------------------------------------------------------------
// The device
// ---------------------------------------------------------------------------

/// The network device.
pub struct VpnDevice {
    pub rx_queue: Arc<Mutex<VecDeque<Vec<u8>>>>,
    tx_queue: Arc<Mutex<VecDeque<Vec<u8>>>>,
    mtu: usize,
}

/// A packet that was received.
pub struct VpnRxToken {
    pub packet: Vec<u8>,
}

/// The permission to send one frame.
pub struct VpnTxToken {
    tx_queue: Arc<Mutex<VecDeque<Vec<u8>>>>,
}

/// What is received from a queue that holds `before`, and what it holds then: the
/// first IPv4 packet, if there is one, is taken with all that stands in front of it,
/// and comes with the permission to answer through `tx_queue`.
pub open spec fn received(
    before: Seq<Vec<u8>>,
    after: Seq<Vec<u8>>,
    tokens: Option<(VpnRxToken, VpnTxToken)>,
    tx_queue: Arc<Mutex<VecDeque<Vec<u8>>>>,
) -> bool {
    let k = passed_over(before) as int;
    if k < before.len() {
        &&& tokens matches Some((rx, tx)) && rx.packet == before[k] && tx.queue() == tx_queue
        &&& is_ipv4(before[k]@)
        &&& after == before.skip(k + 1)
    } else {
        &&& tokens is None
        &&& after == Seq::<Vec<u8>>::empty()
    }
}

/// What is received from a queue: its first IPv4 packet, if it holds one, and the
/// permission to answer through `tx_queue`. The packets in front of it are dropped.
pub fn receive_from(
    queue: &mut VecDeque<Vec<u8>>,
    tx_queue: &Arc<Mutex<VecDeque<Vec<u8>>>>,
) -> (tokens: Option<(VpnRxToken, VpnTxToken)>)
    ensures
        received(old(queue)@, final(queue)@, tokens, *tx_queue),
{
    match take_ipv4_packet(queue) {
        Some(packet) => Some(
            (VpnRxToken { packet }, VpnTxToken { tx_queue: share_queue(tx_queue) }),
        ),
        None => None,
    }
}

impl VpnRxToken {
    /// Hands the packet to `f`.
    pub fn consume<R, F>(self, f: F) -> (result: R) where F: FnOnce(&mut [u8]) -> R
        requires
            accepts(f, self.packet@),
        ensures
            exists|buf: &mut [u8]|
                (#[trigger] buf@) == self.packet@ && call_ensures(f, (buf,), result),
    {
        let mut packet = self.packet;
        let result = f(packet.as_mut_slice());
        result
    }
}

impl VpnTxToken {
    /// The queue that the frame goes to.
    pub closed spec fn queue(&self) -> Arc<Mutex<VecDeque<Vec<u8>>>> {
        self.tx_queue
    }

    /// Lets `f` write a frame of the given length, and queues it. The queue is
    /// locked only when the frame is written, and the frame goes behind what the
    /// queue holds by then.
    pub fn consume<R, F>(self, len: usize, f: F) -> (result: R) where F: FnOnce(&mut [u8]) -> R
        requires
            accepts(f, blank(len as nat)),
        ensures
            exists|
                buf: &mut [u8],
                frame: Seq<u8>,
                g: MutexGuard<'_, VecDeque<Vec<u8>>>,
                h: MutexGuard<'_, VecDeque<Vec<u8>>>,
            |
                (#[trigger] buf@) == blank(len as nat) && call_ensures(f, (buf,), result)
                    && final(buf)@ == frame && given(*self.queue(), g) && lock_of(h)
                    == *self.queue() && #[trigger] queued(guarded(g), guarded(h), frame),
    {
        let (result, frame) = fill_frame(len, f);
        let ghost bytes = frame@;
        let mut guard = lock_queue(&self.tx_queue);
        let ghost locked = guard;
        assert(given(*self.queue(), locked));
        queue_frame(queue_mut(&mut guard), frame);
        assert(queued(guarded(locked), guarded(guard), bytes));
        result
    }
}

// ---------------------------------------------------------------------------
// Capabilities
// ---------------------------------------------------------------------------

/// What kind of frames a device carries.
#[derive(Debug, Clone, Copy, PartialEq, Eq, Structural)]
pub enum Medium {
    /// IP packets, without a header of the link.
    Ip,
}

/// Whether the stack verifies a protocol's checksums when it receives, and whether
/// it computes them when it sends.
#[derive(Debug, Clone, Copy, PartialEq, Eq, Structural)]
pub struct Checksum {
    pub rx: bool,
    pub tx: bool,
}

/// What the stack does about the checksums of each protocol.
#[derive(Debug, Clone, Copy, PartialEq, Eq, Structural)]
pub struct Checksums {
    pub ipv4: Checksum,
    pub udp: Checksum,
    pub tcp: Checksum,
    pub icmpv4: Checksum,
}

/// What a device can do.
#[derive(Debug, Clone, Copy, PartialEq, Eq)]
pub struct Capabilities {
    pub medium: Medium,
    pub max_transmission_unit: usize,
    pub max_burst_size: Option<usize>,
    pub checksum: Checksums,
}

/// The stack does all of the work on checksums.
pub open spec fn all_checksums() -> Checksums {
    let both = Checksum { rx: true, tx: true };
    Checksums { ipv4: both, udp: both, tcp: both, icmpv4: both }
}

/// `smoltcp::phy::DeviceCapabilities::default`, as far as the device leaves it as
/// it is: there is no limit on bursts, and the stack verifies and computes the
/// checksums of every protocol.
#[verifier::external_body]
fn default_capabilities() -> (defaults: (Option<usize>, Checksums))
    ensures
        defaults.0 is None,
        defaults.1 == all_checksums(),
{
    let caps = smoltcp::phy::DeviceCapabilities::default();
    let sums = &caps.checksum;
    (
        caps.max_burst_size,
        Checksums {
            ipv4: Checksum { rx: sums.ipv4.rx(), tx: sums.ipv4.tx() },
            udp: Checksum { rx: sums.udp.rx(), tx: sums.udp.tx() },
            tcp: Checksum { rx: sums.tcp.rx(), tx: sums.tcp.tx() },
            icmpv4: Checksum { rx: sums.icmpv4.rx(), tx: sums.icmpv4.tx() },
        },
    )
}

impl VpnDevice {
    /// The queue that packets are received from, `rx_queue`.
    pub closed spec fn rx(&self) -> Arc<Mutex<VecDeque<Vec<u8>>>> {
        self.rx_queue
    }

    /// The queue that frames are sent to.
    pub closed spec fn tx(&self) -> Arc<Mutex<VecDeque<Vec<u8>>>> {
        self.tx_queue
    }

    /// The longest frame that the device carries.
    pub closed spec fn max_frame(&self) -> usize {
        self.mtu
    }

    /// A device on the two queues.
    pub fn new(
        rx_queue: Arc<Mutex<VecDeque<Vec<u8>>>>,
        tx_queue: Arc<Mutex<VecDeque<Vec<u8>>>>,
        mtu: usize,
    ) -> (device: VpnDevice)
        ensures
            device.rx() == rx_queue,
            device.tx() == tx_queue,
            device.max_frame() == mtu,
    {
        VpnDevice { rx_queue, tx_queue, mtu }
    }

    /// Receives the next IPv4 packet, if one waits, and with it the permission to
    /// answer. What waits is known only while the queue is locked: of what the
    /// receiving queue holds by then, that is received which `received` says.
    pub fn receive(&mut self, _timestamp: Instant) -> (tokens: Option<(VpnRxToken, VpnTxToken)>)
        ensures
            *final(self) == *old(self),
            tokens matches Some((rx, tx)) ==> is_ipv4(rx.packet@) && tx.queue() == old(self).tx(),
            exists|g: MutexGuard<'_, VecDeque<Vec<u8>>>, h: MutexGuard<'_, VecDeque<Vec<u8>>>|
                given(*old(self).rx(), g) && lock_of(h) == *old(self).rx()
                    && #[trigger] received(guarded(g), guarded(h), tokens, old(self).tx()),
    {
        let mut guard = lock_queue(&self.rx_queue);
        let ghost locked = guard;
        assert(given(*self.rx(), locked));
        let tokens = receive_from(queue_mut(&mut guard), &self.tx_queue);
        assert(received(guarded(locked), guarded(guard), tokens, self.tx()));
        tokens
    }

    /// The permission to send a frame, which there always is.
    pub fn transmit(&mut self, _timestamp: Instant) -> (token: Option<VpnTxToken>)
        ensures
            *final(self) == *old(self),
            token matches Some(tx) && tx.queue() == old(self).tx(),
    {
        Some(VpnTxToken { tx_queue: share_queue(&self.tx_queue) })
    }

    /// The device carries bare IP packets up to its limit, and leaves the rest as a
    /// device has it by default.
    pub fn capabilities(&self) -> (caps: Capabilities)
        ensures
            caps.medium == Medium::Ip,
            caps.max_transmission_unit == self.max_frame(),
            caps.max_burst_size is None,
            caps.checksum == all_checksums(),
    {
        let (max_burst_size, checksum) = default_capabilities();
        Capabilities {
            medium: Medium::Ip,
            max_transmission_unit: self.mtu,
            max_burst_size,
            checksum,
        }
    }
}

// ---------------------------------------------------------------------------
// What holds of packets and frames
// ---------------------------------------------------------------------------

/// Which packet is taken is told by first bytes alone: the first packet that has
/// one from 0x40 to 0x4f, whatever its length and its other bytes.
pub proof fn law_first_byte_decides(queue: Seq<Vec<u8>>, k: int)
    requires
        0 <= k <= queue.len(),
        forall|j: int|
            0 <= j < k ==> (#[trigger] queue[j]@).len() == 0 || !(0x40 <= queue[j]@[0] <= 0x4f),
        k < queue.len() ==> queue[k]@.len() > 0 && 0x40 <= queue[k]@[0] <= 0x4f,
    ensures
        passed_over(queue) == k,
        k < queue.len() ==> is_ipv4(queue[k]@),
    decreases k,
{
    if k > 0 {
        let rest = queue.drop_first();
        assert(!is_ipv4(queue[0]@));
        assert forall|j: int| 0 <= j < k - 1 implies (#[trigger] rest[j]@).len() == 0 || !(0x40
            <= rest[j]@[0] <= 0x4f) by {
            assert(rest[j] == queue[j + 1]);
        }
        if k < queue.len() {
            assert(rest[k - 1] == queue[k]);
        }
        law_first_byte_decides(rest, k - 1);
    }
}

/// The stack receives the first packet that begins with a byte from 0x40 to 0x4f,
/// as it is, and can answer through the device's queue. What stood in front of it is
/// gone, what stood behind it waits on.
pub proof fn law_ipv4_packet_is_received(
    queue: Seq<Vec<u8>>,
    after: Seq<Vec<u8>>,
    tokens: Option<(VpnRxToken, VpnTxToken)>,
    tx_queue: Arc<Mutex<VecDeque<Vec<u8>>>>,
    k: int,
    first: u8,
    tail: Seq<u8>,
)
    requires
        received(queue, after, tokens, tx_queue),
        0 <= k < queue.len(),
        queue[k]@ == seq![first] + tail,
        0x40 <= first <= 0x4f,
        forall|j: int|
            0 <= j < k ==> (#[trigger] queue[j]@).len() == 0 || !(0x40 <= queue[j]@[0] <= 0x4f),
    ensures
        tokens matches Some((rx, tx)) && rx.packet@ == seq![first] + tail && rx.packet == queue[k]
            && tx.queue() == tx_queue,
        after.len() == queue.len() - k - 1,
        forall|i: int| 0 <= i < after.len() ==> #[trigger] after[i] == queue[k + 1 + i],
{
    assert(queue[k]@[0] == first);
    law_first_byte_decides(queue, k);
}

/// Where no packet begins with such a byte, nothing is received, and the queue is
/// emptied.
pub proof fn law_nothing_else_is_received(
    queue: Seq<Vec<u8>>,
    after: Seq<Vec<u8>>,
    tokens: Option<(VpnRxToken, VpnTxToken)>,
    tx_queue: Arc<Mutex<VecDeque<Vec<u8>>>>,
)
    requires
        received(queue, after, tokens, tx_queue),
        forall|j: int|
            0 <= j < queue.len() ==> (#[trigger] queue[j]@).len() == 0 || !(0x40 <= queue[j]@[0]
                <= 0x4f),
    ensures
        tokens is None,
        after.len() == 0,
{
    law_first_byte_decides(queue, queue.len() as int);
}

/// A packet in front that is not for the stack makes no difference: what is
/// received, and what waits then, is the same without it.
pub proof fn law_other_packets_make_no_difference(
    packet: Vec<u8>,
    queue: Seq<Vec<u8>>,
    after: Seq<Vec<u8>>,
    tokens: Option<(VpnRxToken, VpnTxToken)>,
    tx_queue: Arc<Mutex<VecDeque<Vec<u8>>>>,
)
    requires
        packet@.len() == 0 || packet@[0] < 0x40 || packet@[0] > 0x4f,
    ensures
        received(seq![packet] + queue, after, tokens, tx_queue) <==> received(
            queue,
            after,
            tokens,
            tx_queue,
        ),
{
    let all = seq![packet] + queue;
    assert(all.drop_first() =~= queue);
    assert(!is_ipv4(all[0]@));
    let k = passed_over(queue) as int;
    if k < queue.len() {
        assert(all[k + 1] == queue[k]);
        assert(all.skip(k + 2) =~= queue.skip(k + 1));
    }
}

/// A queued frame stands at the very end, with all that waited before it in the
/// same order in front.
pub proof fn law_queued_frame_is_last(
    before: Seq<Vec<u8>>,
    after: Seq<Vec<u8>>,
    frame: Seq<u8>,
)
    requires
        queued(before, after, frame),
    ensures
        after.len() == before.len() + 1,
        forall|i: int| 0 <= i < before.len() ==> #[trigger] after[i] == before[i],
        after[before.len() as int]@ == frame,
{
    assert forall|i: int| 0 <= i < before.len() implies #[trigger] after[i] == before[i] by {
        assert(after.drop_last()[i] == after[i]);
    }
}

/// A frame is handed out to be written with as many bytes as asked for, all zero.
pub proof fn law_blank_frame_is_zero(len: nat)
    ensures
        blank(len).len() == len,
        forall|i: int| 0 <= i < len ==> #[trigger] blank(len)[i] == 0,
{
}

/// The stack is left to verify and compute the checksums of all four protocols.
pub proof fn law_no_checksum_is_offloaded()
    ensures
        all_checksums().ipv4.rx && all_checksums().ipv4.tx,
        all_checksums().udp.rx && all_checksums().udp.tx,
        all_checksums().tcp.rx && all_checksums().tcp.tx,
        all_checksums().icmpv4.rx && all_checksums().icmpv4.tx,
{
}

/// A guard that was given is one that `lock_queue` returned for that very lock.
proof fn law_given_guard_is_of_the_lock(
    queue: Mutex<VecDeque<Vec<u8>>>,
    guard: MutexGuard<'_, VecDeque<Vec<u8>>>,
)
    requires
        given(queue, guard),
    ensures
        call_ensures(lock_queue, (&queue,), guard),
        lock_of(guard) == queue,
{
}

} // verus!
