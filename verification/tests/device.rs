use aivpn_client::device::{
    fill_frame, queue_frame, receive_from, take_ipv4_packet, Checksum, Medium, VpnDevice,
};
use smoltcp::time::Instant;
use std::collections::VecDeque;
use std::sync::{Arc, Mutex};

#[test]
fn receive_skips_ipv6_and_empty_keeps_ipv4() {
    let rx = Arc::new(Mutex::new(VecDeque::from([
        vec![0x60, 0, 0, 0, 0],
        vec![],
        vec![0x45, 0, 0, 20],
    ])));
    let tx = Arc::new(Mutex::new(VecDeque::new()));
    let mut dev = VpnDevice::new(Arc::clone(&rx), tx, 1280);
    let (tok, _) = dev.receive(Instant::from_millis(0)).expect("ipv4");
    assert_eq!(tok.packet[0], 0x45);
    assert!(rx.lock().unwrap().is_empty());
    assert!(dev.receive(Instant::from_millis(1)).is_none());
}

#[test]
fn ipv4_packets_come_in_order() {
    let mut queue = VecDeque::from([
        vec![0x4f, 1],
        vec![0x60],
        vec![0x3f],
        vec![0x50],
        vec![0x45, 2],
        vec![0x40, 3],
        vec![0x61],
    ]);
    assert_eq!(take_ipv4_packet(&mut queue), Some(vec![0x4f, 1]));
    assert_eq!(queue.len(), 6);
    assert_eq!(take_ipv4_packet(&mut queue), Some(vec![0x45, 2]));
    assert_eq!(queue.len(), 2);
    assert_eq!(take_ipv4_packet(&mut queue), Some(vec![0x40, 3]));
    assert_eq!(take_ipv4_packet(&mut queue), None);
    assert!(queue.is_empty());
}

#[test]
fn received_packet_can_be_answered() {
    let rx = Arc::new(Mutex::new(VecDeque::from([vec![0x45, 7]])));
    let tx = Arc::new(Mutex::new(VecDeque::from([vec![1]])));
    let mut dev = VpnDevice::new(rx, Arc::clone(&tx), 1280);
    let (rx_token, tx_token) = dev.receive(Instant::from_millis(0)).unwrap();
    let second = rx_token.consume(|packet| {
        packet[0] = 0;
        packet[1]
    });
    assert_eq!(second, 7);
    let len = tx_token.consume(3, |frame| {
        assert_eq!(frame, [0, 0, 0]);
        frame[1] = second;
        frame.len()
    });
    assert_eq!(len, 3);
    assert_eq!(*tx.lock().unwrap(), VecDeque::from([vec![1], vec![0, 7, 0]]));
}

#[test]
fn frames_can_always_be_sent() {
    let rx = Arc::new(Mutex::new(VecDeque::new()));
    let tx = Arc::new(Mutex::new(VecDeque::new()));
    let mut dev = VpnDevice::new(rx, Arc::clone(&tx), 1280);
    for i in 0..3u8 {
        let token = dev.transmit(Instant::from_millis(0)).unwrap();
        token.consume(1, |frame| frame[0] = i);
    }
    assert_eq!(*tx.lock().unwrap(), VecDeque::from([vec![0], vec![1], vec![2]]));
}

#[test]
fn frame_is_zeroed_before_it_is_written() {
    let (result, frame) = fill_frame(4, |buf: &mut [u8]| {
        let blank = buf.iter().all(|b| *b == 0);
        buf[3] = 9;
        blank
    });
    assert!(result);
    assert_eq!(frame, vec![0, 0, 0, 9]);
}

#[test]
fn frames_are_queued_behind_others() {
    let mut queue = VecDeque::from([vec![1]]);
    queue_frame(&mut queue, vec![2]);
    assert_eq!(queue, VecDeque::from([vec![1], vec![2]]));
}

#[test]
fn tokens_belong_to_the_device() {
    let tx = Arc::new(Mutex::new(VecDeque::new()));
    let mut queue = VecDeque::from([vec![0x60], vec![0x45]]);
    let (rx_token, tx_token) = receive_from(&mut queue, &tx).unwrap();
    assert_eq!(rx_token.packet, vec![0x45]);
    tx_token.consume(0, |_| ());
    assert_eq!(*tx.lock().unwrap(), VecDeque::from([Vec::<u8>::new()]));
    assert!(receive_from(&mut queue, &tx).is_none());
}

#[test]
fn capabilities_of_the_device() {
    let rx = Arc::new(Mutex::new(VecDeque::new()));
    let tx = Arc::new(Mutex::new(VecDeque::new()));
    let caps = VpnDevice::new(rx, tx, 1280).capabilities();
    let both = Checksum { rx: true, tx: true };
    assert_eq!(caps.medium, Medium::Ip);
    assert_eq!(caps.max_transmission_unit, 1280);
    assert_eq!(caps.max_burst_size, None);
    assert_eq!(caps.checksum.ipv4, both);
    assert_eq!(caps.checksum.udp, both);
    assert_eq!(caps.checksum.tcp, both);
    assert_eq!(caps.checksum.icmpv4, both);
}

#[test]
fn frame_goes_behind_what_waits() {
    let rx = Arc::new(Mutex::new(VecDeque::new()));
    let tx = Arc::new(Mutex::new(VecDeque::from([vec![1]])));
    let tok = VpnDevice::new(rx, Arc::clone(&tx), 1280).transmit(Instant::from_millis(0)).unwrap();
    let result = tok.consume(3, |b| {
        b[0] = 0x45;
        7
    });
    assert_eq!(result, 7);
    assert_eq!(*tx.lock().unwrap(), VecDeque::from([vec![1], vec![0x45, 0, 0]]));
}

#[test]
fn receiving_leaves_the_other_queue_alone() {
    let rx = Arc::new(Mutex::new(VecDeque::from([vec![0x60], vec![0x45], vec![0x46]])));
    let tx = Arc::new(Mutex::new(VecDeque::from([vec![0x45, 9]])));
    let mut dev = VpnDevice::new(Arc::clone(&rx), Arc::clone(&tx), 1280);
    let (tok, _) = dev.receive(Instant::from_millis(0)).unwrap();
    assert_eq!(tok.packet, vec![0x45]);
    assert_eq!(*rx.lock().unwrap(), VecDeque::from([vec![0x46]]));
    assert_eq!(*tx.lock().unwrap(), VecDeque::from([vec![0x45, 9]]));
}
