use qtun::conn::{
    conn_step, make_ping, pick_conn, strip_cidr, write_step, ClientConn, ConnEvent, ConnPhase,
    ServerConn, WriteAction,
};
use qtun::packet::{Ipv4Address, PacketIP, PacketQueue};

#[test]
fn test_packet_ip() {
    let mut pkt = PacketIP::new(20);
    // Set source IP at offset 12-15
    pkt.as_bytes_mut()[12] = 192;
    pkt.as_bytes_mut()[13] = 168;
    pkt.as_bytes_mut()[14] = 1;
    pkt.as_bytes_mut()[15] = 1;
    // Set dest IP at offset 16-19
    pkt.as_bytes_mut()[16] = 10;
    pkt.as_bytes_mut()[17] = 0;
    pkt.as_bytes_mut()[18] = 0;
    pkt.as_bytes_mut()[19] = 1;

    assert_eq!(pkt.source_ip(), Ipv4Address::new(192, 168, 1, 1));
    assert_eq!(pkt.destination_ip(), Ipv4Address::new(10, 0, 0, 1));
}

#[test]
fn test_packet_resize_truncate() {
    let mut pkt = PacketIP::from_bytes(vec![1, 2, 3, 4, 5]);
    pkt.truncate(3);
    assert_eq!(pkt.as_bytes(), &[1, 2, 3]);
    pkt.resize(5);
    assert_eq!(pkt.as_bytes(), &[1, 2, 3, 0, 0]);
    assert_eq!(pkt.len(), 5);
    assert!(!pkt.is_empty());
}

#[test]
fn test_packet_set_data() {
    let mut pkt = PacketIP::new(4);
    pkt.set_data(&[9, 9]);
    assert_eq!(pkt.as_bytes(), &[9, 9]);
}

#[test]
fn test_short_packet_reads_zero_address() {
    let pkt = PacketIP::new(8);
    assert_eq!(pkt.source_ip(), Ipv4Address::new(0, 0, 0, 0));
    assert_eq!(pkt.destination_ip(), Ipv4Address::new(0, 0, 0, 0));
}

#[test]
fn test_address_string() {
    assert_eq!(Ipv4Address::new(192, 168, 1, 1).address_string(), "192.168.1.1");
    assert_eq!(Ipv4Address::new(0, 0, 0, 0).address_string(), "0.0.0.0");
    assert_eq!(Ipv4Address::new(255, 10, 0, 7).address_string(), "255.10.0.7");
}

#[test]
fn test_packet_queue_fifo() {
    let mut q = PacketQueue::new();
    assert!(q.is_empty());
    q.enqueue(vec![1]);
    q.enqueue(vec![2]);
    assert_eq!(q.len(), 2);
    assert_eq!(q.dequeue(), Some(vec![1]));
    assert_eq!(q.dequeue(), Some(vec![2]));
    assert_eq!(q.dequeue(), None);
}

#[test]
fn test_load_balancing_across_conns() {
    // with three transport threads, 300 packets spread evenly: each
    // connection carries a share within [90, 110]
    let threads = 3usize;
    let conns_len = 3usize;
    let mut counts = [0usize; 3];
    for serial in 0..300i64 {
        let idx = pick_conn(serial, threads, conns_len).expect("healthy pool never drops");
        counts[idx] += 1;
    }
    for c in counts {
        assert!((90..=110).contains(&c));
    }
}

#[test]
fn test_pick_conn_single_thread() {
    assert_eq!(pick_conn(41, 1, 1), Some(0));
    assert_eq!(pick_conn(0, 1, 0), None);
}

#[test]
fn test_pick_conn_partial_pool() {
    // a slot that never connected drops the packet
    assert_eq!(pick_conn(2, 3, 2), None);
    assert_eq!(pick_conn(1, 3, 2), Some(1));
}

#[test]
fn test_conn_lifecycle() {
    let p = ConnPhase::Created;
    let p = conn_step(p, ConnEvent::Opened);
    assert_eq!(p, ConnPhase::Connected);
    assert_eq!(write_step(p), WriteAction::Forward);
    let p = conn_step(p, ConnEvent::ReadEof);
    assert_eq!(p, ConnPhase::Closing);
    assert_eq!(write_step(p), WriteAction::Stop);
    let p = conn_step(p, ConnEvent::TasksDone);
    assert_eq!(p, ConnPhase::Closed);
    // closed is terminal
    assert_eq!(conn_step(p, ConnEvent::Opened), ConnPhase::Closed);
}

#[test]
fn test_client_conn_state() {
    let mut c = ClientConn::new(String::from("2.2.2.2:8080"), String::from("k"), 1);
    assert!(!c.is_connected());
    c.set_connected(true);
    assert!(c.is_connected());
    assert_eq!(c.get_conn_port(), "");
    c.set_conn_port(String::from("9000"));
    assert_eq!(c.get_conn_port(), "9000");
}

#[test]
fn test_server_conn_closed_never_clears() {
    let mut s = ServerConn::new(String::from("hello-world"));
    assert!(!s.is_closed());
    assert!(s.cipher.is_some());
    s.set_closed(true);
    s.set_closed(false);
    assert!(s.is_closed());
}

#[test]
fn test_server_conn_empty_key_disables_cipher() {
    let s = ServerConn::new(String::new());
    assert!(s.cipher.is_none());
}

#[test]
fn test_strip_cidr() {
    assert_eq!(strip_cidr(&String::from("10.237.0.1/16")), "10.237.0.1");
    assert_eq!(strip_cidr(&String::from("10.237.0.1")), "10.237.0.1");
    assert_eq!(strip_cidr(&String::from("/16")), "");
}

#[test]
fn test_make_ping() {
    let ping = make_ping(12345, &String::from("10.237.0.1/16"), &String::from("0"));
    assert_eq!(ping.timestamp, 12345);
    assert_eq!(ping.ip, "10.237.0.1");
    assert_eq!(ping.local_addr, "10.237.0.1:0");
    assert_eq!(ping.local_private_addr, "not_use");
    assert_eq!(ping.dc, "client");
}
