use qtun::protocol::{Envelope, MessagePacket, MessagePing, Type};
use qtun::route::{
    client_on_envelope, dispatch, reap, server_on_envelope, ConnTable, DispatchAction,
    RouteTable, ServerEnvelopeAction,
};

#[test]
fn test_ping_registers_route() {
    // a ping for 10.237.0.5 announced from 1.2.3.4:9000 makes the route
    // visible at once
    let mut routes = RouteTable::new();
    let mut conns = ConnTable::new();
    conns.set_conn(String::from("1.2.3.4:9000"), 1);
    routes.insert_route(String::from("10.237.0.5"), String::from("1.2.3.4:9000"));

    let got = routes.lookup(&String::from("10.237.0.5")).unwrap();
    assert_eq!(got, vec![String::from("1.2.3.4:9000")]);
    let conn = conns.get_conn_by_addr(&String::from("1.2.3.4:9000")).unwrap();
    assert_eq!(conn, (1, false));
}

#[test]
fn test_insert_route_no_duplicates() {
    let mut routes = RouteTable::new();
    routes.insert_route(String::from("10.0.0.1"), String::from("a"));
    routes.insert_route(String::from("10.0.0.1"), String::from("a"));
    routes.insert_route(String::from("10.0.0.1"), String::from("b"));
    let got = routes.lookup(&String::from("10.0.0.1")).unwrap();
    assert_eq!(got, vec![String::from("a"), String::from("b")]);
}

#[test]
fn test_set_conn_keeps_live_registrant() {
    let mut conns = ConnTable::new();
    conns.set_conn(String::from("addr"), 1);
    conns.set_conn(String::from("addr"), 2);
    assert_eq!(conns.get_conn_by_addr(&String::from("addr")), Some((1, false)));
}

#[test]
fn test_set_conn_replaces_closed_registrant() {
    let mut conns = ConnTable::new();
    conns.set_conn(String::from("addr"), 1);
    conns.mark_closed(1);
    conns.set_conn(String::from("addr"), 2);
    assert_eq!(conns.get_conn_by_addr(&String::from("addr")), Some((2, false)));
}

#[test]
fn test_reaper_eviction() {
    // mark a connection closed: after one reaper pass its entry is gone
    // from the route table and from the registry
    let mut routes = RouteTable::new();
    let mut conns = ConnTable::new();
    conns.set_conn(String::from("1.2.3.4:9000"), 1);
    conns.set_conn(String::from("5.6.7.8:9000"), 2);
    routes.insert_route(String::from("10.237.0.5"), String::from("1.2.3.4:9000"));
    routes.insert_route(String::from("10.237.0.5"), String::from("5.6.7.8:9000"));

    conns.mark_closed(1);
    reap(&mut routes, &mut conns);

    let got = routes.lookup(&String::from("10.237.0.5")).unwrap();
    assert_eq!(got, vec![String::from("5.6.7.8:9000")]);
    assert_eq!(conns.get_conn_by_addr(&String::from("1.2.3.4:9000")), None);
    assert_eq!(
        conns.get_conn_by_addr(&String::from("5.6.7.8:9000")),
        Some((2, false))
    );
}

#[test]
fn test_reaper_removes_dangling_routes() {
    // a route whose connection was never registered is swept away
    let mut routes = RouteTable::new();
    let mut conns = ConnTable::new();
    routes.insert_route(String::from("10.237.0.9"), String::from("nowhere"));
    reap(&mut routes, &mut conns);
    let got = routes.lookup(&String::from("10.237.0.9")).unwrap();
    assert!(got.is_empty());
}

#[test]
fn test_reaper_leaves_no_closed_reference() {
    // after a pass, every connection the table still references is live
    let mut routes = RouteTable::new();
    let mut conns = ConnTable::new();
    for i in 0..6u64 {
        let addr = format!("addr-{}", i);
        conns.set_conn(addr.clone(), i);
        routes.insert_route(format!("10.0.0.{}", i % 3), addr);
    }
    conns.mark_closed(0);
    conns.mark_closed(3);
    conns.mark_closed(4);
    reap(&mut routes, &mut conns);
    for i in 0..3u64 {
        let entry = routes.lookup(&format!("10.0.0.{}", i)).unwrap();
        for addr in entry {
            let (_, closed) = conns.get_conn_by_addr(&addr).expect("referenced conn exists");
            assert!(!closed);
        }
    }
}

#[test]
fn test_dispatch_no_route() {
    let mut routes = RouteTable::new();
    let mut conns = ConnTable::new();
    let r = dispatch(&mut routes, &mut conns, &String::from("10.9.9.9"));
    assert_eq!(r, DispatchAction::NoRoute);
}

#[test]
fn test_dispatch_empty_route() {
    let mut routes = RouteTable::new();
    let mut conns = ConnTable::new();
    routes.insert_route(String::from("10.0.0.1"), String::from("a"));
    routes.remove_route(&String::from("10.0.0.1"), &String::from("a"));
    let r = dispatch(&mut routes, &mut conns, &String::from("10.0.0.1"));
    assert_eq!(r, DispatchAction::EmptyRoute);
}

#[test]
fn test_dispatch_healthy_send() {
    let mut routes = RouteTable::new();
    let mut conns = ConnTable::new();
    conns.set_conn(String::from("a"), 7);
    routes.insert_route(String::from("10.0.0.1"), String::from("a"));
    let r = dispatch(&mut routes, &mut conns, &String::from("10.0.0.1"));
    assert_eq!(r, DispatchAction::Send(String::from("a"), 7));
}

#[test]
fn test_dispatch_evicts_closed() {
    let mut routes = RouteTable::new();
    let mut conns = ConnTable::new();
    conns.set_conn(String::from("a"), 7);
    conns.mark_closed(7);
    routes.insert_route(String::from("10.0.0.1"), String::from("a"));
    let r = dispatch(&mut routes, &mut conns, &String::from("10.0.0.1"));
    assert_eq!(r, DispatchAction::Evicted(String::from("a")));
    assert!(routes.lookup(&String::from("10.0.0.1")).unwrap().is_empty());
    assert_eq!(conns.get_conn_by_addr(&String::from("a")), None);
}

#[test]
fn test_server_on_envelope_ping() {
    let mut routes = RouteTable::new();
    let mut conns = ConnTable::new();
    let env = Envelope {
        kind: Some(Type::Ping(MessagePing {
            timestamp: 1,
            local_addr: String::from("1.2.3.4:9000"),
            local_private_addr: String::from("not_use"),
            ip: String::from("10.237.0.5"),
            dc: String::from("client"),
        })),
    };
    let action = server_on_envelope(&mut routes, &mut conns, env, 42);
    assert_eq!(action, ServerEnvelopeAction::RoutedPing);
    let got = routes.lookup(&String::from("10.237.0.5")).unwrap();
    assert_eq!(got, vec![String::from("1.2.3.4:9000")]);
    assert_eq!(
        conns.get_conn_by_addr(&String::from("1.2.3.4:9000")),
        Some((42, false))
    );
}

#[test]
fn test_server_on_envelope_packet() {
    let mut routes = RouteTable::new();
    let mut conns = ConnTable::new();
    let env = Envelope {
        kind: Some(Type::Packet(MessagePacket { payload: vec![1, 2, 3] })),
    };
    let action = server_on_envelope(&mut routes, &mut conns, env, 1);
    assert_eq!(action, ServerEnvelopeAction::WriteTun(vec![1, 2, 3]));
}

#[test]
fn test_client_on_envelope() {
    let env = Envelope {
        kind: Some(Type::Packet(MessagePacket { payload: vec![9, 9] })),
    };
    assert_eq!(client_on_envelope(env), Some(vec![9, 9]));
    assert_eq!(client_on_envelope(Envelope { kind: None }), None);
}
