use qtun::packet::Ipv4Address;
use qtun::socks5::{
    auth_method_reply, auth_status_reply, authenticate_userpass, build_reply, method_supported,
    no_acceptable_reply, parse_addr_spec, parse_methods, parse_userpass, AddrSpec, AuthError,
    Authenticator, CredentialStore, IpAddress, PermitAll, Request, RequestError, RuleSet,
    StaticCredentials,
};

#[test]
fn test_parse_methods() {
    let (methods, used) = parse_methods(&[2, 0, 2]).unwrap();
    assert_eq!(methods, vec![0, 2]);
    assert_eq!(used, 3);
    assert_eq!(parse_methods(&[3, 0]).unwrap_err(), AuthError::Io);
}

#[test]
fn test_parse_userpass() {
    // version 1, user "ab", password "xyz"
    let buf = [1u8, 2, b'a', b'b', 3, b'x', b'y', b'z'];
    let (user, pass, used) = parse_userpass(&buf).unwrap();
    assert_eq!(user, "ab");
    assert_eq!(pass, "xyz");
    assert_eq!(used, 8);
}

#[test]
fn test_parse_userpass_bad_version() {
    let buf = [7u8, 1, b'a', 1, b'b'];
    assert_eq!(
        parse_userpass(&buf).unwrap_err(),
        AuthError::UnsupportedVersion(7)
    );
}

#[test]
fn test_static_credentials() {
    let mut creds = StaticCredentials::new();
    creds.add(String::from("user"), String::from("pass"));
    assert!(creds.valid("user", "pass"));
    assert!(!creds.valid("user", "wrong"));
    assert!(!creds.valid("nobody", "pass"));
    creds.add(String::from("user"), String::from("newpass"));
    assert!(creds.valid("user", "newpass"));
    assert!(!creds.valid("user", "pass"));
}

#[test]
fn test_authenticator_codes() {
    assert_eq!(Authenticator::NoAuth.get_code(), 0);
    assert_eq!(
        Authenticator::UserPass(StaticCredentials::new()).get_code(),
        2
    );
}

#[test]
fn test_auth_replies() {
    assert_eq!(auth_method_reply(0), vec![5, 0]);
    assert_eq!(no_acceptable_reply(), vec![5, 255]);
    assert_eq!(auth_status_reply(true), vec![1, 0]);
    assert_eq!(auth_status_reply(false), vec![1, 1]);
}

#[test]
fn test_parse_addr_spec_v4() {
    let buf = [1u8, 10, 0, 0, 1, 0x1f, 0x90];
    let (spec, used) = parse_addr_spec(&buf).unwrap();
    assert_eq!(used, 7);
    assert_eq!(spec.ip, Some(IpAddress::V4(Ipv4Address::new(10, 0, 0, 1))));
    assert_eq!(spec.port, 8080);
    assert!(spec.fqdn.is_none());
}

#[test]
fn test_parse_addr_spec_fqdn() {
    let buf = [3u8, 4, b'h', b'o', b's', b't', 0, 80];
    let (spec, used) = parse_addr_spec(&buf).unwrap();
    assert_eq!(used, 8);
    assert_eq!(spec.fqdn.as_deref(), Some("host"));
    assert_eq!(spec.port, 80);
}

#[test]
fn test_parse_addr_spec_v6() {
    let mut buf = vec![4u8];
    buf.extend_from_slice(&[0u8; 15]);
    buf.push(1);
    buf.push(0);
    buf.push(53);
    let (spec, used) = parse_addr_spec(&buf).unwrap();
    assert_eq!(used, 19);
    let mut expected = [0u8; 16];
    expected[15] = 1;
    assert_eq!(spec.ip, Some(IpAddress::V6(expected)));
    assert_eq!(spec.port, 53);
}

#[test]
fn test_parse_addr_spec_bad_type() {
    assert_eq!(
        parse_addr_spec(&[9u8, 0, 0]).unwrap_err(),
        RequestError::UnrecognizedAddrType
    );
}

#[test]
fn test_parse_request() {
    let buf = [5u8, 1, 0, 1, 127, 0, 0, 1, 0, 80];
    let (req, used) = Request::new(&buf).unwrap();
    assert_eq!(used, 10);
    assert_eq!(req.version, 5);
    assert_eq!(req.command, 1);
    assert_eq!(
        req.dest_addr.ip,
        Some(IpAddress::V4(Ipv4Address::new(127, 0, 0, 1)))
    );
    assert_eq!(req.dest_addr.port, 80);
}

#[test]
fn test_parse_request_bad_version() {
    let buf = [4u8, 1, 0, 1, 127, 0, 0, 1, 0, 80];
    assert_eq!(
        Request::new(&buf).unwrap_err(),
        RequestError::UnsupportedVersion(4)
    );
}

#[test]
fn test_permit_all() {
    let buf = [5u8, 1, 0, 1, 127, 0, 0, 1, 0, 80];
    let (req, _) = Request::new(&buf).unwrap();
    assert!(PermitAll.allow(&req));
}

#[test]
fn test_build_reply_none() {
    assert_eq!(build_reply(0, None), vec![5, 0, 0, 1, 0, 0, 0, 0, 0, 0]);
}

#[test]
fn test_build_reply_v4() {
    let spec = AddrSpec {
        fqdn: None,
        ip: Some(IpAddress::V4(Ipv4Address::new(127, 0, 0, 1))),
        port: 8080,
    };
    assert_eq!(
        build_reply(0, Some(&spec)),
        vec![5, 0, 0, 1, 127, 0, 0, 1, 0x1f, 0x90]
    );
}

#[test]
fn test_build_reply_fqdn() {
    let spec = AddrSpec {
        fqdn: Some(String::from("ab")),
        ip: None,
        port: 1,
    };
    assert_eq!(
        build_reply(7, Some(&spec)),
        vec![5, 7, 0, 3, 2, b'a', b'b', 0, 1]
    );
}

#[test]
fn test_addr_spec_address() {
    let v4 = AddrSpec {
        fqdn: None,
        ip: Some(IpAddress::V4(Ipv4Address::new(10, 0, 0, 1))),
        port: 8080,
    };
    assert_eq!(v4.address(), "10.0.0.1:8080");

    let name = AddrSpec { fqdn: Some(String::from("host")), ip: None, port: 80 };
    assert_eq!(name.address(), "host:80");

    let nothing = AddrSpec { fqdn: None, ip: None, port: 7 };
    assert_eq!(nothing.address(), "0.0.0.0:7");

    let mut oc = [0u8; 16];
    oc[15] = 1;
    let v6 = AddrSpec { fqdn: None, ip: Some(IpAddress::V6(oc)), port: 53 };
    assert_eq!(v6.address(), "0000:0000:0000:0000:0000:0000:0000:0001:53");
}

#[test]
fn test_method_supported() {
    assert!(method_supported(&[2, 0], 0));
    assert!(!method_supported(&[2, 1], 0));
    assert!(!method_supported(&[], 0));
}

#[test]
fn test_authenticate_userpass() {
    let mut creds = StaticCredentials::new();
    creds.add(String::from("ab"), String::from("xyz"));
    let msg = [1u8, 2, b'a', b'b', 3, b'x', b'y', b'z'];
    let outcome = authenticate_userpass(&creds, &msg).unwrap();
    assert_eq!(outcome.reply, vec![1, 0]);
    assert_eq!(outcome.consumed, 8);
    let ctx = outcome.context.unwrap();
    assert_eq!(ctx.method, 2);
    assert_eq!(ctx.payload.get("Username").map(String::as_str), Some("ab"));

    let wrong = [1u8, 2, b'a', b'b', 3, b'x', b'y', b'q'];
    let outcome = authenticate_userpass(&creds, &wrong).unwrap();
    assert_eq!(outcome.reply, vec![1, 1]);
    assert!(outcome.context.is_none());

    let bad = [9u8, 2, b'a', b'b', 3, b'x', b'y', b'z'];
    assert_eq!(
        authenticate_userpass(&creds, &bad).unwrap_err(),
        AuthError::UnsupportedVersion(9)
    );
}
