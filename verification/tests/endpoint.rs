use dune::endpoint::Endpoint;

#[test]
fn endpoint_parses_node_and_interface() {
    let e = Endpoint::try_from("r0:eth0").unwrap();
    assert_eq!(e.node, "r0");
    assert_eq!(e.interface, "eth0");
}

#[test]
fn endpoint_without_colon_is_rejected() {
    assert!(Endpoint::try_from("bad").is_err());
}

#[test]
fn endpoint_with_two_colons_is_rejected() {
    assert!(Endpoint::try_from("a:b:c").is_err());
}

#[test]
fn endpoint_round_trip() {
    let e = Endpoint { node: "r12".to_string(), interface: "eth3".to_string() };
    let text = e.to_text();
    assert_eq!(text, "r12:eth3");
    let back = Endpoint::try_from(text.as_str()).unwrap();
    assert_eq!(back.node, e.node);
    assert_eq!(back.interface, e.interface);
}

#[test]
fn endpoint_names_may_be_empty() {
    let e = Endpoint::try_from(":").unwrap();
    assert_eq!(e.node, "");
    assert_eq!(e.interface, "");
    let e = Endpoint::try_from("a:").unwrap();
    assert_eq!(e.node, "a");
    assert_eq!(e.interface, "");
}
