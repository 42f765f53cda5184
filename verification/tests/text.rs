use dune::datum::Datum;
use dune::interface::{hex_byte, mac_from_text, mac_to_text, Addr, IpNet};
use dune::link::LinksDefaults;
use dune::interface::Interface;
use dune::merge::expand;
use dune::strmap::StrMap;
use dune::text::{chars_of, decimal, hex_digit, key_order, parse_decimal, str_eq, KeyOrder};

#[test]
fn numbers_are_written_in_base_ten() {
    assert_eq!(decimal(0), "0");
    assert_eq!(decimal(7), "7");
    assert_eq!(decimal(10), "10");
    assert_eq!(decimal(1500), "1500");
    assert_eq!(decimal(u64::MAX), "18446744073709551615");
}

#[test]
fn numbers_are_read_in_base_ten() {
    let read = |s: &str, from: usize| parse_decimal(&s.chars().collect(), from);
    assert_eq!(read("42", 0), Some(42));
    assert_eq!(read("core_007", 5), Some(7));
    assert_eq!(read("", 0), None);
    assert_eq!(read("abc", 3), None);
    assert_eq!(read("+1", 0), None);
    assert_eq!(read("1 ", 0), None);
    assert_eq!(read("12a", 0), None);
    assert_eq!(read("18446744073709551615", 0), Some(u64::MAX));
    assert_eq!(read("18446744073709551616", 0), None);
    assert_eq!(read("99999999999999999999999", 0), None);
    assert_eq!(read("٣", 0), None);
}

#[test]
fn bytes_are_written_in_base_sixteen() {
    assert_eq!(hex_digit(0), "0");
    assert_eq!(hex_digit(11), "b");
    assert_eq!(hex_byte(0), "0");
    assert_eq!(hex_byte(9), "9");
    assert_eq!(hex_byte(0x0f), "f");
    assert_eq!(hex_byte(0x10), "10");
    assert_eq!(hex_byte(0xff), "ff");
    assert_eq!(mac_to_text(&vec![]), "");
    assert_eq!(mac_to_text(&vec![0]), "0");
    assert_eq!(mac_to_text(&vec![0xde, 0x0a, 0x00, 0xff]), "de:a:0:ff");
    assert_eq!(mac_from_text("de:0a:00:ff"), vec![0xde, 0x0a, 0x00, 0xff]);
    assert_eq!(mac_from_text(""), Vec::<u8>::new());
}

#[test]
fn keys_are_ordered_by_their_characters() {
    assert_eq!(key_order("a", "b"), KeyOrder::Before);
    assert_eq!(key_order("b", "a"), KeyOrder::After);
    assert_eq!(key_order("a", "a"), KeyOrder::Same);
    assert_eq!(key_order("", ""), KeyOrder::Same);
    assert_eq!(key_order("", "a"), KeyOrder::Before);
    assert_eq!(key_order("core_1", "core_10"), KeyOrder::Before);
    assert_eq!(key_order("core_10", "core_2"), KeyOrder::Before);
    assert_eq!(key_order("é", "z"), KeyOrder::After);
    assert_eq!(key_order("Z", "a"), KeyOrder::Before);
    assert!(str_eq("héllo", "héllo"));
    assert!(!str_eq("hello", "hellp"));
    assert_eq!(chars_of("aé"), vec!['a', 'é']);
}

#[test]
fn a_map_keeps_its_keys_sorted_and_once() {
    let mut m = StrMap::new();
    assert_eq!(m.len(), 0);
    assert_eq!(m.insert("b".to_string(), 2), None);
    assert_eq!(m.insert("a".to_string(), 1), None);
    assert_eq!(m.insert("c".to_string(), 3), None);
    assert_eq!(m.insert("b".to_string(), 20), Some(2));
    assert_eq!(m.len(), 3);
    let keys: Vec<&str> = (0..m.len()).map(|i| m.key_at(i).as_str()).collect();
    assert_eq!(keys, vec!["a", "b", "c"]);
    assert_eq!((*m.value_at(0), *m.value_at(1), *m.value_at(2)), (1, 20, 3));
    assert_eq!(m.get("b"), Some(&20));
    assert_eq!(m.get("d"), None);
    assert!(m.contains_key("c"));
    assert!(!m.contains_key(""));
    assert_eq!(m.locate("b"), (1, true));
    assert_eq!(m.locate("bb"), (2, false));
    assert_eq!(m.locate("z"), (3, false));
    assert_eq!(m.swap_value_at(2, 30), 3);
    assert_eq!(m.get("c"), Some(&30));
    m.push_last("d".to_string(), 4);
    assert_eq!(m.len(), 4);
    let copy = m.clone();
    assert_eq!(copy, m);
}

#[test]
fn maps_merge_key_by_key_and_lists_are_joined() {
    let mut base = StrMap::new();
    base.insert("a".to_string(), "1".to_string());
    base.insert("b".to_string(), "2".to_string());
    let mut top = StrMap::new();
    top.insert("b".to_string(), "3".to_string());
    top.insert("c".to_string(), "4".to_string());
    let mut node = Some(base.clone());
    expand(&mut node, &Some(top.clone()));
    let merged = node.clone().unwrap();
    assert_eq!(merged.len(), 3);
    assert_eq!(
        (merged.get("a").unwrap().as_str(), merged.get("b").unwrap().as_str(), merged.get("c").unwrap().as_str()),
        ("1", "3", "4")
    );
    // once more changes nothing
    expand(&mut node, &Some(top.clone()));
    assert_eq!(node, Some(merged.clone()));
    let mut again = Some(base.clone());
    expand(&mut again, &Some(merged.clone()));
    assert_eq!(again, Some(merged));
    let mut none: Option<StrMap<String>> = None;
    expand(&mut none, &None);
    assert_eq!(none, None);
    expand(&mut none, &Some(top.clone()));
    assert_eq!(none, Some(top));
    let mut kept = Some(base.clone());
    expand(&mut kept, &None);
    assert_eq!(kept, Some(base));

    let mut list = Some(vec!["x".to_string()]);
    expand(&mut list, &Some(vec!["y".to_string(), "x".to_string()]));
    assert_eq!(list, Some(vec!["x".to_string(), "y".to_string(), "x".to_string()]));
    let mut empty: Option<Vec<String>> = None;
    expand(&mut empty, &Some(vec![]));
    assert_eq!(empty, Some(vec![]));
}

#[test]
fn an_interface_starts_from_the_defaults_of_links() {
    let d = LinksDefaults {
        latency: Some("1ms".to_string()),
        metric: Some(5),
        mtu: Some(1400),
        bw: Some("1g".to_string()),
        _additional_fields: None,
    };
    let i = Interface::from(&d);
    assert_eq!(i.latency.as_deref(), Some("1ms"));
    assert_eq!(i.bandwidth.as_deref(), Some("1g"));
    assert_eq!((i.metric, i.mtu), (Some(5), Some(1400)));
    assert_eq!((i.name.as_str(), i.idx, i.ifindex), ("", 0, 0));
    assert!(i.peer.is_none() && i.mac.is_none() && i.addrs.is_none());
    let blank = Interface::from_defaults(&None);
    assert_eq!((blank.latency, blank.mtu), (None, None));
}

#[test]
fn an_address_is_shown_in_two_parts() {
    let net = IpNet { addr: "192.168.1.9".to_string(), plen: 8 };
    assert_eq!(net.to_text(), "192.168.1.9/8");
    assert_eq!(Addr::from(&net), Addr { prefix: "192.168.1.9".to_string(), plen: 8 });
    let net = IpNet { addr: "::1".to_string(), plen: 128 };
    assert_eq!(net.to_text(), "::1/128");
}

#[test]
fn data_is_read_by_kind() {
    let t = Datum::Text("x".to_string());
    assert_eq!(t.as_str(), Some(&"x".to_string()));
    assert_eq!(t.as_integer(), None);
    assert!(t.as_table().is_none());
    assert_eq!(Datum::Int(-3).as_integer(), Some(-3));
    assert_eq!(Datum::Uint(3).as_integer(), None);
    let table = Datum::Table(vec![("k".to_string(), Datum::Bool(true))]);
    assert_eq!(table.as_table().unwrap().len(), 1);
    let nested = Datum::List(vec![table.clone(), Datum::Null, Datum::Other("1.5".to_string())]);
    assert_eq!(nested.duplicate(), nested);
    assert_eq!(nested.clone(), nested);
}
