use dune::datum::Datum;
use dune::file::{DuneFile, WriteAction, WriteEvent, WritePhase};
use dune::interface::{Interface, IpNet};
use dune::materialize::file_from;
use dune::node::Node;
use dune::pinned::Pinned;
use dune::strmap::StrMap;

fn file(src: &str, dst: &str, content: Option<&str>) -> DuneFile {
    DuneFile {
        src: src.to_string(),
        dst: dst.to_string(),
        content: content.map(|c| c.as_bytes().to_vec()),
        executable: false,
    }
}

fn field<'a>(table: &'a Datum, name: &str) -> &'a Datum {
    match table {
        Datum::Table(fields) => &fields.iter().find(|(k, _)| k == name).unwrap().1,
        other => panic!("not a table: {:?}", other),
    }
}

fn router() -> Node {
    let mut interfaces = StrMap::new();
    let mut eth0 = Interface::default();
    eth0.name = "eth0".to_string();
    eth0.mac = Some(vec![0x02, 0x00, 0xab, 0x10]);
    eth0.addrs = Some(vec![IpNet { addr: "10.0.0.1".to_string(), plen: 24 }]);
    eth0.mtu = Some(1500);
    eth0.ifindex = 2;
    interfaces.insert("eth0".to_string(), eth0);
    let mut templates = StrMap::new();
    templates.insert("frr.conf.j2".to_string(), "/etc/{{ node }}/frr.conf".to_string());
    templates.insert("missing.j2".to_string(), "/etc/{{ node }}/missing".to_string());
    templates.insert("broken.j2".to_string(), "/etc/{{ node }}/broken".to_string());
    templates.insert("nowhere.j2".to_string(), "/etc/{{ node".to_string());
    let mut extra = StrMap::new();
    extra.insert("asn".to_string(), Datum::Int(65001));
    Node {
        name: Some("r0".to_string()),
        interfaces: Some(interfaces),
        templates: Some(templates),
        binds: Some(vec![file("/srv/{{ node }}.key", "/etc/key", None), file("/srv/{{ oops", "/etc/x", None)]),
        pinned: Some(vec![Pinned::new(
            "bird -c /etc/{{ node }}.conf -p {{ ctx.asn }}".to_string(),
            None,
            None,
            Some(vec!["echo {{ node }}".to_string(), "echo {{ broken".to_string()]),
            Some(vec!["ip -n {{ node }} l".to_string()]),
        )]),
        _additional_fields: Some(extra),
        ..Node::default()
    }
}

#[test]
fn a_file_is_made_from_its_source_and_destination() {
    let f = DuneFile::from(("a".to_string(), "b".to_string()));
    assert_eq!(f, DuneFile { src: "a".to_string(), dst: "b".to_string(), content: None, executable: false });
}

#[test]
fn a_file_keeps_what_it_holds_when_reading_fails() {
    let mut f = file("a", "b", None);
    f.load(None);
    assert_eq!(f.content, None);
    f.load(Some(vec![1, 2, 3]));
    assert_eq!(f.content, Some(vec![1, 2, 3]));
    f.load(None);
    assert_eq!(f.content, Some(vec![1, 2, 3]));
    f.load(Some(vec![]));
    assert_eq!(f.content, Some(vec![]));
    assert_eq!((f.src.as_str(), f.dst.as_str(), f.executable), ("a", "b", false));
}

#[test]
fn a_file_is_written_in_one_go_when_nothing_fails() {
    let f = file("a", "b", Some("x"));
    let (phase, action) = f.write_step(WritePhase::Begin, WriteEvent::Done);
    assert_eq!((phase, action), (WritePhase::Writing { retried: false }, WriteAction::Create));
    assert_eq!(f.write_step(phase, WriteEvent::Done), (WritePhase::Finished, WriteAction::Stop));
    let mut exe = f.clone();
    exe.executable = true;
    let (phase, action) = exe.write_step(phase, WriteEvent::Done);
    assert_eq!((phase, action), (WritePhase::Marking, WriteAction::MarkExecutable));
    assert_eq!(exe.write_step(phase, WriteEvent::Failed), (WritePhase::Finished, WriteAction::Stop));
}

#[test]
fn a_missing_directory_is_made_once_and_the_file_tried_once_more() {
    let f = file("a", "/x/y/b", Some("x"));
    let first = WritePhase::Writing { retried: false };
    let (phase, action) = f.write_step(first, WriteEvent::NotFound);
    assert_eq!((phase, action), (WritePhase::MakingParent, WriteAction::MakeParent));
    let (phase, action) = f.write_step(phase, WriteEvent::Done);
    assert_eq!((phase, action), (WritePhase::Writing { retried: true }, WriteAction::Create));
    assert_eq!(f.write_step(phase, WriteEvent::NotFound), (WritePhase::Finished, WriteAction::Stop));
    assert_eq!(f.write_step(phase, WriteEvent::Done), (WritePhase::Finished, WriteAction::Stop));
    // a directory that is there, or cannot be made, ends the writing
    assert_eq!(
        f.write_step(WritePhase::MakingParent, WriteEvent::ParentPresent),
        (WritePhase::Finished, WriteAction::Stop)
    );
    assert_eq!(
        f.write_step(WritePhase::MakingParent, WriteEvent::Failed),
        (WritePhase::Finished, WriteAction::Stop)
    );
    assert_eq!(f.write_step(first, WriteEvent::Failed), (WritePhase::Finished, WriteAction::Stop));
    assert_eq!(
        f.write_step(WritePhase::Finished, WriteEvent::Done),
        (WritePhase::Finished, WriteAction::Stop)
    );
}

#[test]
fn a_process_is_rendered_hook_by_hook() {
    let mut p = Pinned::new(
        "serve --on {{ node }}".to_string(),
        None,
        Some("stop {{ node }}".to_string()),
        Some(vec!["a {{ node }}".to_string(), "{% if %}".to_string(), "b".to_string()]),
        None,
    );
    let context = Datum::Table(vec![("node".to_string(), Datum::Text("r7".to_string()))]);
    p.expand(&context);
    assert_eq!(p.cmd, "serve --on r7");
    assert_eq!(p.pre_down, Some(vec!["a r7".to_string(), "b".to_string()]));
    assert_eq!(p.post_up, None);
    assert_eq!(p.down.as_deref(), Some("stop {{ node }}"));
    let mut broken = Pinned::new("serve {{ node".to_string(), None, None, None, Some(vec![]));
    broken.expand(&context);
    assert_eq!(broken.cmd, "serve {{ node");
    assert_eq!(broken.post_up, Some(vec![]));
}

#[test]
fn a_node_shows_templates_its_name_interfaces_and_fields() {
    let node = router();
    let context = node.context();
    assert_eq!(field(&context, "node"), &Datum::Text("r0".to_string()));
    assert_eq!(field(field(&context, "ctx"), "asn"), &Datum::Int(65001));
    let eth0 = field(field(&context, "ifaces"), "eth0");
    assert_eq!(field(eth0, "name"), &Datum::Text("eth0".to_string()));
    assert_eq!(field(eth0, "mtu"), &Datum::Uint(1500));
    assert_eq!(field(eth0, "latency"), &Datum::Null);
    assert_eq!(field(eth0, "peer"), &Datum::Null);
    assert_eq!(field(eth0, "ifindex"), &Datum::Uint(2));
    assert_eq!(
        field(eth0, "mac"),
        &Datum::List(vec![Datum::Uint(2), Datum::Uint(0), Datum::Uint(0xab), Datum::Uint(0x10)])
    );
    assert_eq!(field(eth0, "addrs"), &Datum::List(vec![Datum::Text("10.0.0.1/24".to_string())]));
    assert_eq!(field(eth0, "ctx_addrs"), &Datum::Null);
    assert_eq!(field(eth0, "ctx_mac"), &Datum::Null);
    let bare = Node::default().context();
    assert_eq!(field(&bare, "node"), &Datum::Null);
    assert_eq!(field(&bare, "ifaces"), &Datum::Table(vec![]));
    assert_eq!(field(&bare, "ctx"), &Datum::Null);
}

#[test]
fn configuring_renders_and_asks_for_what_is_to_be_fetched() {
    let mut node = router();
    let request = node.configure();
    assert_eq!(request.sources, vec!["/srv/r0.key".to_string(), "/srv/{{ oops".to_string()]);
    assert_eq!(
        request.templates,
        vec![
            "broken.j2".to_string(),
            "frr.conf.j2".to_string(),
            "missing.j2".to_string(),
            "nowhere.j2".to_string(),
        ]
    );
    let p = &node.pinned.as_ref().unwrap()[0];
    assert_eq!(p.cmd, "bird -c /etc/r0.conf -p 65001");
    assert_eq!(p.pre_down, Some(vec!["echo r0".to_string()]));
    assert_eq!(p.post_up, Some(vec!["ip -n r0 l".to_string()]));
    // templates see the addresses in two parts and the hardware address as text
    let eth0 = field(field(&request.context, "ifaces"), "eth0");
    assert_eq!(field(eth0, "ctx_mac"), &Datum::Text("2:0:ab:10".to_string()));
    assert_eq!(
        field(eth0, "ctx_addrs"),
        &Datum::List(vec![Datum::Table(vec![
            ("prefix".to_string(), Datum::Text("10.0.0.1".to_string())),
            ("plen".to_string(), Datum::Uint(24)),
        ])])
    );
    // the node itself is augmented only once it is loaded
    let own = node.interfaces.as_ref().unwrap().get("eth0").unwrap();
    assert_eq!(own.ctx_mac, None);
}

#[test]
fn loading_takes_in_files_and_rendered_templates() {
    let mut node = router();
    node.configure();
    let mut reads = StrMap::new();
    reads.insert("/srv/r0.key".to_string(), b"secret".to_vec());
    let mut outcomes = StrMap::new();
    outcomes.insert("frr.conf.j2".to_string(), Some("hostname r0\n".to_string()));
    outcomes.insert("broken.j2".to_string(), None);
    outcomes.insert("nowhere.j2".to_string(), Some("lost".to_string()));
    node.load(&reads, &outcomes);
    let binds = node.binds.as_ref().unwrap();
    assert_eq!(binds[0].content, Some(b"secret".to_vec()));
    assert_eq!(binds[1].content, None);
    assert_eq!(
        node.tmpls,
        Some(vec![DuneFile {
            src: "frr.conf.j2".to_string(),
            dst: "/etc/r0/frr.conf".to_string(),
            content: Some(b"hostname r0\n".to_vec()),
            executable: false,
        }])
    );
    let eth0 = node.interfaces.as_ref().unwrap().get("eth0").unwrap();
    assert_eq!(eth0.ctx_mac.as_deref(), Some("2:0:ab:10"));
    assert_eq!(eth0.ctx_addrs.as_ref().unwrap()[0].prefix, "10.0.0.1");
    assert_eq!(eth0.ctx_addrs.as_ref().unwrap()[0].plen, 24);
    // the files to write: the bound files first, those that hold nothing left out
    let files = node.dump_files();
    let dsts: Vec<&str> = files.iter().map(|f| f.dst.as_str()).collect();
    assert_eq!(dsts, vec!["/etc/key", "/etc/r0/frr.conf"]);
}

#[test]
fn no_template_found_leaves_the_interfaces_alone() {
    let mut node = router();
    node.load(&StrMap::new(), &StrMap::new());
    assert_eq!(node.tmpls, Some(vec![]));
    assert_eq!(node.interfaces.as_ref().unwrap().get("eth0").unwrap().ctx_mac, None);
    let mut plain = Node { binds: Some(vec![file("a", "b", Some("kept"))]), ..Node::default() };
    plain.load(&StrMap::new(), &StrMap::new());
    assert_eq!(plain.tmpls, None);
    assert_eq!(plain.binds.as_ref().unwrap()[0].content, Some(b"kept".to_vec()));
    assert_eq!(plain.dump_files().len(), 1);
    assert_eq!(plain.init(), None);
    assert_eq!(router().init(), Some("r0".to_string()));
}

#[test]
fn a_template_becomes_a_file_when_all_of_it_rendered() {
    let name = "t.j2".to_string();
    let text = Some("héllo".to_string());
    assert_eq!(
        file_from(&name, Some(&text), Some("/etc/t".to_string())),
        Some(DuneFile {
            src: "t.j2".to_string(),
            dst: "/etc/t".to_string(),
            content: Some("héllo".as_bytes().to_vec()),
            executable: false,
        })
    );
    assert_eq!(file_from(&name, Some(&text), None), None);
    assert_eq!(file_from(&name, Some(&None), Some("/etc/t".to_string())), None);
    assert_eq!(file_from(&name, None, Some("/etc/t".to_string())), None);
}
