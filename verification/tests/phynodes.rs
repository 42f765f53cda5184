use dune::datum::Datum;
use dune::infra::{Phynode, Phynodes};
use dune::strmap::StrMap;

fn datum(value: &toml::Value) -> Datum {
    match value {
        toml::Value::String(s) => Datum::Text(s.clone()),
        toml::Value::Integer(n) => Datum::Int(*n),
        toml::Value::Boolean(b) => Datum::Bool(*b),
        toml::Value::Array(items) => Datum::List(items.iter().map(datum).collect()),
        toml::Value::Table(fields) => {
            Datum::Table(fields.iter().map(|(k, v)| (k.clone(), datum(v))).collect())
        }
        other => Datum::Other(other.to_string()),
    }
}

fn value(datum: &Datum) -> toml::Value {
    match datum {
        Datum::Bool(b) => toml::Value::Boolean(*b),
        Datum::Int(n) => toml::Value::Integer(*n),
        Datum::Uint(n) => toml::Value::Integer(*n as i64),
        Datum::Text(s) | Datum::Other(s) => toml::Value::String(s.clone()),
        Datum::Null => toml::Value::String(String::new()),
        Datum::List(items) => toml::Value::Array(items.iter().map(value).collect()),
        Datum::Table(fields) => {
            toml::Value::Table(fields.iter().map(|(k, v)| (k.clone(), value(v))).collect())
        }
    }
}

fn phynode_to_toml(p: &Phynode) -> toml::Value {
    let mut table = toml::Table::new();
    let cores = p
        .cores
        .iter()
        .map(|pool| toml::Value::Array(pool.iter().map(|c| toml::Value::Integer(*c as i64)).collect()))
        .collect();
    table.insert("cores".to_string(), toml::Value::Array(cores));
    if let Some(fields) = &p._additional_fields {
        for i in 0..fields.len() {
            table.insert(fields.key_at(i).clone(), value(fields.value_at(i)));
        }
    }
    toml::Value::Table(table)
}

fn phynode_from_toml(v: &toml::Value) -> Option<Phynode> {
    let table = v.as_table()?;
    let mut cores = Vec::new();
    for pool in table.get("cores")?.as_array()? {
        let mut list = Vec::new();
        for core in pool.as_array()? {
            list.push(u64::try_from(core.as_integer()?).ok()?);
        }
        cores.push(list);
    }
    let mut fields = StrMap::new();
    for (k, v) in table {
        if k != "cores" && k != "binds" {
            fields.insert(k.clone(), datum(v));
        }
    }
    Some(Phynode { cores, binds: None, _additional_fields: Some(fields) })
}

fn phynodes_to_toml(p: &Phynodes) -> toml::Value {
    let mut table = toml::Table::new();
    let mut nodes = toml::Table::new();
    for i in 0..p.nodes.len() {
        nodes.insert(p.nodes.key_at(i).clone(), phynode_to_toml(p.nodes.value_at(i)));
    }
    table.insert("nodes".to_string(), toml::Value::Table(nodes));
    if let Some(fields) = &p._additional_fields {
        for i in 0..fields.len() {
            table.insert(fields.key_at(i).clone(), value(fields.value_at(i)));
        }
    }
    toml::Value::Table(table)
}

fn phynodes_from_toml(v: &toml::Value) -> Option<Phynodes> {
    let table = v.as_table()?;
    let mut nodes = StrMap::new();
    for (name, node) in table.get("nodes")?.as_table()? {
        nodes.insert(name.clone(), phynode_from_toml(node)?);
    }
    let mut fields = StrMap::new();
    for (k, v) in table {
        if k != "nodes" {
            fields.insert(k.clone(), datum(v));
        }
    }
    Some(Phynodes { nodes, _additional_fields: Some(fields) })
}

fn extra() -> StrMap<Datum> {
    let mut additional_fields = StrMap::new();
    additional_fields.insert("extra_field".to_string(), Datum::Text("some_value".to_string()));
    additional_fields
}

fn phynode(cores: Vec<Vec<u64>>, fields: StrMap<Datum>) -> Phynode {
    Phynode { cores, binds: None, _additional_fields: Some(fields) }
}

#[test]
fn phynode_ser() {
    let phynode = phynode(vec![vec![1, 2, 3], vec![4, 5]], StrMap::new());

    let serialized = toml::to_string(&phynode_to_toml(&phynode)).expect("Serialization failed");
    let expected = "cores = [[1, 2, 3], [4, 5]]\n";
    assert_eq!(serialized, expected);
}

#[test]
fn phynode_de() {
    let expected = phynode(vec![vec![1, 2, 3], vec![4, 5]], StrMap::new());

    let cfg = "cores = [[1, 2, 3], [4, 5]]";

    let deserialized: toml::Value = toml::de::from_str(&cfg).expect("Deserialization failed");
    assert_eq!(phynode_from_toml(&deserialized), Some(expected));
}

#[test]
fn phynode_ser_additional_fields() {
    let phynode = phynode(vec![vec![1, 2], vec![3, 4]], extra());

    let serialized = toml::to_string(&phynode_to_toml(&phynode)).expect("Serialization failed");
    let expected = "cores = [[1, 2], [3, 4]]\nextra_field = \"some_value\"\n";

    assert_eq!(serialized, expected);
}

#[test]
fn phynode_de_additional_fields() {
    let expected = phynode(vec![vec![1, 2], vec![3, 4]], extra());

    let cfg = "cores = [[1, 2], [3, 4]]\nextra_field = \"some_value\"";

    let deserialized: toml::Value = toml::de::from_str(&cfg).expect("Deserialization failed");
    assert_eq!(phynode_from_toml(&deserialized), Some(expected));
}

#[test]
fn phynode_ser_default() {
    let phynode = phynode(Vec::new(), StrMap::new());

    let serialized = toml::to_string(&phynode_to_toml(&phynode)).expect("Serialization failed");
    let expected = "cores = []\n";
    assert_eq!(serialized, expected);
}

#[test]
fn phynode_de_default() {
    let expected = phynode(Vec::new(), StrMap::new());
    let cfg = "cores = []\n";

    let deserialized: toml::Value = toml::de::from_str(&cfg).expect("Deserialization failed");
    assert_eq!(phynode_from_toml(&deserialized), Some(expected));
}

#[test]
fn phynodes_ser() {
    let phynode1 = phynode(vec![vec![1, 2], vec![3, 4]], StrMap::new());
    let phynode2 = phynode(vec![vec![5, 6], vec![7, 8]], StrMap::new());

    let mut nodes = StrMap::new();
    nodes.insert("node1".to_string(), phynode1);
    nodes.insert("node2".to_string(), phynode2);

    let phynodes = Phynodes { nodes, _additional_fields: Some(StrMap::new()) };

    let serialized = toml::to_string(&phynodes_to_toml(&phynodes)).expect("Serialization failed");
    let expected1 =
        "[nodes.node2]\ncores = [[5, 6], [7, 8]]\n\n[nodes.node1]\ncores = [[1, 2], [3, 4]]\n";
    let expected2 =
        "[nodes.node1]\ncores = [[1, 2], [3, 4]]\n\n[nodes.node2]\ncores = [[5, 6], [7, 8]]\n";
    assert!(serialized == expected1 || serialized == expected2);
}

#[test]
fn phynodes_de() {
    let phynode1 = phynode(vec![vec![1, 2], vec![3, 4]], StrMap::new());
    let phynode2 = phynode(vec![vec![5, 6], vec![7, 8]], StrMap::new());

    let mut nodes = StrMap::new();
    nodes.insert("node1".to_string(), phynode1);
    nodes.insert("node2".to_string(), phynode2);

    let expected = Phynodes { nodes, _additional_fields: Some(StrMap::new()) };

    let cfg = "[nodes.node1]\ncores = [[1, 2], [3, 4]]\n[nodes.node2]\ncores = [[5, 6], [7, 8]]\n";

    let deserialized: toml::Value = toml::de::from_str(&cfg).expect("Deserialization failed");
    assert_eq!(phynodes_from_toml(&deserialized), Some(expected));
}

#[test]
fn phynodes_de_additional_fields() {
    let phynode = phynode(vec![vec![1, 2], vec![3, 4]], StrMap::new());

    let mut nodes = StrMap::new();
    nodes.insert("node1".to_string(), phynode);

    let phynodes = Phynodes { nodes, _additional_fields: Some(extra()) };

    let cfg = "extra_field = \"some_value\"\n[nodes.node1]\ncores = [[1, 2], [3, 4]]\n";

    let deserialized: toml::Value = toml::de::from_str(&cfg).expect("Deserialization failed");
    assert_eq!(Some(phynodes), phynodes_from_toml(&deserialized));
}

#[test]
fn phynodes_se_additional_fields() {
    let phynode = phynode(vec![vec![1, 2], vec![3, 4]], StrMap::new());

    let mut nodes = StrMap::new();
    nodes.insert("node1".to_string(), phynode);

    let phynodes = Phynodes { nodes, _additional_fields: Some(extra()) };

    let expected = "extra_field = \"some_value\"\n\n[nodes.node1]\ncores = [[1, 2], [3, 4]]\n";

    let serialized = toml::ser::to_string(&phynodes_to_toml(&phynodes)).expect("Serialized failed");

    assert_eq!(serialized, expected);
}
