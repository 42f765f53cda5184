use dune::datum::Datum;
use dune::pinned::{
    core_index, core_index_given, keep_rendered, render_list, rendered_or, Pinned,
};
use dune::strmap::StrMap;

#[test]
fn core_index_reads_the_number() {
    assert_eq!(core_index("core_0"), Some(0));
    assert_eq!(core_index("core_17"), Some(17));
    assert_eq!(core_index("core_"), None);
    assert_eq!(core_index("core_x"), None);
    assert_eq!(core_index("xcore_1"), None);
    assert_eq!(core_index("core_1 "), None);
    assert_eq!(core_index("core_18446744073709551615"), Some(u64::MAX));
    assert_eq!(core_index("core_18446744073709551616"), None);
}

#[test]
fn pinned_without_environment_asks_for_one_core() {
    let mut p = Pinned::new("sleep 1".to_string(), None, None, None, None);
    assert_eq!(p.n_cores(), 1);
    let cores = p.cores();
    assert_eq!(cores.get("core_0"), Some(&0));
}

#[test]
fn pinned_asks_for_the_cores_its_environment_reads() {
    let mut env = StrMap::new();
    env.insert("MAIN".to_string(), "{{ core_0 }}".to_string());
    env.insert("WORKERS".to_string(), "{{ core_1 }},{{ core_12 }} {{ other }}".to_string());
    let mut p = Pinned::new("run".to_string(), Some(env), None, None, None);
    assert_eq!(p.n_cores(), 3);
    let cores = p.cores();
    assert_eq!(cores.len(), 3);
    assert_eq!(cores.get("core_0"), Some(&0));
    assert_eq!(cores.get("core_1"), Some(&1));
    assert_eq!(cores.get("core_12"), Some(&12));
    assert_eq!(cores.get("other"), None);
}

#[test]
fn pinned_cores_are_kept_once_worked_out() {
    let mut env = StrMap::new();
    env.insert("A".to_string(), "{{ core_1 }}".to_string());
    let mut p = Pinned::new("run".to_string(), Some(env), None, None, None);
    assert_eq!(p.n_cores(), 2);
    let mut env = StrMap::new();
    env.insert("A".to_string(), "{{ core_1 }} {{ core_2 }}".to_string());
    p.environ = Some(env);
    assert_eq!(p.n_cores(), 2);
}

#[test]
fn a_core_index_needs_a_matching_name() {
    assert_eq!(core_index_given(Some(true), "core_12"), Some(12));
    assert_eq!(core_index_given(Some(true), "12345678"), Some(678));
    assert_eq!(core_index_given(Some(true), "core"), None);
    assert_eq!(core_index_given(Some(true), "core_"), None);
    assert_eq!(core_index_given(Some(true), "core_1x"), None);
    assert_eq!(core_index_given(Some(false), "core_12"), None);
    assert_eq!(core_index_given(None, "core_12"), None);
}

#[test]
fn what_does_not_render_is_dropped_or_kept() {
    let outcomes = vec![Some("a".to_string()), None, Some("".to_string()), None];
    assert_eq!(keep_rendered(outcomes), vec!["a".to_string(), "".to_string()]);
    assert_eq!(keep_rendered(vec![]), Vec::<String>::new());
    assert_eq!(rendered_or(Some("new".to_string()), "old".to_string()), "new");
    assert_eq!(rendered_or(None, "old".to_string()), "old");
    let context = Datum::Table(vec![("n".to_string(), Datum::Int(3))]);
    let list = vec!["{{ n + 1 }}".to_string(), "{{ n".to_string(), "{{ m }}".to_string()];
    assert_eq!(render_list(&list, &context), vec!["4".to_string(), "".to_string()]);
}
