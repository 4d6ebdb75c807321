use quad_url::{
    delete_entries, delete_program_parameter, easy_parse, get_program_parameters, perform,
    set_entry, set_hash, set_program_parameter, Host, RawParameter, Request,
};

fn table(pairs: &[(&str, &str)]) -> Vec<RawParameter> {
    pairs.iter().map(|(key, value)| RawParameter::new(key, value)).collect()
}

fn pairs(entries: &[RawParameter]) -> Vec<(&str, &str)> {
    entries.iter().map(|entry| (entry.key.as_str(), entry.value.as_str())).collect()
}

#[test]
fn delete_removes_every_occurrence() {
    let mut entries = table(&[("x", "1"), ("y", "2"), ("x", ""), ("z", "3"), ("x", "1")]);
    delete_entries(&mut entries, "x");
    assert_eq!(pairs(&entries), vec![("y", "2"), ("z", "3")]);
}

#[test]
fn delete_of_an_absent_key_changes_nothing() {
    let mut entries = table(&[("y", "2"), ("z", "3")]);
    delete_entries(&mut entries, "x");
    assert_eq!(pairs(&entries), vec![("y", "2"), ("z", "3")]);
    let mut none = table(&[]);
    delete_entries(&mut none, "x");
    assert!(none.is_empty());
}

#[test]
fn delete_compares_whole_keys() {
    let mut entries = table(&[("x", "1"), ("xx", "2"), ("", "3"), ("X", "4")]);
    delete_entries(&mut entries, "x");
    assert_eq!(pairs(&entries), vec![("xx", "2"), ("", "3"), ("X", "4")]);
    delete_entries(&mut entries, "");
    assert_eq!(pairs(&entries), vec![("xx", "2"), ("X", "4")]);
}

#[test]
fn set_creates_at_the_end() {
    let mut entries = table(&[("y", "2")]);
    set_entry(&mut entries, "x", "1");
    assert_eq!(pairs(&entries), vec![("y", "2"), ("x", "1")]);
    let mut none = table(&[]);
    set_entry(&mut none, "x", "");
    assert_eq!(pairs(&none), vec![("x", "")]);
}

#[test]
fn set_overwrites_in_place() {
    let mut entries = table(&[("y", "2"), ("x", "1"), ("z", "3")]);
    set_entry(&mut entries, "x", "9");
    assert_eq!(pairs(&entries), vec![("y", "2"), ("x", "9"), ("z", "3")]);
}

#[test]
fn set_keeps_the_first_of_a_repeated_key() {
    let mut entries = table(&[("x", "1"), ("y", "2"), ("x", "3"), ("z", "4"), ("x", "5")]);
    set_entry(&mut entries, "x", "9");
    assert_eq!(pairs(&entries), vec![("x", "9"), ("y", "2"), ("z", "4")]);
}

#[test]
fn set_twice_is_set_once() {
    let mut once = table(&[("x", "1"), ("y", "2"), ("x", "3")]);
    set_entry(&mut once, "x", "9");
    let mut twice = table(&[("x", "1"), ("y", "2"), ("x", "3")]);
    set_entry(&mut twice, "x", "9");
    set_entry(&mut twice, "x", "9");
    assert_eq!(pairs(&once), pairs(&twice));
    let mut created = table(&[("y", "2")]);
    set_entry(&mut created, "x", "9");
    set_entry(&mut created, "x", "9");
    assert_eq!(pairs(&created), vec![("y", "2"), ("x", "9")]);
}

#[test]
fn requests_are_carried_out() {
    let mut entries = table(&[("a", "1")]);
    perform(&mut entries, &set_program_parameter(Host::Browser, "b", "2").unwrap());
    assert_eq!(pairs(&entries), vec![("a", "1"), ("b", "2")]);
    perform(&mut entries, &set_program_parameter(Host::Browser, "a", "").unwrap());
    assert_eq!(pairs(&entries), vec![("a", ""), ("b", "2")]);
    perform(&mut entries, &delete_program_parameter(Host::Browser, "a").unwrap());
    assert_eq!(pairs(&entries), vec![("b", "2")]);
}

#[test]
fn other_requests_leave_the_query_string() {
    let mut entries = table(&[("a", "1"), ("b", "2")]);
    perform(&mut entries, &set_hash(Host::Browser, "a").unwrap());
    perform(&mut entries, &Request::OpenLink { url: "a".to_string(), new_tab: true });
    perform(&mut entries, &Request::OpenInBrowser { url: "a".to_string() });
    assert_eq!(pairs(&entries), vec![("a", "1"), ("b", "2")]);
}

#[test]
fn deleted_parameter_has_no_token() {
    let mut entries = table(&[("x", "1"), ("bb", "1"), ("x", ""), ("c", "spa ce")]);
    perform(&mut entries, &delete_program_parameter(Host::Browser, "x").unwrap());
    let parameters = get_program_parameters("index.html", &entries);
    assert_eq!(parameters, vec!["index.html", "--bb=1", "-c=spa ce"]);
    for parameter in &parameters {
        assert!(!matches!(easy_parse(parameter), Some(("x", _))));
    }
}

#[test]
fn set_parameter_shows_in_the_parameters() {
    let mut entries = table(&[("a", "")]);
    perform(&mut entries, &set_program_parameter(Host::Browser, "something", "spa ce").unwrap());
    assert_eq!(
        get_program_parameters("index.html", &entries),
        vec!["index.html", "-a", "--something=spa ce"]
    );
}
