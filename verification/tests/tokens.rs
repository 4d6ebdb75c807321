use quad_url::{easy_parse, format_token, get_program_parameters, RawParameter};

fn entries(pairs: &[(&str, &str)]) -> Vec<RawParameter> {
    pairs.iter().map(|(key, value)| RawParameter::new(key, value)).collect()
}

#[test]
fn one_character_key_gets_one_dash() {
    assert_eq!(format_token("k", "1"), "-k=1");
    assert_eq!(format_token("a", ""), "-a");
    assert_eq!(format_token("c", "spa ce"), "-c=spa ce");
}

#[test]
fn longer_key_gets_two_dashes() {
    assert_eq!(format_token("bb", "1"), "--bb=1");
    assert_eq!(format_token("begin", ""), "--begin");
    assert_eq!(format_token("something", "spa ce"), "--something=spa ce");
}

#[test]
fn empty_key_gets_two_dashes() {
    assert_eq!(format_token("", ""), "--");
    assert_eq!(format_token("", "v"), "--=v");
}

#[test]
fn key_length_is_counted_in_characters() {
    // One character of two, three and four bytes.
    assert_eq!(format_token("é", "1"), "-é=1");
    assert_eq!(format_token("日", ""), "-日");
    assert_eq!(format_token("😀", "x"), "-😀=x");
    // Two characters.
    assert_eq!(format_token("éé", ""), "--éé");
    assert_eq!(format_token("日本", "語"), "--日本=語");
}

#[test]
fn nothing_is_escaped() {
    assert_eq!(format_token("q", "a=b&c d\"e"), "-q=a=b&c d\"e");
    assert_eq!(format_token("a=b", "c"), "--a=b=c");
    assert_eq!(format_token("-", ""), "--");
}

#[test]
fn path_and_three_entries() {
    let raw = entries(&[("a", ""), ("bb", "1"), ("c", "spa ce")]);
    assert_eq!(
        get_program_parameters("index.html", &raw),
        vec!["index.html", "-a", "--bb=1", "-c=spa ce"]
    );
}

#[test]
fn no_entries_give_the_path_alone() {
    assert_eq!(get_program_parameters("index.html", &Vec::new()), vec!["index.html"]);
    assert_eq!(get_program_parameters("", &Vec::new()), vec![""]);
}

#[test]
fn path_is_never_given_a_dash() {
    let raw = entries(&[("k", "1")]);
    assert_eq!(get_program_parameters("k", &raw), vec!["k", "-k=1"]);
    assert_eq!(
        get_program_parameters("https://example.org/a b/index.html", &raw),
        vec!["https://example.org/a b/index.html", "-k=1"]
    );
}

#[test]
fn repeated_keys_each_give_a_token() {
    let raw = entries(&[("k", "1"), ("k", "2"), ("k", ""), ("k", "1")]);
    assert_eq!(get_program_parameters("p", &raw), vec!["p", "-k=1", "-k=2", "-k", "-k=1"]);
}

#[test]
fn one_token_for_each_entry_in_order() {
    let raw = entries(&[("k", "1"), ("begin", ""), ("something", "spa ce"), ("", ""), ("z", "")]);
    let parameters = get_program_parameters("index.html", &raw);
    assert_eq!(parameters.len(), raw.len() + 1);
    assert_eq!(parameters[0], "index.html");
    for (i, entry) in raw.iter().enumerate() {
        assert_eq!(parameters[i + 1], format_token(&entry.key, &entry.value));
    }
}

#[test]
fn parameters_parse_back() {
    let raw = entries(&[("k", "1"), ("begin", ""), ("something", "spa ce")]);
    let parameters = get_program_parameters("index.html", &raw);
    assert_eq!(easy_parse(&parameters[0]), None);
    assert_eq!(easy_parse(&parameters[1]), Some(("k", Some("1"))));
    assert_eq!(easy_parse(&parameters[2]), Some(("begin", None)));
    assert_eq!(easy_parse(&parameters[3]), Some(("something", Some("spa ce"))));
}

#[test]
fn raw_parameter_keeps_key_and_value() {
    let entry = RawParameter::new("key", "value");
    assert_eq!(entry.key, "key");
    assert_eq!(entry.value, "value");
    let copy = entry.clone();
    assert_eq!(copy.key, "key");
    assert_eq!(copy.value, "value");
}
