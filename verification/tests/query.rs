use corex::query::parse_query;

fn pairs(v: &[(&str, &str)]) -> Vec<(String, String)> {
    v.iter().map(|(k, val)| (k.to_string(), val.to_string())).collect()
}

#[test]
fn two_pairs() {
    assert_eq!(parse_query("a=1&b=2"), pairs(&[("a", "1"), ("b", "2")]));
}

#[test]
fn malformed_pair_is_dropped() {
    assert_eq!(parse_query("a=1&junk&b=2"), pairs(&[("a", "1"), ("b", "2")]));
    assert_eq!(parse_query("junk"), pairs(&[]));
}

#[test]
fn first_occurrence_wins() {
    assert_eq!(parse_query("a=1&a=2"), pairs(&[("a", "1")]));
    assert_eq!(parse_query("a=1&b=3&a=2"), pairs(&[("a", "1"), ("b", "3")]));
}

#[test]
fn empty_query_is_empty() {
    assert_eq!(parse_query(""), pairs(&[]));
}

#[test]
fn empty_key_or_value() {
    assert_eq!(parse_query("x="), pairs(&[("x", "")]));
    assert_eq!(parse_query("=v"), pairs(&[("", "v")]));
}

#[test]
fn value_keeps_later_equals_signs() {
    assert_eq!(parse_query("a=1=2"), pairs(&[("a", "1=2")]));
}
