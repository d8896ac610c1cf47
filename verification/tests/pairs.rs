use sqland::cli::clone_strings;
use sqland::encode::query_fits;
use sqland::pairs::upsert_pair;

fn pairs(items: &[(&str, &str)]) -> Vec<(String, String)> {
    items.iter().map(|(k, v)| (k.to_string(), v.to_string())).collect()
}

#[test]
fn upsert_appends_a_new_name() {
    let mut list = pairs(&[("a", "1")]);
    upsert_pair(&mut list, "b".to_string(), "2".to_string());
    assert_eq!(list, pairs(&[("a", "1"), ("b", "2")]));
}

#[test]
fn upsert_replaces_in_place() {
    let mut list = pairs(&[("a", "1"), ("b", "2"), ("c", "3")]);
    upsert_pair(&mut list, "b".to_string(), "9".to_string());
    assert_eq!(list, pairs(&[("a", "1"), ("b", "9"), ("c", "3")]));
}

#[test]
fn upsert_into_the_empty_list() {
    let mut list = Vec::new();
    upsert_pair(&mut list, String::new(), String::new());
    assert_eq!(list, pairs(&[("", "")]));
}

#[test]
fn upsert_names_are_case_sensitive() {
    let mut list = pairs(&[("id", "1")]);
    upsert_pair(&mut list, "ID".to_string(), "2".to_string());
    assert_eq!(list, pairs(&[("id", "1"), ("ID", "2")]));
}

#[test]
fn copies_of_string_lists() {
    let list = vec!["a".to_string(), String::new(), "é".to_string()];
    assert_eq!(clone_strings(&list), list);
    assert_eq!(clone_strings(&Vec::new()), Vec::<String>::new());
}

#[test]
fn query_size_limits() {
    assert!(query_fits("http://example.com", &pairs(&[("id", "1")])));
    assert!(query_fits("", &Vec::new()));
    assert!(query_fits(&"a".repeat(0x10_0000), &Vec::new()));
    assert!(!query_fits(&"a".repeat(0x10_0001), &Vec::new()));
    assert!(!query_fits(&"é".repeat(0x8_0001), &Vec::new()));
    let big = "x".repeat(0x800_0000);
    assert!(query_fits("", &vec![(big.clone(), big.clone())]));
    assert!(!query_fits("", &vec![(big.clone(), big.clone()), ("a".to_string(), String::new())]));
}
