use sjmb_matrix::{urls_from_groups, PatternError, UrlPattern};

#[test]
fn pattern_that_does_not_compile_is_invalid() {
    assert!(matches!(UrlPattern::new("(unclosed"), Err(PatternError::Invalid)));
}

#[test]
fn pattern_without_group_is_refused() {
    assert!(matches!(UrlPattern::new(r"\S+://\S+"), Err(PatternError::NoCaptureGroup)));
}

#[test]
fn pattern_keeps_its_source() {
    let p = UrlPattern::new(r"(\S+://\S+)").ok().unwrap();
    assert_eq!(p.as_str(), r"(\S+://\S+)");
}

#[test]
fn extract_urls_in_order() {
    let p = UrlPattern::new(r"(\S+://\S+)").ok().unwrap();
    let urls = p.extract_urls("check https://a.example/x and https://b.example/y");
    assert_eq!(urls, vec!["https://a.example/x".to_string(), "https://b.example/y".to_string()]);
}

#[test]
fn extract_urls_three_matches() {
    let p = UrlPattern::new(r"(\S+://\S+)").ok().unwrap();
    let urls = p.extract_urls("a://1 b://2 c://3");
    assert_eq!(urls.len(), 3);
    assert_eq!(urls[0], "a://1");
    assert_eq!(urls[2], "c://3");
}

#[test]
fn extract_urls_no_match_is_empty() {
    let p = UrlPattern::new(r"(\S+://\S+)").ok().unwrap();
    assert!(p.extract_urls("nothing to see here").is_empty());
    assert!(p.extract_urls("").is_empty());
}

#[test]
fn extract_urls_takes_first_group_only() {
    let p = UrlPattern::new(r"<(\w+)>(\d)").ok().unwrap();
    assert_eq!(p.extract_urls("<ab>1 <cd>2"), vec!["ab".to_string(), "cd".to_string()]);
}

#[test]
fn extract_urls_skips_matches_without_first_group() {
    let p = UrlPattern::new(r"(x)?y").ok().unwrap();
    assert_eq!(p.extract_urls("xy y xy"), vec!["x".to_string(), "x".to_string()]);
}

#[test]
fn urls_from_groups_keeps_present_in_order() {
    let groups = vec![Some("a".to_string()), None, Some("b".to_string())];
    assert_eq!(urls_from_groups(&groups), vec!["a".to_string(), "b".to_string()]);
    assert!(urls_from_groups(&vec![None, None]).is_empty());
}
