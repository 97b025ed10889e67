use servicing::scan::find_endpoint;
use servicing::text::contains_substring;

#[test]
fn finds_endpoint_in_status_output() {
    let out = "Services\nNAME  STATUS   ENDPOINT\napi   RUNNING  10.0.0.5:30000\n";
    assert_eq!(find_endpoint(out).as_deref(), Some("10.0.0.5:30000"));
}

#[test]
fn finds_leftmost_endpoint() {
    let out = "first 1.2.3.4:80 then 5.6.7.8:90";
    assert_eq!(find_endpoint(out).as_deref(), Some("1.2.3.4:80"));
}

#[test]
fn whole_string_can_be_the_token() {
    assert_eq!(find_endpoint("192.168.0.1:8080").as_deref(), Some("192.168.0.1:8080"));
}

#[test]
fn no_token_means_none() {
    assert_eq!(find_endpoint(""), None);
    assert_eq!(find_endpoint("no address here"), None);
    assert_eq!(find_endpoint("1.2.3:80"), None);
    assert_eq!(find_endpoint("1.2.3.4"), None);
    assert_eq!(find_endpoint("1.2.3.4:"), None);
}

#[test]
fn octets_wider_than_three_digits_do_not_match() {
    assert_eq!(find_endpoint("1234.5.6.7:80"), None);
    assert_eq!(find_endpoint("1.2345.6.7:80"), None);
}

#[test]
fn word_boundaries_are_required() {
    // A word character on either side of the token breaks the boundary.
    assert_eq!(find_endpoint("x1.2.3.4:80 rest"), None);
    assert_eq!(find_endpoint("see 1.2.3.4:80x"), None);
    // Punctuation is no word character, so it delimits fine.
    assert_eq!(find_endpoint("(1.2.3.4:80)").as_deref(), Some("1.2.3.4:80"));
}

#[test]
fn port_takes_the_whole_digit_run() {
    assert_eq!(
        find_endpoint("addr 10.0.0.5:30000, more").as_deref(),
        Some("10.0.0.5:30000")
    );
}

#[test]
fn substring_search() {
    assert!(contains_substring("the replicas are not ready", "replicas"));
    assert!(contains_substring("abc", ""));
    assert!(contains_substring("abc", "abc"));
    assert!(!contains_substring("abc", "abcd"));
    assert!(!contains_substring("", "a"));
    assert!(!contains_substring("aab", "ab c"));
}
