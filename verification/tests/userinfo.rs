use confluence::usage::UsageSummary;
use confluence::userinfo::{format_subscription_userinfo, parse_subscription_userinfo, usage_of};

#[test]
fn test_parse_subscription_userinfo() {
    let header_value = "upload=5575992194; download=77012334; total=1234454555;expire=123444444";
    let fields = parse_subscription_userinfo(header_value);

    assert_eq!(fields.get("upload"), Some(&5575992194));
    assert_eq!(fields.get("download"), Some(&77012334));
    assert_eq!(fields.get("total"), Some(&1234454555));
    assert_eq!(fields.get("expire"), Some(&123444444));
}

#[test]
fn test_parse_subscription_userinfo_invalid_value() {
    let header_value = "upload=5575992194; download=77012334; total=invalid; expire=123444444";
    let fields = parse_subscription_userinfo(header_value);

    assert_eq!(fields.get("upload"), Some(&5575992194));
    assert_eq!(fields.get("download"), Some(&77012334));
    assert_eq!(fields.get("total"), None);
    assert_eq!(fields.get("expire"), Some(&123444444));
}

#[test]
fn test_parse_subscription_userinfo_missing_fields() {
    let header_value = "upload=5575992194; total=1234454555; expire=123444444";
    let fields = parse_subscription_userinfo(header_value);

    assert_eq!(fields.get("upload"), Some(&5575992194));
    assert_eq!(fields.get("download"), None);
    assert_eq!(fields.get("total"), Some(&1234454555));
    assert_eq!(fields.get("expire"), Some(&123444444));
}

#[test]
fn userinfo_drops_only_the_pair_that_is_no_integer() {
    let fields = parse_subscription_userinfo("upload=5; download=10; total=bogus; expire=20");
    assert_eq!(fields.get("upload"), Some(&5));
    assert_eq!(fields.get("download"), Some(&10));
    assert_eq!(fields.get("total"), None);
    assert_eq!(fields.get("expire"), Some(&20));
    assert_eq!(fields.len(), 3);
}

#[test]
fn userinfo_of_empty_input_is_empty() {
    let fields = parse_subscription_userinfo("");
    assert_eq!(fields.len(), 0);
    assert_eq!(fields.get("upload"), None);
    assert_eq!(fields.get(""), None);
}

#[test]
fn userinfo_keeps_unknown_keys_and_trims() {
    let fields = parse_subscription_userinfo("  foo =  -7 ;bar=+3;baz=1=2;=9; qux = ");
    assert_eq!(fields.get("foo"), Some(&-7));
    assert_eq!(fields.get("bar"), Some(&3));
    assert_eq!(fields.get("baz"), None);
    assert_eq!(fields.get(""), Some(&9));
    assert_eq!(fields.get("qux"), None);
}

#[test]
fn userinfo_later_pair_wins() {
    let fields = parse_subscription_userinfo("upload=1;upload=2");
    assert_eq!(fields.get("upload"), Some(&2));
}

#[test]
fn userinfo_number_limits() {
    let fields = parse_subscription_userinfo(
        "a=9223372036854775807;b=-9223372036854775808;c=9223372036854775808;d=007",
    );
    assert_eq!(fields.get("a"), Some(&i64::MAX));
    assert_eq!(fields.get("b"), Some(&i64::MIN));
    assert_eq!(fields.get("c"), None);
    assert_eq!(fields.get("d"), Some(&7));
}

#[test]
fn usage_of_known_keys() {
    let fields = parse_subscription_userinfo("upload=5; download=10; junk=4; expire=20");
    let usage = usage_of(&fields);
    assert_eq!(
        usage,
        UsageSummary { upload: Some(5), download: Some(10), total: None, expire: Some(20) }
    );
}

#[test]
fn header_is_written_in_order() {
    let usage =
        UsageSummary { upload: Some(5), download: Some(10), total: Some(-3), expire: Some(20) };
    assert_eq!(
        format_subscription_userinfo(&usage),
        Some("upload=5; download=10; total=-3; expire=20".to_string())
    );
    let partial = UsageSummary { upload: None, download: Some(1234567890123), total: None, expire: Some(0) };
    assert_eq!(
        format_subscription_userinfo(&partial),
        Some("download=1234567890123; expire=0".to_string())
    );
    let least = UsageSummary { upload: Some(i64::MIN), download: None, total: Some(i64::MAX), expire: None };
    assert_eq!(
        format_subscription_userinfo(&least),
        Some("upload=-9223372036854775808; total=9223372036854775807".to_string())
    );
}

#[test]
fn header_is_absent_without_figures() {
    let usage = UsageSummary { upload: None, download: None, total: None, expire: None };
    assert_eq!(format_subscription_userinfo(&usage), None);
}

#[test]
fn header_reads_back() {
    let usage = UsageSummary { upload: Some(15), download: Some(20), total: None, expire: Some(50) };
    let text = format_subscription_userinfo(&usage).unwrap();
    assert_eq!(usage_of(&parse_subscription_userinfo(&text)), usage);
}
