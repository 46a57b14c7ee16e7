use zero_shell::num::{i64_to_string, parse_i32, parse_u32, u64_to_string};
use zero_shell::userdb::{group_name, lookup, user_name};

#[test]
fn formats_unsigned_numbers() {
    assert_eq!(u64_to_string(0), "0");
    assert_eq!(u64_to_string(7), "7");
    assert_eq!(u64_to_string(1000), "1000");
    assert_eq!(u64_to_string(u64::MAX), u64::MAX.to_string());
}

#[test]
fn formats_signed_numbers() {
    assert_eq!(i64_to_string(-1), "-1");
    assert_eq!(i64_to_string(42), "42");
    assert_eq!(i64_to_string(i64::MIN), i64::MIN.to_string());
    assert_eq!(i64_to_string(i64::MAX), i64::MAX.to_string());
}

#[test]
fn parses_u32_like_std() {
    for s in ["0", "+7", "4294967295", "4294967296", "", "+", "-1", "-0", "1a", " 1", "007", "99999999999999"] {
        assert_eq!(parse_u32(s), s.parse::<u32>().ok(), "input {:?}", s);
    }
}

#[test]
fn parses_i32_like_std() {
    for s in ["0", "-0", "+5", "-2147483648", "2147483647", "2147483648", "-2147483649", "-", "+", "--1", "+-1", "12x", ""] {
        assert_eq!(parse_i32(s), s.parse::<i32>().ok(), "input {:?}", s);
    }
}

#[test]
fn decimal_round_trip() {
    for n in [0u32, 1, 9, 10, 65535, u32::MAX] {
        assert_eq!(parse_u32(&u64_to_string(n as u64)), Some(n));
    }
    for n in [0i32, -1, i32::MIN, i32::MAX, 123] {
        assert_eq!(parse_i32(&i64_to_string(n as i64)), Some(n));
    }
}

const PASSWD: &str = "root:x:0:0:root:/root:/bin/bash\nalice:x:1000:1000::/home/alice:/bin/sh\r\nbob:x:1001:1001::/home/bob:/bin/sh";

#[test]
fn finds_user_names() {
    assert_eq!(user_name(PASSWD, 0), "root");
    assert_eq!(user_name(PASSWD, 1000), "alice");
    assert_eq!(user_name(PASSWD, 1001), "bob");
}

#[test]
fn falls_back_to_numeric_id() {
    assert_eq!(user_name(PASSWD, 4242), "4242");
    assert_eq!(user_name("", 7), "7");
    assert_eq!(group_name("", 0), "0");
}

#[test]
fn finds_group_names() {
    let group = "wheel:x:10:alice\nstaff:x:50:";
    assert_eq!(group_name(group, 50), "staff");
    assert_eq!(group_name(group, 10), "wheel");
}

#[test]
fn malformed_lines_are_passed_over() {
    let text = "root:x:0\nbroken line\nbob:x:5";
    assert_eq!(lookup(text, 0), Some("root".to_string()));
    assert_eq!(lookup(text, 5), Some("bob".to_string()));
    assert_eq!(user_name(text, 5), "bob");
    let bad_id = "a:x:zz\nb:x:3";
    assert_eq!(lookup(bad_id, 3), Some("b".to_string()));
    assert_eq!(lookup(bad_id, 4), None);
}

#[test]
fn blank_lines_are_passed_over() {
    assert_eq!(lookup("a:x:1\n\nb:x:2\n", 2), Some("b".to_string()));
    assert_eq!(lookup("a:x:1\nb:x:2\n", 2), Some("b".to_string()));
    assert_eq!(user_name("\nroot:x:0:0:root:/root:/bin/sh\n", 0), "root");
    assert_eq!(group_name("# comment\n\nwheel:x:10:\n", 10), "wheel");
}

#[test]
fn id_field_may_be_last() {
    assert_eq!(lookup("svc:*:77", 77), Some("svc".to_string()));
    assert_eq!(lookup("svc:*:", 0), None);
}

#[test]
fn trailing_carriage_return_on_last_line_is_kept() {
    // The last line keeps its "\r", so its id does not parse.
    assert_eq!(lookup("svc:*:77\r", 77), None);
    assert_eq!(lookup("svc:*:77\r\n", 77), Some("svc".to_string()));
}

#[test]
fn first_entry_is_found() {
    let text = format!("{}:{}:{}\n{}", "carol", "pw", 31, "junk");
    assert_eq!(user_name(&text, 31), "carol");
}
