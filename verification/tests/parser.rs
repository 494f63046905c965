use nethop::errors::ScriptError;
use nethop::hop_lang::{clean_script, fetch_connection_header, fetch_requests,
    find_connection_header};
use nethop::test_bed::Operator;

#[test]
fn clean_script_strips_comments_and_blank_lines() {
    let script = b"# a comment\n\nhost=x\n  # indented comment\nkeep me\n";
    let cleaned = clean_script(script);
    assert_eq!(cleaned, b"host=x\nkeep me\n".to_vec());
}

#[test]
fn clean_script_reinserts_trailing_newline() {
    let cleaned = clean_script(b"last line without newline");
    assert_eq!(cleaned, b"last line without newline\n".to_vec());
}

#[test]
fn connect_defaults_are_secure_port_443() {
    let script = b"<connect>\nhost=example.com\n</connect>\n";
    let conn = fetch_connection_header(script).unwrap();
    assert_eq!(conn.host, b"example.com".to_vec());
    assert_eq!(conn.port, 443);
    assert!(conn.is_safe);
}

#[test]
fn connect_unsafe_switches_to_port_80_plaintext() {
    let script = b"<connect>\nhost=example.com\nunsafe\n</connect>\n";
    let conn = fetch_connection_header(script).unwrap();
    assert_eq!(conn.port, 80);
    assert!(!conn.is_safe);
}

#[test]
fn connect_explicit_port_wins_over_unsafe() {
    let script = b"<connect>\nhost=example.com\nunsafe\nport=8443\n</connect>\n";
    let conn = fetch_connection_header(script).unwrap();
    assert_eq!(conn.port, 8443);
    assert!(!conn.is_safe);
}

#[test]
fn two_connect_blocks_fail() {
    let script = b"<connect>\nhost=a\n</connect>\n<connect>\nhost=b\n</connect>\n";
    let err = fetch_connection_header(script).unwrap_err();
    assert!(matches!(err, ScriptError::MultipleConnectHeaders));
}

#[test]
fn two_connect_blocks_fail_whatever_they_hold() {
    let script = b"<connect>\n<connect>\n";
    let err = fetch_connection_header(script).unwrap_err();
    assert!(matches!(err, ScriptError::MultipleConnectHeaders));
}

#[test]
fn script_not_starting_with_connect_is_unsupported() {
    let script = b"host=example.com\n<connect>\n</connect>\n";
    let err = fetch_connection_header(script).unwrap_err();
    assert!(matches!(err, ScriptError::MissingConnectHeader));
}

#[test]
fn whole_file_search_fails_closed() {
    let err = find_connection_header(b"anything").unwrap_err();
    assert!(matches!(err, ScriptError::MissingConnectHeader));
}

#[test]
fn empty_host_is_an_error() {
    let script = b"<connect>\nport=443\n</connect>\n";
    let err = fetch_connection_header(script).unwrap_err();
    assert!(matches!(err, ScriptError::EmptyHost));
}

#[test]
fn invalid_port_is_an_error() {
    let script = b"<connect>\nhost=a\nport=notanumber\n</connect>\n";
    let err = fetch_connection_header(script).unwrap_err();
    match err {
        ScriptError::InvalidPort(v) => assert_eq!(v, b"notanumber".to_vec()),
        _ => panic!("wrong error"),
    }
}

#[test]
fn port_out_of_range_is_an_error() {
    let script = b"<connect>\nhost=a\nport=65536\n</connect>\n";
    assert!(matches!(
        fetch_connection_header(script).unwrap_err(),
        ScriptError::InvalidPort(_)
    ));
}

#[test]
fn unknown_connect_key_is_an_error() {
    let script = b"<connect>\nhost=a\nproxy=b\n</connect>\n";
    match fetch_connection_header(script).unwrap_err() {
        ScriptError::InvalidParameter(k) => assert_eq!(k, b"proxy".to_vec()),
        _ => panic!("wrong error"),
    }
}

#[test]
fn unknown_bare_token_is_an_error() {
    let script = b"<connect>\nhost=a\ninsecure\n</connect>\n";
    match fetch_connection_header(script).unwrap_err() {
        ScriptError::InvalidOption(t) => assert_eq!(t, b"insecure".to_vec()),
        _ => panic!("wrong error"),
    }
}

#[test]
fn query_without_method_defaults_to_get() {
    let script = b"<query>\nurl=/status\n</query>\n";
    let reqs = fetch_requests(script).unwrap();
    assert_eq!(reqs.len(), 1);
    assert_eq!(reqs[0].method, b"GET".to_vec());
    assert_eq!(reqs[0].url, b"/status".to_vec());
}

#[test]
fn method_is_upper_cased_and_content_type_lowered() {
    let script = b"<query>\nurl=/a\nmethod=post\ncontent-type=Application/JSON\n</query>\n";
    let reqs = fetch_requests(script).unwrap();
    assert_eq!(reqs[0].method, b"POST".to_vec());
    assert_eq!(reqs[0].content_type, b"application/json".to_vec());
}

#[test]
fn queries_come_in_script_order() {
    let script = b"<query>\nurl=/one\n</query>\n<query>\nurl=/two\nmethod=put\n</query>\n";
    let reqs = fetch_requests(script).unwrap();
    assert_eq!(reqs.len(), 2);
    assert_eq!(reqs[0].url, b"/one".to_vec());
    assert_eq!(reqs[0].method, b"GET".to_vec());
    assert_eq!(reqs[1].url, b"/two".to_vec());
    assert_eq!(reqs[1].method, b"PUT".to_vec());
}

#[test]
fn body_lines_are_captured_verbatim_with_newlines() {
    let script = b"<query>\nurl=/a\nmethod=post\n<body>\n{\"x\": 1}\nsecond line\n</body>\n</query>\n";
    let reqs = fetch_requests(script).unwrap();
    assert_eq!(reqs[0].body, b"{\"x\": 1}\nsecond line\n".to_vec());
}

#[test]
fn assertions_are_parsed_with_operator_and_value() {
    let script = b"<query>\nurl=/a\n<assert>\nstatus = 200\nbody ~ hello world\n</assert>\n</query>\n";
    let reqs = fetch_requests(script).unwrap();
    let cases = &reqs[0].test_cases;
    assert_eq!(cases.len(), 2);
    assert_eq!(cases[0].key, b"status".to_vec());
    assert_eq!(cases[0].operation, Operator::Equals);
    assert_eq!(cases[0].value, b"200".to_vec());
    assert_eq!(cases[1].key, b"body".to_vec());
    assert_eq!(cases[1].operation, Operator::Contains);
    // the expected value keeps its inner spaces: it is not re-split
    assert_eq!(cases[1].value, b"hello world".to_vec());
}

#[test]
fn assertion_with_wrong_token_count_fails() {
    let script = b"<query>\nurl=/a\n<assert>\nstatus =\n</assert>\n</query>\n";
    match fetch_requests(script).unwrap_err() {
        ScriptError::InvalidExpression(line, n) => {
            assert_eq!(line, b"status =".to_vec());
            assert_eq!(n, 2);
        },
        _ => panic!("wrong error"),
    }
}

#[test]
fn unknown_operator_symbol_fails() {
    let script = b"<query>\nurl=/a\n<assert>\nstatus == 200\n</assert>\n</query>\n";
    match fetch_requests(script).unwrap_err() {
        ScriptError::UnknownSymbol(sym) => assert_eq!(sym, b"==".to_vec()),
        _ => panic!("wrong error"),
    }
}

#[test]
fn unknown_query_key_fails() {
    let script = b"<query>\npath=/a\n</query>\n";
    match fetch_requests(script).unwrap_err() {
        ScriptError::UnknownKey(k) => assert_eq!(k, b"path".to_vec()),
        _ => panic!("wrong error"),
    }
}
