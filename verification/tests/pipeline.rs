use nethop::errors::ScriptError;
use nethop::hop_lang::{clean_script, fetch_connection_header, fetch_requests};
use nethop::test_bed::{do_operation, Operator};

#[test]
fn a_full_script_cleans_and_parses_end_to_end() {
    let script = b"# demo script\n\
        <connect>\n\
        host=api.example.com\n\
        port=8080\n\
        unsafe\n\
        </connect>\n\
        \n\
        # check the service is up\n\
        <query>\n\
        url=/health\n\
        <assert>\n\
        status = 200\n\
        </assert>\n\
        </query>\n\
        \n\
        <query>\n\
        url=/items\n\
        method=post\n\
        content-type=application/json\n\
        <body>\n\
        {\"name\": \"widget\"}\n\
        </body>\n\
        </query>\n";
    let cleaned = clean_script(script);
    let conn = fetch_connection_header(&cleaned).unwrap();
    // the explicit port= wins; the later unsafe line only drops the TLS wrap
    assert_eq!(conn.host, b"api.example.com".to_vec());
    assert_eq!(conn.port, 8080);
    assert!(!conn.is_safe);
    let reqs = fetch_requests(&cleaned).unwrap();
    assert_eq!(reqs.len(), 2);
    assert_eq!(reqs[0].url, b"/health".to_vec());
    assert_eq!(reqs[0].test_cases.len(), 1);
    assert_eq!(reqs[1].method, b"POST".to_vec());
    assert_eq!(reqs[1].body, b"{\"name\": \"widget\"}\n".to_vec());
}

#[test]
fn explicit_port_survives_a_later_unsafe_line() {
    let script = b"<connect>\nhost=a\nport=8443\nunsafe\n</connect>\n";
    let conn = fetch_connection_header(script).unwrap();
    assert_eq!(conn.port, 8443);
    assert!(!conn.is_safe);
}

#[test]
fn unsafe_alone_still_defaults_the_port_to_80() {
    let script = b"<connect>\nhost=a\nunsafe\n</connect>\n";
    let conn = fetch_connection_header(script).unwrap();
    assert_eq!(conn.port, 80);
    assert!(!conn.is_safe);
}

#[test]
fn whitespace_only_body_lines_are_captured() {
    let script = b"<query>\nurl=/a\nmethod=post\n<body>\nfirst\n \nsecond\n</body>\n</query>\n";
    let reqs = fetch_requests(script).unwrap();
    assert_eq!(reqs[0].body, b"first\n \nsecond\n".to_vec());
}

#[test]
fn port_accepts_a_leading_plus_as_integer_parsing_does() {
    let script = b"<connect>\nhost=a\nport=+8080\n</connect>\n";
    let conn = fetch_connection_header(script).unwrap();
    assert_eq!(conn.port, 8080);
}

#[test]
fn keys_and_values_may_carry_surrounding_spaces() {
    let script = b"<connect>\n  host = spaced.example  \n</connect>\n";
    let conn = fetch_connection_header(script).unwrap();
    assert_eq!(conn.host, b"spaced.example".to_vec());
}

#[test]
fn a_double_space_in_an_assertion_makes_an_empty_symbol() {
    // splitting on single spaces turns "status  200" into an empty middle token
    let script = b"<query>\nurl=/a\n<assert>\nstatus  200\n</assert>\n</query>\n";
    match fetch_requests(script).unwrap_err() {
        ScriptError::UnknownSymbol(sym) => assert_eq!(sym, Vec::<u8>::new()),
        _ => panic!("wrong error"),
    }
}

#[test]
fn decimal_comparisons_handle_fractional_forms() {
    assert!(do_operation(&Operator::SmallerThan, b".5", b"1."));
    assert!(do_operation(&Operator::GreaterThanOrEqualTo, b"2.50", b"2.5"));
    assert!(do_operation(&Operator::SmallerThanOrEqualTo, b"2.50", b"2.5"));
    assert!(do_operation(&Operator::GreaterThan, b"+3", b"2.99"));
    // a lone dot or sign is not a numeral: the comparison is false
    assert!(!do_operation(&Operator::GreaterThan, b".", b"0"));
    assert!(!do_operation(&Operator::GreaterThan, b"5", b"-"));
}
