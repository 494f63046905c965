use nethop::http::{Request, Response};
use nethop::network::{evaluate_cases, tally, Batch, BatchStep};
use nethop::test_bed::{do_operation, get_operator, test_case, Operator, TestCase};

fn resp(status: u16, headers: &[u8], body: &[u8]) -> Response {
    Response { status, headers: headers.to_vec(), body: body.to_vec() }
}

fn case(key: &[u8], op: Operator, value: &[u8]) -> TestCase {
    TestCase { key: key.to_vec(), value: value.to_vec(), operation: op }
}

#[test]
fn operator_symbols_resolve_both_ways() {
    let table: [(&[u8], Operator); 8] = [
        (b"=", Operator::Equals),
        (b"!=", Operator::NotEquals),
        (b">", Operator::GreaterThan),
        (b">=", Operator::GreaterThanOrEqualTo),
        (b"<", Operator::SmallerThan),
        (b"<=", Operator::SmallerThanOrEqualTo),
        (b"~", Operator::Contains),
        (b"^", Operator::StartsWith),
    ];
    for (sym, op) in table {
        assert_eq!(get_operator(sym).unwrap(), op);
        assert_eq!(op.as_symbol().as_bytes(), sym);
    }
    assert_eq!(Operator::Unknown.as_symbol(), "--");
    assert!(get_operator(b"--").is_err());
    assert!(get_operator(b"?").is_err());
}

#[test]
fn status_equality_evaluates_against_its_decimal_form() {
    let ok = resp(200, b"", b"");
    let not_found = resp(404, b"", b"");
    let c = case(b"status", Operator::Equals, b"200");
    assert!(test_case(&ok, &c));
    assert!(!test_case(&not_found, &c));
}

#[test]
fn body_contains_is_a_substring_test() {
    let c = case(b"body", Operator::Contains, b"ok");
    assert!(test_case(&resp(200, b"", b"it is ok here"), &c));
    assert!(!test_case(&resp(200, b"", b"nothing here"), &c));
}

#[test]
fn non_numeric_comparison_is_false_not_an_error() {
    let r = resp(200, b"X-Latency: 12\r\n", b"");
    assert!(!test_case(&r, &case(b"latency", Operator::GreaterThan, b"abc")));
    assert!(!do_operation(&Operator::GreaterThan, b"12", b"abc"));
    assert!(!do_operation(&Operator::GreaterThan, b"abc", b"12"));
}

#[test]
fn missing_header_compares_against_empty() {
    let r = resp(200, b"", b"");
    assert!(test_case(&r, &case(b"x-absent", Operator::Equals, b"")));
    assert!(!test_case(&r, &case(b"x-absent", Operator::Equals, b"x")));
}

#[test]
fn header_keys_match_case_insensitively() {
    let r = resp(200, b"X-Kind: widget\r\n", b"");
    assert!(test_case(&r, &case(b"x-kind", Operator::Equals, b"widget")));
}

#[test]
fn unknown_operator_always_evaluates_false() {
    assert!(!do_operation(&Operator::Unknown, b"a", b"a"));
}

#[test]
fn string_operators_compare_exactly() {
    assert!(do_operation(&Operator::Equals, b"abc", b"abc"));
    assert!(!do_operation(&Operator::Equals, b"abc", b"abd"));
    assert!(do_operation(&Operator::NotEquals, b"abc", b"abd"));
    assert!(do_operation(&Operator::StartsWith, b"abcdef", b"abc"));
    assert!(!do_operation(&Operator::StartsWith, b"abcdef", b"bcd"));
    assert!(do_operation(&Operator::Contains, b"abcdef", b"cde"));
}

#[test]
fn numeric_comparisons_are_exact_decimals() {
    assert!(do_operation(&Operator::SmallerThan, b"1.5", b"2"));
    assert!(do_operation(&Operator::GreaterThan, b"10", b"9.99"));
    assert!(do_operation(&Operator::GreaterThanOrEqualTo, b"10", b"10.0"));
    assert!(do_operation(&Operator::SmallerThanOrEqualTo, b"10", b"10"));
    assert!(do_operation(&Operator::SmallerThan, b"-1", b"0.5"));
    assert!(do_operation(&Operator::GreaterThan, b"-0.5", b"-2"));
    assert!(!do_operation(&Operator::GreaterThan, b"2", b"2"));
    // a signed zero equals zero under the order operators
    assert!(do_operation(&Operator::GreaterThanOrEqualTo, b"-0", b"0"));
    assert!(do_operation(&Operator::SmallerThanOrEqualTo, b"-0", b"0"));
}

#[test]
fn evaluating_cases_counts_passes_and_failures() {
    let r = resp(200, b"X-N: 5\r\n", b"all good");
    let cases = vec![
        case(b"status", Operator::Equals, b"200"),
        case(b"body", Operator::Contains, b"good"),
        case(b"x-n", Operator::GreaterThan, b"9"),
    ];
    let outcomes = evaluate_cases(&r, &cases);
    assert_eq!(outcomes, vec![true, true, false]);
    let (passed, failed) = tally(&outcomes);
    assert_eq!((passed, failed), (2, 1));
}

#[test]
fn batch_stops_after_a_failure_and_never_reaches_later_requests() {
    let reqs = vec![Request::default(), Request::default(), Request::default()];
    let mut batch = Batch::new(reqs);
    // first request goes out and succeeds
    assert!(matches!(batch.poll(), BatchStep::Send(0)));
    batch.advance();
    // second request fails to send: the run stops
    assert!(matches!(batch.poll(), BatchStep::Send(1)));
    batch.on_failure();
    // the third request is never attempted
    assert!(matches!(batch.poll(), BatchStep::Done));
}

#[test]
fn batch_without_failures_runs_every_request_in_order() {
    let reqs = vec![Request::default(), Request::default()];
    let mut batch = Batch::new(reqs);
    assert!(matches!(batch.poll(), BatchStep::Send(0)));
    batch.advance();
    assert!(matches!(batch.poll(), BatchStep::Send(1)));
    batch.advance();
    assert!(matches!(batch.poll(), BatchStep::Done));
}
