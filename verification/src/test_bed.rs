//! The operator model and the assertion engine: the closed set of comparison
//! operators, their symbols, and the evaluation of one assertion against a
//! left-hand value. Evaluation never fails: an unparsable numeric comparison
//! is false, and the `Unknown` sentinel is always false.

use vstd::prelude::*;

use crate::bytes::{contains, contains_spec, starts_with, starts_with_spec};
use crate::decimal::{compare_dec, dec_num, parse_dec, parse_dec_spec, Dec, NumCmp};
use crate::errors::{ScriptError, ScriptErrorV};

verus! {

/// The comparison operators an assertion line may carry. `Unknown` is a
/// sentinel that parsing never produces; it evaluates to false.
#[derive(Clone, Copy, Debug, Default, PartialEq, Eq, Structural)]
pub enum Operator {
    #[default]
    Unknown,
    Equals,
    NotEquals,
    Contains,
    StartsWith,
    GreaterThan,
    SmallerThan,
    GreaterThanOrEqualTo,
    SmallerThanOrEqualTo,
}

/// The display symbol of each operator.
pub open spec fn symbol_spec(op: Operator) -> Seq<char> {
    match op {
        Operator::Unknown => "--"@,
        Operator::Equals => "="@,
        Operator::NotEquals => "!="@,
        Operator::GreaterThan => ">"@,
        Operator::GreaterThanOrEqualTo => ">="@,
        Operator::SmallerThan => "<"@,
        Operator::SmallerThanOrEqualTo => "<="@,
        Operator::Contains => "~"@,
        Operator::StartsWith => "^"@,
    }
}

impl Operator {
    /// The symbol this operator is written as; `--` for the sentinel.
    pub fn as_symbol(&self) -> (r: &'static str)
        ensures
            r@ == symbol_spec(*self),
    {
        match self {
            Operator::Unknown => "--",
            Operator::Equals => "=",
            Operator::NotEquals => "!=",
            Operator::GreaterThan => ">",
            Operator::GreaterThanOrEqualTo => ">=",
            Operator::SmallerThan => "<",
            Operator::SmallerThanOrEqualTo => "<=",
            Operator::Contains => "~",
            Operator::StartsWith => "^",
        }
    }
}

/// The operator written by a symbol token, if the token is in the recognized
/// set. The sentinel `Unknown` is never produced.
pub open spec fn operator_of_symbol(s: Seq<u8>) -> Option<Operator> {
    if s == seq!['=' as u8] {
        Some(Operator::Equals)
    } else if s == seq!['!' as u8, '=' as u8] {
        Some(Operator::NotEquals)
    } else if s == seq!['>' as u8] {
        Some(Operator::GreaterThan)
    } else if s == seq!['>' as u8, '=' as u8] {
        Some(Operator::GreaterThanOrEqualTo)
    } else if s == seq!['<' as u8] {
        Some(Operator::SmallerThan)
    } else if s == seq!['<' as u8, '=' as u8] {
        Some(Operator::SmallerThanOrEqualTo)
    } else if s == seq!['~' as u8] {
        Some(Operator::Contains)
    } else if s == seq!['^' as u8] {
        Some(Operator::StartsWith)
    } else {
        None
    }
}

/// Resolve an operator symbol token; an unrecognized symbol is a syntax error
/// carrying the token.
pub fn get_operator(op_str: &[u8]) -> (r: Result<Operator, ScriptError>)
    ensures
        match r {
            Ok(op) => operator_of_symbol(op_str@) == Some(op),
            Err(e) => operator_of_symbol(op_str@) is None && e@ == ScriptErrorV::UnknownSymbol(
                op_str@,
            ),
        },
{
    if op_str.len() == 1 {
        let b = op_str[0];
        proof {
            assert(op_str@ =~= seq![op_str@[0]]);
        }
        if b == ('=' as u8) {
            Ok(Operator::Equals)
        } else if b == ('>' as u8) {
            Ok(Operator::GreaterThan)
        } else if b == ('<' as u8) {
            Ok(Operator::SmallerThan)
        } else if b == ('~' as u8) {
            Ok(Operator::Contains)
        } else if b == ('^' as u8) {
            Ok(Operator::StartsWith)
        } else {
            Err(ScriptError::UnknownSymbol(vstd::slice::slice_to_vec(op_str)))
        }
    } else if op_str.len() == 2 {
        let b0 = op_str[0];
        let b1 = op_str[1];
        proof {
            assert(op_str@ =~= seq![op_str@[0], op_str@[1]]);
        }
        if b0 == ('!' as u8) && b1 == ('=' as u8) {
            Ok(Operator::NotEquals)
        } else if b0 == ('>' as u8) && b1 == ('=' as u8) {
            Ok(Operator::GreaterThanOrEqualTo)
        } else if b0 == ('<' as u8) && b1 == ('=' as u8) {
            Ok(Operator::SmallerThanOrEqualTo)
        } else {
            Err(ScriptError::UnknownSymbol(vstd::slice::slice_to_vec(op_str)))
        }
    } else {
        Err(ScriptError::UnknownSymbol(vstd::slice::slice_to_vec(op_str)))
    }
}

/// The left side relates to the right side under an order operator, both read
/// as exact decimal numerals; false when either side does not parse.
pub open spec fn numeric_relation(op: Operator, left: Seq<u8>, right: Seq<u8>) -> bool {
    match (parse_dec_spec(left), parse_dec_spec(right)) {
        (Some(a), Some(b)) => {
            let va = dec_num(a, b.scale as nat);
            let vb = dec_num(b, a.scale as nat);
            match op {
                Operator::GreaterThan => va > vb,
                Operator::SmallerThan => va < vb,
                Operator::GreaterThanOrEqualTo => va >= vb,
                Operator::SmallerThanOrEqualTo => va <= vb,
                _ => false,
            }
        },
        _ => false,
    }
}

/// What one operator says of a left and a right value.
pub open spec fn do_operation_spec(op: Operator, left: Seq<u8>, right: Seq<u8>) -> bool {
    match op {
        Operator::Unknown => false,
        Operator::Equals => left == right,
        Operator::NotEquals => left != right,
        Operator::Contains => contains_spec(left, right),
        Operator::StartsWith => starts_with_spec(left, right),
        Operator::GreaterThan => numeric_relation(op, left, right),
        Operator::SmallerThan => numeric_relation(op, left, right),
        Operator::GreaterThanOrEqualTo => numeric_relation(op, left, right),
        Operator::SmallerThanOrEqualTo => numeric_relation(op, left, right),
    }
}

/// Evaluate one operator against a left and a right value. Never fails: the
/// sentinel and unparsable numeric comparisons are false.
pub fn do_operation(operation: &Operator, left: &[u8], right: &[u8]) -> (r: bool)
    ensures
        r == do_operation_spec(*operation, left@, right@),
{
    match operation {
        Operator::Unknown => false,
        Operator::Equals => crate::bytes::bytes_eq(left, right),
        Operator::NotEquals => !crate::bytes::bytes_eq(left, right),
        Operator::Contains => contains(left, right),
        Operator::StartsWith => starts_with(left, right),
        Operator::GreaterThan | Operator::SmallerThan | Operator::GreaterThanOrEqualTo
            | Operator::SmallerThanOrEqualTo => {
            let l_val = parse_dec(left);
            let r_val = parse_dec(right);
            match (l_val, r_val) {
                (Some(a), Some(b)) => {
                    let c = compare_dec(&a, &b);
                    match operation {
                        Operator::GreaterThan => matches!(c, NumCmp::Greater),
                        Operator::SmallerThan => matches!(c, NumCmp::Less),
                        Operator::GreaterThanOrEqualTo => !matches!(c, NumCmp::Less),
                        Operator::SmallerThanOrEqualTo => !matches!(c, NumCmp::Greater),
                        _ => false,
                    }
                },
                _ => false,
            }
        },
    }
}

/// One assertion from an `<assert>` block: a key, an operator, and the
/// expected value.
#[derive(Clone, Debug, Default)]
pub struct TestCase {
    pub key: Vec<u8>,
    pub value: Vec<u8>,
    pub operation: Operator,
}

/// The spec-level shape of a [`TestCase`].
pub struct TestCaseV {
    pub key: Seq<u8>,
    pub value: Seq<u8>,
    pub operation: Operator,
}

impl View for TestCase {
    type V = TestCaseV;

    open spec fn view(&self) -> TestCaseV {
        TestCaseV { key: self.key@, value: self.value@, operation: self.operation }
    }
}

} // verus!

use crate::bytes::dec_str_spec;
use crate::http::{get_header_spec, Response, ResponseV};
use crate::markers::{kw_body, kw_status, m_kw_body, m_kw_status};

verus! {

/// The left-hand value an assertion key resolves to: the decoded body for
/// `body`, the decimal form of the status for `status`, and otherwise the
/// named header's value, an absent header reading as empty.
pub open spec fn left_value_spec(resp: ResponseV, key: Seq<u8>) -> Seq<u8> {
    if key == m_kw_body() {
        resp.body
    } else if key == m_kw_status() {
        dec_str_spec(resp.status as nat)
    } else {
        match get_header_spec(resp.headers, key) {
            Some(v) => v,
            None => Seq::empty(),
        }
    }
}

/// One assertion evaluated against response facts.
pub open spec fn test_case_spec(resp: ResponseV, case: TestCaseV) -> bool {
    do_operation_spec(case.operation, left_value_spec(resp, case.key), case.value)
}

/// Evaluate one assertion against a response: resolve the key to the body,
/// the status, or a header value, then apply the operator. Never fails.
pub fn test_case(response: &Response, case: &TestCase) -> (r: bool)
    ensures
        r == test_case_spec(response@, case@),
{
    if crate::bytes::bytes_eq(case.key.as_slice(), kw_body()) {
        do_operation(&case.operation, response.body.as_slice(), case.value.as_slice())
    } else if crate::bytes::bytes_eq(case.key.as_slice(), kw_status()) {
        let status_str = crate::bytes::u64_to_dec(response.status as u64);
        do_operation(&case.operation, status_str.as_slice(), case.value.as_slice())
    } else {
        match response.get_header(case.key.as_slice()) {
            Some(v) => do_operation(&case.operation, v.as_slice(), case.value.as_slice()),
            None => {
                let empty: Vec<u8> = Vec::new();
                do_operation(&case.operation, empty.as_slice(), case.value.as_slice())
            },
        }
    }
}

} // verus!

verus! {

/// The display symbol of an operator, as bytes.
pub open spec fn symbol_bytes(op: Operator) -> Seq<u8> {
    symbol_spec(op).map_values(|c: char| c as u8)
}

/// Law: the symbol table is bidirectional. Reading back the symbol an
/// operator displays as yields that operator again, for every operator that
/// parsing can produce; only the sentinel `Unknown` has no parseable symbol.
pub proof fn lemma_symbols_bidirectional(op: Operator)
    requires
        op != Operator::Unknown,
    ensures
        operator_of_symbol(symbol_bytes(op)) == Some(op),
{
    reveal_strlit("=");
    reveal_strlit("!=");
    reveal_strlit(">");
    reveal_strlit(">=");
    reveal_strlit("<");
    reveal_strlit("<=");
    reveal_strlit("~");
    reveal_strlit("^");
    assert(('=' as u8) == 61);
    assert(('!' as u8) == 33);
    assert(('>' as u8) == 62);
    assert(('<' as u8) == 60);
    assert(('~' as u8) == 126);
    assert(('^' as u8) == 94);
    assert(seq!['=' as u8][0] == 61);
    assert(seq!['>' as u8][0] == 62);
    assert(seq!['<' as u8][0] == 60);
    assert(seq!['~' as u8][0] == 126);
    assert(seq!['^' as u8][0] == 94);
    assert(seq!['!' as u8, '=' as u8][0] == 33);
    assert(seq!['>' as u8, '=' as u8][0] == 62);
    assert(seq!['<' as u8, '=' as u8][0] == 60);
    let b = symbol_bytes(op);
    match op {
        Operator::Unknown => {},
        Operator::Equals => {
            assert(b =~= seq!['=' as u8]);
        },
        Operator::NotEquals => {
            assert(b =~= seq!['!' as u8, '=' as u8]);
        },
        Operator::GreaterThan => {
            assert(b =~= seq!['>' as u8]);
        },
        Operator::GreaterThanOrEqualTo => {
            assert(b =~= seq!['>' as u8, '=' as u8]);
        },
        Operator::SmallerThan => {
            assert(b =~= seq!['<' as u8]);
        },
        Operator::SmallerThanOrEqualTo => {
            assert(b =~= seq!['<' as u8, '=' as u8]);
        },
        Operator::Contains => {
            assert(b =~= seq!['~' as u8]);
        },
        Operator::StartsWith => {
            assert(b =~= seq!['^' as u8]);
        },
    }
}

} // verus!
