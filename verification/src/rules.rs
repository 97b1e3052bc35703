use vstd::prelude::*;
use cosmwasm_std::{to_binary, StdError, Uint128};
use vstd::string::StrSliceExecFns;
use crate::json::{
    json_parse, parse_json, json_equal, json_view, path_value, path_view, resolve_path, IndexView, JsonNumber, JsonValue, JsonView, NumberView,
    ValueIndex,
};

verus! {

#[verifier::external_type_specification]
#[verifier::external_body]
pub struct ExStdError(StdError);

/// Why evaluating a rule failed.
#[derive(Clone, Debug, PartialEq, Eq, Structural)]
pub enum RuleError {
    /// A key of the query path names no member of the value.
    InvalidKey,
    /// An index of the query path names no element of the value.
    InvalidIndex,
    /// A value could not be read as a number.
    ParseNumber,
}

impl RuleError {
    /// The message that reports the error.
    pub fn message(&self) -> (res: String)
        ensures
            res@ == match self {
                RuleError::InvalidKey => "Invalid key for value"@,
                RuleError::InvalidIndex => "Invalid index for value"@,
                RuleError::ParseNumber => "Failed to parse number"@,
            },
    {
        match self {
            RuleError::InvalidKey => "Invalid key for value".to_string(),
            RuleError::InvalidIndex => "Invalid index for value".to_string(),
            RuleError::ParseNumber => "Failed to parse number".to_string(),
        }
    }
}

/// The answer to a rule query: whether the rule holds, and data that goes with it.
pub type RuleResponse<T> = (bool, T);

/// The status of a DAO proposal.
#[derive(Clone, Copy, Debug, PartialEq, Eq, Structural)]
pub enum Status {
    Open,
    Rejected,
    Passed,
    Executed,
    Closed,
    ExecutionFailed,
}

/// The ASCII decimal digits of `n`, most significant first, without leading zeros.
pub open spec fn decimal_digits(n: nat) -> Seq<u8>
    decreases n,
{
    if n < 10 {
        seq![(48 + n) as u8]
    } else {
        decimal_digits(n / 10).push((48 + n % 10) as u8)
    }
}

/// The JSON encoding of a 128-bit amount: its decimal digits as a JSON string.
pub open spec fn amount_json(amount: u128) -> Seq<u8> {
    seq![34u8] + decimal_digits(amount as nat) + seq![34u8]
}

/// Calls `cosmwasm_std::to_binary` on a `Uint128`. Claimed: it succeeds and
/// gives the JSON string of the amount's decimal digits (`Uint128` serialises
/// as the string of its base-10 `Display`, and serde-json-wasm writes a string
/// of digits between quotes, unescaped, without failing).
#[verifier::external_body]
fn uint128_to_binary(amount: u128) -> (res: Result<Vec<u8>, StdError>)
    ensures
        res is Ok,
        res matches Ok(bytes) ==> bytes@ == amount_json(amount),
{
    match to_binary(&Uint128::new(amount)) {
        Ok(binary) => Ok(binary.0),
        Err(e) => Err(e),
    }
}

/// The data that goes with a balance that holds: none for an empty balance,
/// else the JSON encoding of the amount.
pub open spec fn amount_data(amount: u128) -> Option<Seq<u8>> {
    if amount == 0 {
        None
    } else {
        Some(amount_json(amount))
    }
}

/// The view of rule data.
pub open spec fn data_view(data: Option<Vec<u8>>) -> Option<Seq<u8>> {
    match data {
        Some(bytes) => Some(bytes@),
        None => None,
    }
}

/// The answer to a native balance query, given the queried amount: the rule
/// holds, with the amount as data unless it is zero.
pub fn query_get_balance(amount: u128) -> (res: Result<RuleResponse<Option<Vec<u8>>>, RuleError>)
    ensures
        res matches Ok(r) && r.0 && data_view(r.1) == amount_data(amount),
{
    if amount == 0 {
        Ok((true, None))
    } else {
        Ok((true, uint128_to_binary(amount).ok()))
    }
}

/// The answer to a cw20 balance query, given the queried amount: the rule
/// holds, with the amount as data unless it is zero.
pub fn query_get_cw20_balance(balance: u128) -> (res: Result<RuleResponse<Option<Vec<u8>>>, RuleError>)
    ensures
        res matches Ok(r) && r.0 && data_view(r.1) == amount_data(balance),
{
    let amount = if balance == 0 {
        None
    } else {
        match uint128_to_binary(balance) {
            Ok(bytes) => Some(bytes),
            Err(_) => {
                proof {
                    assert(false);
                }
                None
            },
        }
    };
    Ok((true, amount))
}

/// The answer to an NFT ownership query, given the queried owner: the rule
/// holds when the address is the owner.
pub fn query_check_owner_nft(address: String, owner: String) -> (res: Result<
    RuleResponse<Option<Vec<u8>>>,
    RuleError,
>)
    ensures
        res matches Ok(r) && r.0 == (address@ == owner@) && r.1 is None,
{
    Ok((address == owner, None))
}

/// The answer to a DAO proposal query, given the proposal's status: the rule
/// holds when the proposal has the expected status.
pub fn query_dao_proposal_status(proposal_status: Status, status: Status) -> (res: Result<
    RuleResponse<Option<Vec<u8>>>,
    RuleError,
>)
    ensures
        res matches Ok(r) && r.0 == (proposal_status == status) && r.1 is None,
{
    Ok((proposal_status == status, None))
}


/// How the value a rule reads is compared with the expected one.
#[derive(Clone, Copy, Debug, PartialEq, Eq, Structural)]
pub enum ValueOrdering {
    /// The value is above the expected one.
    UnitAbove,
    /// The value is at or above the expected one.
    UnitAboveEqual,
    /// The value is below the expected one.
    UnitBelow,
    /// The value is at or below the expected one.
    UnitBelowEqual,
    /// The value equals the expected one.
    Equal,
}

/// The value of a string of decimal digits.
pub open spec fn decimal_value(s: Seq<char>) -> int
    decreases s.len(),
{
    if s.len() == 0 {
        0
    } else {
        decimal_value(s.drop_last()) * 10 + (s.last() as int - '0' as int)
    }
}

/// Every character of `s` is a decimal digit.
pub open spec fn all_digits(s: Seq<char>) -> bool {
    forall|i: int| 0 <= i < s.len() ==> '0' <= #[trigger] s[i] <= '9'
}

/// `s` is a nonempty string of decimal digits whose value fits in a `u128`.
pub open spec fn is_u128_decimal(s: Seq<char>) -> bool {
    &&& s.len() > 0
    &&& all_digits(s)
    &&& decimal_value(s) <= u128::MAX
}

/// How `ordering` relates two numbers.
pub open spec fn ordered(ordering: ValueOrdering, x: int, y: int) -> bool {
    match ordering {
        ValueOrdering::UnitAbove => x > y,
        ValueOrdering::UnitAboveEqual => x >= y,
        ValueOrdering::UnitBelow => x < y,
        ValueOrdering::UnitBelowEqual => x <= y,
        ValueOrdering::Equal => x == y,
    }
}

/// Compares `current` with `expected`: `Equal` compares any two values;
/// the other orderings compare two non-negative integer numbers, or two
/// strings of decimal digits by their values, and fail on anything else.
pub open spec fn compare(ordering: ValueOrdering, current: JsonView, expected: JsonView) -> Result<bool, RuleError> {
    if ordering == ValueOrdering::Equal {
        Ok(current == expected)
    } else {
        match (current, expected) {
            (JsonView::String(a), JsonView::String(b)) => if is_u128_decimal(a) && is_u128_decimal(b) {
                Ok(ordered(ordering, decimal_value(a), decimal_value(b)))
            } else {
                Err(RuleError::ParseNumber)
            },
            (JsonView::Number(NumberView::PosInt(a)), JsonView::Number(NumberView::PosInt(b))) => Ok(
                ordered(ordering, a as int, b as int),
            ),
            _ => Err(RuleError::ParseNumber),
        }
    }
}

/// The value of a string of digits is at least that of each of its prefixes.
proof fn lemma_decimal_prefix(s: Seq<char>, j: int)
    requires
        all_digits(s),
        0 <= j <= s.len(),
    ensures
        0 <= decimal_value(s.take(j)) <= decimal_value(s),
    decreases s.len(),
{
    if s.len() > 0 {
        if j == s.len() {
            assert(s.take(j) =~= s);
            lemma_decimal_prefix(s.drop_last(), j - 1);
            assert(s.drop_last().take(j - 1) =~= s.drop_last());
        } else {
            lemma_decimal_prefix(s.drop_last(), j);
            assert(s.drop_last().take(j) =~= s.take(j));
        }
        assert(s.drop_last().take(s.len() - 1) =~= s.drop_last());
        lemma_decimal_prefix(s.drop_last(), s.len() - 1);
    } else {
        assert(s.take(j) =~= s);
    }
}

/// Reads a string of decimal digits as a `u128`; `None` for an empty string,
/// another character, or a value past `u128::MAX`.
pub fn parse_u128_decimal(s: &String) -> (res: Option<u128>)
    ensures
        res is Some == is_u128_decimal(s@),
        res matches Some(v) ==> v == decimal_value(s@),
{
    let text = s.as_str();
    let len = text.unicode_len();
    if len == 0 {
        return None;
    }
    let mut acc: u128 = 0;
    let mut i: usize = 0;
    while i < len
        invariant
            len == s@.len(),
            text@ == s@,
            i <= len,
            all_digits(s@.take(i as int)),
            acc == decimal_value(s@.take(i as int)),
        decreases len - i,
    {
        let c = text.get_char(i);
        proof {
            assert(s@.take(i + 1).drop_last() =~= s@.take(i as int));
            assert(s@.take(i + 1).last() == c);
        }
        if c < '0' || c > '9' {
            proof {
                assert(!all_digits(s@));
            }
            return None;
        }
        let digit = (c as u32 - '0' as u32) as u128;
        if acc > (u128::MAX - digit) / 10 {
            proof {
                assert(all_digits(s@.take(i + 1)));
                assert(decimal_value(s@.take(i + 1)) > u128::MAX) by (nonlinear_arith)
                    requires
                        decimal_value(s@.take(i + 1)) == acc * 10 + digit,
                        acc > (u128::MAX - digit) / 10,
                        0 <= digit <= 9,
                {
                }
                if all_digits(s@) {
                    lemma_decimal_prefix(s@, i + 1);
                }
            }
            return None;
        }
        proof {
            assert(acc * 10 + digit <= u128::MAX) by (nonlinear_arith)
                requires
                    acc <= (u128::MAX - digit) / 10,
                    0 <= digit <= 9,
            {
            }
        }
        acc = acc * 10 + digit;
        i = i + 1;
    }
    proof {
        assert(s@.take(len as int) =~= s@);
    }
    Some(acc)
}

fn ordered_exec(ordering: ValueOrdering, x: u128, y: u128) -> (res: bool)
    ensures
        res == ordered(ordering, x as int, y as int),
{
    match ordering {
        ValueOrdering::UnitAbove => x > y,
        ValueOrdering::UnitAboveEqual => x >= y,
        ValueOrdering::UnitBelow => x < y,
        ValueOrdering::UnitBelowEqual => x <= y,
        ValueOrdering::Equal => x == y,
    }
}

/// Compares the value a rule reads with the expected one (see `compare`).
pub fn compare_values(ordering: ValueOrdering, current: &JsonValue, expected: &JsonValue) -> (res: Result<bool, RuleError>)
    ensures
        res == compare(ordering, json_view(*current), json_view(*expected)),
{
    if let ValueOrdering::Equal = ordering {
        return Ok(json_equal(current, expected));
    }
    match (current, expected) {
        (JsonValue::String(a), JsonValue::String(b)) => {
            match (parse_u128_decimal(a), parse_u128_decimal(b)) {
                (Some(x), Some(y)) => Ok(ordered_exec(ordering, x, y)),
                _ => Err(RuleError::ParseNumber),
            }
        },
        (JsonValue::Number(JsonNumber::PosInt(a)), JsonValue::Number(JsonNumber::PosInt(b))) => {
            Ok(ordered_exec(ordering, *a as u128, *b as u128))
        },
        _ => Err(RuleError::ParseNumber),
    }
}

/// What a rule evaluates to on the value its query answered: the value the
/// path leads to, compared with the expected one.
pub open spec fn rule_outcome(
    value: JsonView,
    gets: Seq<IndexView>,
    ordering: ValueOrdering,
    expected: JsonView,
) -> Result<bool, RuleError> {
    match path_value(value, gets) {
        Ok(found) => compare(ordering, found, expected),
        Err(e) => Err(e),
    }
}

/// Evaluates a rule on the value its query answered.
pub fn evaluate_rule(
    value: &JsonValue,
    gets: &Vec<ValueIndex>,
    ordering: ValueOrdering,
    expected: &JsonValue,
) -> (res: Result<bool, RuleError>)
    ensures
        res == rule_outcome(json_view(*value), path_view(gets@), ordering, json_view(*expected)),
{
    match resolve_path(value, gets) {
        Ok(current_val) => compare_values(ordering, current_val, expected),
        Err(e) => Err(e),
    }
}


/// Every value equals itself; `UnitAbove` and `UnitBelowEqual` (likewise
/// `UnitBelow` and `UnitAboveEqual`) answer opposite on the same values when
/// either answers; and swapping the values swaps `UnitAbove` with `UnitBelow`.
pub proof fn lemma_compare_laws(a: JsonView, b: JsonView)
    ensures
        compare(ValueOrdering::Equal, a, a) == Ok::<bool, RuleError>(true),
        compare(ValueOrdering::UnitAbove, a, b) is Ok == compare(ValueOrdering::UnitBelowEqual, a, b) is Ok,
        compare(ValueOrdering::UnitAbove, a, b) matches Ok(x) ==> compare(
            ValueOrdering::UnitBelowEqual,
            a,
            b,
        ) == Ok::<bool, RuleError>(!x),
        compare(ValueOrdering::UnitBelow, a, b) matches Ok(x) ==> compare(
            ValueOrdering::UnitAboveEqual,
            a,
            b,
        ) == Ok::<bool, RuleError>(!x),
        compare(ValueOrdering::UnitAbove, a, b) == compare(ValueOrdering::UnitBelow, b, a),
{
}

/// Two non-negative integers compare by their values, the first against the
/// second, under every ordering.
pub proof fn lemma_integer_orderings(a: u64, b: u64)
    ensures
        compare(ValueOrdering::UnitAbove, JsonView::Number(NumberView::PosInt(a)), JsonView::Number(NumberView::PosInt(b)))
            == Ok::<bool, RuleError>(a > b),
        compare(ValueOrdering::UnitAboveEqual, JsonView::Number(NumberView::PosInt(a)), JsonView::Number(NumberView::PosInt(b)))
            == Ok::<bool, RuleError>(a >= b),
        compare(ValueOrdering::UnitBelow, JsonView::Number(NumberView::PosInt(a)), JsonView::Number(NumberView::PosInt(b)))
            == Ok::<bool, RuleError>(a < b),
        compare(ValueOrdering::UnitBelowEqual, JsonView::Number(NumberView::PosInt(a)), JsonView::Number(NumberView::PosInt(b)))
            == Ok::<bool, RuleError>(a <= b),
        compare(ValueOrdering::Equal, JsonView::Number(NumberView::PosInt(a)), JsonView::Number(NumberView::PosInt(b)))
            == Ok::<bool, RuleError>(a == b),
{
}

/// Two strings of decimal digits compare by the numbers they write, the
/// first against the second, not by their text.
pub proof fn lemma_decimal_orderings(a: Seq<char>, b: Seq<char>)
    requires
        is_u128_decimal(a),
        is_u128_decimal(b),
    ensures
        compare(ValueOrdering::UnitAbove, JsonView::String(a), JsonView::String(b)) == Ok::<bool, RuleError>(
            decimal_value(a) > decimal_value(b),
        ),
        compare(ValueOrdering::UnitAboveEqual, JsonView::String(a), JsonView::String(b)) == Ok::<bool, RuleError>(
            decimal_value(a) >= decimal_value(b),
        ),
        compare(ValueOrdering::UnitBelow, JsonView::String(a), JsonView::String(b)) == Ok::<bool, RuleError>(
            decimal_value(a) < decimal_value(b),
        ),
        compare(ValueOrdering::UnitBelowEqual, JsonView::String(a), JsonView::String(b)) == Ok::<bool, RuleError>(
            decimal_value(a) <= decimal_value(b),
        ),
{
}

/// `Equal` answers whether the two values are the same; the other orderings
/// fail on a string that is not all digits, and on a number compared with a
/// string.
pub proof fn lemma_equality_and_refusals(a: JsonView, b: JsonView, text: Seq<char>, n: u64, ordering: ValueOrdering)
    ensures
        compare(ValueOrdering::Equal, a, b) == Ok::<bool, RuleError>(a == b),
        ordering != ValueOrdering::Equal && !all_digits(text) ==> compare(ordering, JsonView::String(text), b)
            == Err::<bool, RuleError>(RuleError::ParseNumber) && compare(ordering, a, JsonView::String(text))
            == Err::<bool, RuleError>(RuleError::ParseNumber),
        ordering != ValueOrdering::Equal ==> compare(
            ordering,
            JsonView::Number(NumberView::PosInt(n)),
            JsonView::String(text),
        ) == Err::<bool, RuleError>(RuleError::ParseNumber) && compare(
            ordering,
            JsonView::String(text),
            JsonView::Number(NumberView::PosInt(n)),
        ) == Err::<bool, RuleError>(RuleError::ParseNumber),
{
}

/// `10` to the power `n`.
pub open spec fn ten_to(n: nat) -> int
    decreases n,
{
    if n == 0 { 1 } else { 10 * ten_to((n - 1) as nat) }
}

proof fn lemma_ten_to_grows(m: nat, n: nat)
    requires
        m <= n,
    ensures
        1 <= ten_to(m) <= ten_to(n),
    decreases n,
{
    if n > m {
        lemma_ten_to_grows(m, (n - 1) as nat);
    } else if n > 0 {
        lemma_ten_to_grows(0, (n - 1) as nat);
    }
}

/// A string of `n` digits writes a number below `10^n`, and at least
/// `10^(n-1)` when it does not start with `0`.
proof fn lemma_decimal_bounds(s: Seq<char>)
    requires
        all_digits(s),
    ensures
        0 <= decimal_value(s) < ten_to(s.len()),
        s.len() > 0 && s[0] != '0' ==> decimal_value(s) >= ten_to((s.len() - 1) as nat),
    decreases s.len(),
{
    if s.len() > 0 {
        let t = s.drop_last();
        assert(all_digits(t)) by {
            assert forall|i: int| 0 <= i < t.len() implies '0' <= #[trigger] t[i] <= '9' by {
                assert(t[i] == s[i]);
            }
        }
        lemma_decimal_bounds(t);
        assert('0' <= s[s.len() - 1] <= '9');
        if s.len() > 1 {
            assert(t[0] == s[0]);
            lemma_ten_to_grows(0, (t.len() - 1) as nat);
        }
    }
}

/// A string of digits that does not start with `0` compares above every
/// shorter string of digits, and below none of them: strings of digits are
/// ordered by the numbers they write, not as text.
pub proof fn lemma_more_digits_is_more(a: Seq<char>, b: Seq<char>)
    requires
        is_u128_decimal(a),
        is_u128_decimal(b),
        a.len() > b.len(),
        a[0] != '0',
    ensures
        compare(ValueOrdering::UnitAbove, JsonView::String(a), JsonView::String(b)) == Ok::<bool, RuleError>(true),
        compare(ValueOrdering::UnitBelowEqual, JsonView::String(a), JsonView::String(b)) == Ok::<bool, RuleError>(false),
        compare(ValueOrdering::UnitBelow, JsonView::String(b), JsonView::String(a)) == Ok::<bool, RuleError>(true),
{
    lemma_decimal_bounds(a);
    lemma_decimal_bounds(b);
    lemma_ten_to_grows(b.len(), (a.len() - 1) as nat);
}

/// The value a rule's path leads to is the left operand of the comparison:
/// with the found integer `a` and the expected integer `b`, `UnitAbove`
/// answers `a > b`, `UnitBelow` answers `a < b`, and so on.
pub proof fn lemma_found_value_is_left_operand(value: JsonView, gets: Seq<IndexView>, a: u64, b: u64)
    requires
        path_value(value, gets) == Ok::<JsonView, RuleError>(JsonView::Number(NumberView::PosInt(a))),
    ensures
        rule_outcome(value, gets, ValueOrdering::UnitAbove, JsonView::Number(NumberView::PosInt(b)))
            == Ok::<bool, RuleError>(a > b),
        rule_outcome(value, gets, ValueOrdering::UnitAboveEqual, JsonView::Number(NumberView::PosInt(b)))
            == Ok::<bool, RuleError>(a >= b),
        rule_outcome(value, gets, ValueOrdering::UnitBelow, JsonView::Number(NumberView::PosInt(b)))
            == Ok::<bool, RuleError>(a < b),
        rule_outcome(value, gets, ValueOrdering::UnitBelowEqual, JsonView::Number(NumberView::PosInt(b)))
            == Ok::<bool, RuleError>(a <= b),
{
}

/// A rule: a query to a contract whose answer decides whether it holds.
#[derive(Clone, Debug)]
pub struct Rule {
    /// The contract to query.
    pub contract_addr: String,
    /// The encoded query description (a `GenericQuery`).
    pub msg: Vec<u8>,
}

/// A query description: the query to send, the path to the value of
/// interest in the answer, and how that value must compare with the expected one.
#[derive(Debug)]
pub struct GenericQuery {
    pub contract_addr: String,
    pub msg: Vec<u8>,
    pub gets: Vec<ValueIndex>,
    pub ordering: ValueOrdering,
    pub value: JsonValue,
}

/// Why checking a list of rules failed: fetching a rule's answer failed, the
/// answer is no JSON (with the parser's message), or evaluating the rule on
/// it did.
#[derive(Debug)]
pub enum ConstructError<E> {
    Query(E),
    Parse(String),
    Rule(RuleError),
}

/// The view of a rule's outcome.
pub enum ConstructErrorView<E> {
    Query(E),
    Parse(Seq<char>),
    Rule(RuleError),
}

pub open spec fn outcome_view<E>(outcome: Result<bool, ConstructError<E>>) -> Result<bool, ConstructErrorView<E>> {
    match outcome {
        Ok(b) => Ok(b),
        Err(ConstructError::Query(e)) => Err(ConstructErrorView::Query(e)),
        Err(ConstructError::Parse(m)) => Err(ConstructErrorView::Parse(m@)),
        Err(ConstructError::Rule(e)) => Err(ConstructErrorView::Rule(e)),
    }
}

/// What a rule evaluates to on its query description and a parsed answer.
pub open spec fn answer_outcome(query: GenericQuery, answer: JsonView) -> Result<bool, RuleError> {
    rule_outcome(answer, path_view(query.gets@), query.ordering, json_view(query.value))
}

/// What a rule evaluates to on its query description and the answer's bytes.
pub open spec fn fetched_outcome<E>(fetched: (GenericQuery, Vec<u8>)) -> Result<bool, ConstructErrorView<E>> {
    match json_parse(fetched.1@) {
        Err(message) => Err(ConstructErrorView::Parse(message)),
        Ok(answer) => match answer_outcome(fetched.0, answer) {
            Ok(b) => Ok(b),
            Err(e) => Err(ConstructErrorView::Rule(e)),
        },
    }
}

/// Checking `rule` may give `outcome`: `fetch` may fail with the error, or it
/// may give a query description and the answer's bytes on which the rule
/// evaluates to the outcome.
pub open spec fn rule_may_give<E, F: Fn(&Rule) -> Result<(GenericQuery, Vec<u8>), E>>(
    fetch: F,
    rule: Rule,
    outcome: Result<bool, ConstructError<E>>,
) -> bool {
    match outcome {
        Err(ConstructError::Query(e)) => call_ensures(fetch, (&rule,), Err(e)),
        _ => exists|fetched: (GenericQuery, Vec<u8>)|
            #[trigger] call_ensures(fetch, (&rule,), Ok(fetched)) && fetched_outcome::<E>(fetched) == outcome_view(
                outcome,
            ),
    }
}

/// The answer to a list of rules: `true` only when every rule may give
/// `true`; otherwise the answer of some rule, all rules before which may
/// give `true`.
pub open spec fn construct_answer<E, F: Fn(&Rule) -> Result<(GenericQuery, Vec<u8>), E>>(
    fetch: F,
    rules: Seq<Rule>,
    res: Result<bool, ConstructError<E>>,
) -> bool {
    &&& res == Ok::<bool, ConstructError<E>>(true) ==> forall|i: int|
        0 <= i < rules.len() ==> #[trigger] rule_may_give(fetch, rules[i], Ok(true))
    &&& res != Ok::<bool, ConstructError<E>>(true) ==> exists|i: int|
        0 <= i < rules.len() && #[trigger] rule_may_give(fetch, rules[i], res) && forall|j: int|
            0 <= j < i ==> #[trigger] rule_may_give(fetch, rules[j], Ok(true))
}

/// Checks the rules in order: `fetch` queries a rule's contract and gives the
/// rule's query description and the bytes of the contract's answer, which
/// are parsed as JSON and on which the rule is evaluated (`evaluate_rule`).
/// Answers whether all rules hold, stopping at the first rule that does not
/// hold, with `false`, or that fails, with its error; rules after it are not
/// fetched.
pub fn query_construct<E, F: Fn(&Rule) -> Result<(GenericQuery, Vec<u8>), E>>(
    rules: &Vec<Rule>,
    fetch: F,
) -> (res: Result<bool, ConstructError<E>>)
    requires
        forall|i: int| 0 <= i < rules@.len() ==> call_requires(fetch, (&rules@[i],)),
    ensures
        construct_answer(fetch, rules@, res),
{
    let mut i: usize = 0;
    while i < rules.len()
        invariant
            i <= rules@.len(),
            forall|k: int| 0 <= k < rules@.len() ==> call_requires(fetch, (&rules@[k],)),
            forall|j: int| 0 <= j < i ==> #[trigger] rule_may_give(fetch, rules@[j], Ok(true)),
        decreases rules.len() - i,
    {
        let fetched = fetch(&rules[i]);
        match fetched {
            Err(e) => {
                let res = Err(ConstructError::Query(e));
                proof {
                    assert(rule_may_give(fetch, rules@[i as int], res));
                }
                return res;
            },
            Ok(fetched) => {
                proof {
                    assert(call_ensures(fetch, (&rules@[i as int],), Ok(fetched)));
                }
                let outcome = match parse_json(fetched.1.as_slice()) {
                    Err(message) => Err(ConstructError::Parse(message)),
                    Ok(answer) => match evaluate_rule(&answer, &fetched.0.gets, fetched.0.ordering, &fetched.0.value) {
                        Ok(b) => Ok(b),
                        Err(e) => Err(ConstructError::Rule(e)),
                    },
                };
                proof {
                    assert(fetched_outcome::<E>(fetched) == outcome_view(outcome));
                    assert(rule_may_give(fetch, rules@[i as int], outcome));
                }
                match outcome {
                    Ok(true) => {},
                    _ => {
                        return outcome;
                    },
                }
            },
        }
        i = i + 1;
    }
    Ok(true)
}

/// The answer of a sequence of rule outcomes: the first that is not `true`,
/// or `true` when there is none.
pub open spec fn first_failure<X>(outcomes: Seq<Result<bool, X>>) -> Result<bool, X>
    decreases outcomes.len(),
{
    if outcomes.len() == 0 {
        Ok(true)
    } else if outcomes[0] == Ok::<bool, X>(true) {
        first_failure(outcomes.drop_first())
    } else {
        outcomes[0]
    }
}

proof fn lemma_first_failure_at<X>(outcomes: Seq<Result<bool, X>>, i: int)
    requires
        0 <= i <= outcomes.len(),
        forall|j: int| 0 <= j < i ==> outcomes[j] == Ok::<bool, X>(true),
    ensures
        i == outcomes.len() ==> first_failure(outcomes) == Ok::<bool, X>(true),
        i < outcomes.len() && outcomes[i] != Ok::<bool, X>(true) ==> first_failure(outcomes) == outcomes[i],
    decreases i,
{
    if i > 0 {
        assert forall|j: int| 0 <= j < i - 1 implies outcomes.drop_first()[j] == Ok::<bool, X>(true) by {
            assert(outcomes.drop_first()[j] == outcomes[j + 1]);
        }
        lemma_first_failure_at(outcomes.drop_first(), i - 1);
    }
}

/// With a fetch that answers each rule one way, the answer to a list of rules
/// is that of its first rule that does not hold, or `true` when all hold.
pub proof fn lemma_first_rule_that_fails_decides<E, F: Fn(&Rule) -> Result<(GenericQuery, Vec<u8>), E>>(
    fetch: F,
    rules: Seq<Rule>,
    outcomes: Seq<Result<bool, ConstructErrorView<E>>>,
    res: Result<bool, ConstructError<E>>,
)
    requires
        construct_answer(fetch, rules, res),
        outcomes.len() == rules.len(),
        forall|i: int, o: Result<bool, ConstructError<E>>|
            0 <= i < rules.len() && #[trigger] rule_may_give(fetch, rules[i], o) ==> outcome_view(o)
                == outcomes[i],
    ensures
        outcome_view(res) == first_failure(outcomes),
{
    if res == Ok::<bool, ConstructError<E>>(true) {
        assert forall|j: int| 0 <= j < outcomes.len() implies outcomes[j] == Ok::<bool, ConstructErrorView<E>>(
            true,
        ) by {
            assert(rule_may_give(fetch, rules[j], Ok(true)));
        }
        lemma_first_failure_at(outcomes, outcomes.len() as int);
    } else {
        let i = choose|i: int|
            0 <= i < rules.len() && #[trigger] rule_may_give(fetch, rules[i], res) && forall|j: int|
                0 <= j < i ==> #[trigger] rule_may_give(fetch, rules[j], Ok(true));
        assert forall|j: int| 0 <= j < i implies outcomes[j] == Ok::<bool, ConstructErrorView<E>>(true) by {
            assert(rule_may_give(fetch, rules[j], Ok(true)));
        }
        lemma_first_failure_at(outcomes, i);
    }
}

/// Checking two lists of rules one after the other answers as checking the
/// first, and then, if all of it holds, the second; in particular a rule that
/// does not hold decides, whatever follows it.
pub proof fn lemma_first_failure_concat<X>(first: Seq<Result<bool, X>>, rest: Seq<Result<bool, X>>)
    ensures
        first_failure(first + rest) == if first_failure(first) == Ok::<bool, X>(true) {
            first_failure(rest)
        } else {
            first_failure(first)
        },
        first_failure(seq![Ok::<bool, X>(false)] + rest) == Ok::<bool, X>(false),
    decreases first.len(),
{
    if first.len() == 0 {
        assert(first + rest =~= rest);
    } else {
        assert((first + rest)[0] == first[0]);
        assert((first + rest).drop_first() =~= first.drop_first() + rest);
        lemma_first_failure_concat(first.drop_first(), rest);
    }
    assert((seq![Ok::<bool, X>(false)] + rest)[0] == Ok::<bool, X>(false));
}

} // verus!
