use croncat::balance::{has_coins, query_has_balance, Balance, Coin, Cw20CoinVerified, NativeBalance};
use croncat::contract::{execute, instantiate, query_result, ExecuteMsg, InstantiateMsg};
use croncat::json::{json_equal, parse_json, resolve_path, JsonNumber, JsonValue, ValueIndex};
use croncat::rules::{
    compare_values, evaluate_rule, parse_u128_decimal, query_check_owner_nft, query_construct,
    ConstructError, GenericQuery,
    query_dao_proposal_status, query_get_balance, query_get_cw20_balance, Rule, RuleError, Status,
    ValueOrdering,
};

fn coin(denom: &str, amount: u128) -> Coin {
    Coin { denom: denom.to_string(), amount }
}

fn native(coins: Vec<Coin>) -> Balance {
    Balance::Native(NativeBalance(coins))
}

fn cw20(address: &str, amount: u128) -> Balance {
    Balance::Cw20(Cw20CoinVerified { address: address.to_string(), amount })
}

#[test]
fn has_coins_reads_the_first_coin_of_the_denomination() {
    let coins = vec![coin("atom", 5), coin("juno", 10), coin("atom", 50)];
    assert!(has_coins(&coins, &coin("atom", 5)));
    assert!(!has_coins(&coins, &coin("atom", 6)));
    assert!(has_coins(&coins, &coin("juno", 10)));
    assert!(!has_coins(&coins, &coin("osmo", 0)));
}

#[test]
fn native_balances() {
    let current = native(vec![coin("atom", 5), coin("juno", 10)]);
    let (ok, data) = query_has_balance(current.clone(), native(vec![coin("juno", 9), coin("atom", 5)])).unwrap();
    assert!(ok);
    assert_eq!(data, None);
    let (ok, _) = query_has_balance(current.clone(), native(vec![coin("juno", 11)])).unwrap();
    assert!(!ok);
    let (ok, _) = query_has_balance(current.clone(), native(vec![])).unwrap();
    assert!(ok);
    // a balance meets itself
    let (ok, _) = query_has_balance(current.clone(), current).unwrap();
    assert!(ok);
}

#[test]
fn cw20_balances() {
    let (ok, _) = query_has_balance(cw20("token", 100), cw20("token", 100)).unwrap();
    assert!(ok);
    let (ok, _) = query_has_balance(cw20("token", 99), cw20("token", 100)).unwrap();
    assert!(!ok);
    let (ok, _) = query_has_balance(cw20("other", 1000), cw20("token", 100)).unwrap();
    assert!(!ok);
    let (ok, _) = query_has_balance(cw20("token", 1000), native(vec![])).unwrap();
    assert!(!ok);
    let (ok, _) = query_has_balance(native(vec![coin("token", 1000)]), cw20("token", 1)).unwrap();
    assert!(!ok);
}

#[test]
fn balance_answers() {
    assert_eq!(query_get_balance(0).unwrap(), (true, None));
    assert_eq!(query_get_balance(1234).unwrap(), (true, Some(b"\"1234\"".to_vec())));
    assert_eq!(query_get_cw20_balance(0).unwrap(), (true, None));
    assert_eq!(
        query_get_cw20_balance(u128::MAX).unwrap(),
        (true, Some(format!("\"{}\"", u128::MAX).into_bytes()))
    );
}

#[test]
fn owner_and_proposal_answers() {
    assert_eq!(query_check_owner_nft("alice".to_string(), "alice".to_string()).unwrap(), (true, None));
    assert_eq!(query_check_owner_nft("alice".to_string(), "bob".to_string()).unwrap(), (false, None));
    assert_eq!(query_dao_proposal_status(Status::Passed, Status::Passed).unwrap(), (true, None));
    assert_eq!(query_dao_proposal_status(Status::Open, Status::Passed).unwrap(), (false, None));
}

#[test]
fn responses_report_their_method() {
    let r = query_result().unwrap();
    assert_eq!(r.attributes.len(), 1);
    assert_eq!(r.attributes[0].key, "method");
    assert_eq!(r.attributes[0].value, "query_result");
    let r = execute(ExecuteMsg::QueryResult {}).unwrap();
    assert_eq!(r.attributes[0].value, "query_result");
    let r = instantiate(InstantiateMsg {}).unwrap();
    assert_eq!(r.attributes[0].key, "method");
    assert_eq!(r.attributes[0].value, "instantiate");
}

fn s(text: &str) -> JsonValue {
    JsonValue::String(text.to_string())
}

fn n(value: u64) -> JsonValue {
    JsonValue::Number(JsonNumber::PosInt(value))
}

// {"balance": {"amounts": ["12", "700"], "count": 2}}
fn sample() -> JsonValue {
    JsonValue::Object(vec![(
        "balance".to_string(),
        JsonValue::Object(vec![
            ("amounts".to_string(), JsonValue::Array(vec![s("12"), s("700")])),
            ("count".to_string(), n(2)),
        ]),
    )])
}

fn key(k: &str) -> ValueIndex {
    ValueIndex::Key(k.to_string())
}

#[test]
fn paths() {
    let v = sample();
    let gets = vec![key("balance"), key("amounts"), ValueIndex::Number(1)];
    assert!(json_equal(resolve_path(&v, &gets).unwrap(), &s("700")));
    assert!(json_equal(resolve_path(&v, &vec![]).unwrap(), &v));
    assert_eq!(resolve_path(&v, &vec![key("missing")]).err(), Some(RuleError::InvalidKey));
    assert_eq!(
        resolve_path(&v, &vec![key("balance"), key("amounts"), ValueIndex::Number(2)]).err(),
        Some(RuleError::InvalidIndex)
    );
    // a key into an array and an index into an object lead nowhere
    assert_eq!(
        resolve_path(&v, &vec![key("balance"), key("amounts"), key("0")]).err(),
        Some(RuleError::InvalidKey)
    );
    assert_eq!(resolve_path(&v, &vec![ValueIndex::Number(0)]).err(), Some(RuleError::InvalidIndex));
    assert_eq!(RuleError::InvalidKey.message(), "Invalid key for value");
    assert_eq!(RuleError::InvalidIndex.message(), "Invalid index for value");
}

#[test]
fn comparisons() {
    assert_eq!(compare_values(ValueOrdering::UnitAbove, &s("700"), &s("12")), Ok(true));
    assert_eq!(compare_values(ValueOrdering::UnitBelow, &s("700"), &s("12")), Ok(false));
    assert_eq!(compare_values(ValueOrdering::UnitAboveEqual, &s("12"), &s("012")), Ok(true));
    assert_eq!(compare_values(ValueOrdering::UnitBelowEqual, &n(3), &n(2)), Ok(false));
    assert_eq!(compare_values(ValueOrdering::UnitBelow, &n(2), &n(3)), Ok(true));
    assert_eq!(compare_values(ValueOrdering::UnitAbove, &s("12a"), &s("1")), Err(RuleError::ParseNumber));
    assert_eq!(compare_values(ValueOrdering::UnitAbove, &s(""), &s("1")), Err(RuleError::ParseNumber));
    assert_eq!(compare_values(ValueOrdering::UnitAbove, &n(12), &s("1")), Err(RuleError::ParseNumber));
    assert_eq!(
        compare_values(ValueOrdering::UnitAbove, &s("340282366920938463463374607431768211456"), &s("1")),
        Err(RuleError::ParseNumber)
    );
    assert_eq!(
        compare_values(ValueOrdering::UnitAbove, &s("340282366920938463463374607431768211455"), &s("1")),
        Ok(true)
    );
    assert_eq!(compare_values(ValueOrdering::Equal, &sample(), &sample()), Ok(true));
    assert_eq!(compare_values(ValueOrdering::Equal, &n(12), &s("12")), Ok(false));
    assert_eq!(parse_u128_decimal(&"0042".to_string()), Some(42));
    assert_eq!(parse_u128_decimal(&"4 2".to_string()), None);
}

#[test]
fn rules_evaluate_on_the_answer() {
    let v = sample();
    let gets = vec![key("balance"), key("count")];
    assert_eq!(evaluate_rule(&v, &gets, ValueOrdering::UnitAboveEqual, &n(2)), Ok(true));
    assert_eq!(evaluate_rule(&v, &gets, ValueOrdering::UnitAbove, &n(2)), Ok(false));
    assert_eq!(evaluate_rule(&v, &vec![key("nope")], ValueOrdering::Equal, &n(2)), Err(RuleError::InvalidKey));
}

fn rule(name: &str) -> Rule {
    Rule { contract_addr: name.to_string(), msg: vec![] }
}

fn count_query(ordering: ValueOrdering, expected: u64) -> GenericQuery {
    GenericQuery {
        contract_addr: String::new(),
        msg: vec![],
        gets: vec![key("balance"), key("count")],
        ordering,
        value: n(expected),
    }
}

#[test]
fn construct_stops_at_the_first_rule_that_does_not_hold() {
    let fetched = std::cell::RefCell::new(Vec::new());
    // {"balance": {"amounts": ["12", "700"], "count": 2}}
    let answer = br#"{"balance": {"count": 2, "amounts": ["12", "700"]}}"#.to_vec();
    let fetch = |r: &Rule| -> Result<(GenericQuery, Vec<u8>), String> {
        fetched.borrow_mut().push(r.contract_addr.clone());
        match r.contract_addr.as_str() {
            // the answer's count is 2
            "yes" => Ok((count_query(ValueOrdering::UnitAboveEqual, 2), answer.clone())),
            "no" => Ok((count_query(ValueOrdering::UnitAbove, 2), answer.clone())),
            "garbled" => Ok((count_query(ValueOrdering::UnitAbove, 2), b"{\"balance\": ".to_vec())),
            "nopath" => Ok((
                GenericQuery {
                    contract_addr: String::new(),
                    msg: vec![],
                    gets: vec![key("missing")],
                    ordering: ValueOrdering::Equal,
                    value: n(0),
                },
                answer.clone(),
            )),
            _ => Err(format!("cannot query {}", r.contract_addr)),
        }
    };
    assert!(matches!(query_construct(&vec![], &fetch), Ok(true)));
    assert!(matches!(query_construct(&vec![rule("yes"), rule("yes")], &fetch), Ok(true)));
    fetched.borrow_mut().clear();
    assert!(matches!(query_construct(&vec![rule("yes"), rule("no"), rule("bad")], &fetch), Ok(false)));
    assert_eq!(*fetched.borrow(), vec!["yes".to_string(), "no".to_string()]);
    match query_construct(&vec![rule("bad"), rule("no")], &fetch) {
        Err(ConstructError::Query(e)) => assert_eq!(e, "cannot query bad"),
        other => panic!("unexpected {:?}", other),
    }
    match query_construct(&vec![rule("yes"), rule("nopath"), rule("no")], &fetch) {
        Err(ConstructError::Rule(e)) => assert_eq!(e, RuleError::InvalidKey),
        other => panic!("unexpected {:?}", other),
    }
    match query_construct(&vec![rule("garbled"), rule("bad")], &fetch) {
        Err(ConstructError::Parse(message)) => assert!(message.contains("EOF")),
        other => panic!("unexpected {:?}", other),
    }
}

#[test]
fn parsed_answers() {
    let parsed = parse_json(br#"{"b": [1, -2, 2.5, "x", null, true], "a": {}}"#).unwrap();
    let expected = JsonValue::Object(vec![
        ("a".to_string(), JsonValue::Object(vec![])),
        (
            "b".to_string(),
            JsonValue::Array(vec![
                n(1),
                JsonValue::Number(JsonNumber::NegInt(-2)),
                JsonValue::Number(JsonNumber::Float("2.5".to_string())),
                s("x"),
                JsonValue::Null,
                JsonValue::Bool(true),
            ]),
        ),
    ]);
    // members come in key order
    assert!(json_equal(&parsed, &expected));
    assert!(parse_json(b"[1, 2").is_err());
    // negative zero equals zero
    assert!(json_equal(
        &JsonValue::Number(JsonNumber::Float("-0.0".to_string())),
        &JsonValue::Number(JsonNumber::Float("0.0".to_string()))
    ));
}

#[test]
fn a_path_in_two_parts_leads_where_the_whole_path_does() {
    let v = sample();
    let first = vec![key("balance")];
    let rest = vec![key("amounts"), ValueIndex::Number(0)];
    let whole = vec![key("balance"), key("amounts"), ValueIndex::Number(0)];
    let midway = resolve_path(&v, &first).unwrap();
    assert!(json_equal(resolve_path(midway, &rest).unwrap(), resolve_path(&v, &whole).unwrap()));
    assert!(json_equal(resolve_path(&v, &whole).unwrap(), &s("12")));
}

#[test]
fn orderings_are_complementary() {
    let pairs = vec![(n(1), n(2)), (n(2), n(2)), (s("10"), s("9")), (s("5"), s("x"))];
    for (a, b) in pairs.iter() {
        let above = compare_values(ValueOrdering::UnitAbove, a, b);
        let below_eq = compare_values(ValueOrdering::UnitBelowEqual, a, b);
        assert_eq!(above.is_ok(), below_eq.is_ok());
        if let (Ok(x), Ok(y)) = (above.clone(), below_eq) {
            assert_eq!(x, !y);
        }
        assert_eq!(above, compare_values(ValueOrdering::UnitBelow, b, a));
        assert_eq!(compare_values(ValueOrdering::Equal, a, a), Ok(true));
    }
}
