use vstd::prelude::*;

verus! {

/// A key-value pair that a response reports.
#[derive(Clone, Debug)]
pub struct Attribute {
    pub key: String,
    pub value: String,
}

/// What a contract call answers: the attributes it reports.
#[derive(Clone, Debug)]
pub struct Response {
    pub attributes: Vec<Attribute>,
}

/// The message that instantiates the contract; it carries nothing.
#[derive(Clone, Debug)]
pub struct InstantiateMsg {}

/// The messages that the contract executes.
#[derive(Clone, Debug)]
pub enum ExecuteMsg {
    /// Echo: answers with the method name only.
    QueryResult {},
}

/// Why a contract call failed.
#[derive(Clone, Debug)]
pub enum ContractError {
    /// An error of the chain's standard library, with its message.
    Std(String),
}

/// The response holds exactly one attribute, `method` with the given value.
pub open spec fn reports_method(response: Response, method: Seq<char>) -> bool {
    &&& response.attributes@.len() == 1
    &&& response.attributes@[0].key@ == "method"@
    &&& response.attributes@[0].value@ == method
}

fn method_response(method: &str) -> (res: Response)
    ensures
        reports_method(res, method@),
{
    let mut attributes: Vec<Attribute> = Vec::new();
    attributes.push(Attribute { key: "method".to_string(), value: method.to_string() });
    Response { attributes }
}

/// The response to instantiation (after the contract version has been stored).
pub fn instantiate(_msg: InstantiateMsg) -> (res: Result<Response, ContractError>)
    ensures
        res matches Ok(r) && reports_method(r, "instantiate"@),
{
    Ok(method_response("instantiate"))
}

/// Executes a message.
pub fn execute(msg: ExecuteMsg) -> (res: Result<Response, ContractError>)
    ensures
        res matches Ok(r) && reports_method(r, "query_result"@),
{
    match msg {
        ExecuteMsg::QueryResult {} => query_result(),
    }
}

/// The answer to the echo message.
pub fn query_result() -> (res: Result<Response, ContractError>)
    ensures
        res matches Ok(r) && reports_method(r, "query_result"@),
{
    Ok(method_response("query_result"))
}

} // verus!
