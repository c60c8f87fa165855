use vstd::prelude::*;

use crate::text::{decimal, push_decimal, string_of};

verus! {

broadcast use vstd::string::group_string_axioms;

/// The fields of a Lambda invocation that decide how it is answered; each is
/// `None` when it is missing or not a string.
#[derive(Debug)]
pub struct LambdaRequest {
    /// `lambda_rq_type`
    pub rq_type: Option<String>,
    /// `url`
    pub url: Option<String>,
    /// `query`
    pub query: Option<String>,
    /// `queryStringParameters.q`, as API Gateway passes a query string
    pub query_string_q: Option<String>,
}

/// What to do for a Lambda invocation.
#[derive(Debug)]
pub enum LambdaAction {
    /// Register the Telegram webhook at this URL.
    RegisterWebhook(String),
    /// Remove the Telegram webhook.
    RemoveWebhook,
    /// Answer this search query with an HTML page.
    Query(String),
    /// Answer with this text.
    Reply(String),
    /// The invocation is a Telegram update for the bot.
    TelegramUpdate,
}

/// The query of a request: its `query` field, else its query-string `q`.
pub open spec fn extract_query_spec(rq: LambdaRequest) -> Option<Seq<char>> {
    match rq.query {
        Some(q) => Some(q@),
        None => match rq.query_string_q {
            Some(q) => Some(q@),
            None => None,
        },
    }
}

/// The query of a request: its `query` field, else its query-string `q`.
pub fn extract_query(rq: &LambdaRequest) -> (q: Option<&str>)
    ensures
        q matches Some(s) ==> extract_query_spec(*rq) == Some(s@),
        q is None ==> extract_query_spec(*rq) is None,
{
    match &rq.query {
        Some(q) => Some(q.as_str()),
        None => match &rq.query_string_q {
            Some(q) => Some(q.as_str()),
            None => None,
        },
    }
}

/// `a` is the action with which `rq` is answered.
pub open spec fn routes_to(rq: LambdaRequest, a: LambdaAction) -> bool {
    match rq.rq_type {
        None => a is TelegramUpdate,
        Some(t) => if t@ == "register_webhook"@ {
            match rq.url {
                None => a matches LambdaAction::Reply(m) && m@ == "'url' property is missing"@,
                Some(u) => a matches LambdaAction::RegisterWebhook(v) && v@ == u@,
            }
        } else if t@ == "remove_webhook"@ {
            a is RemoveWebhook
        } else if t@ == "query"@ {
            match extract_query_spec(rq) {
                None => a matches LambdaAction::Reply(m) && m@ == "'query' property is missing"@,
                Some(q) => a matches LambdaAction::Query(v) && v@ == q,
            }
        } else {
            a matches LambdaAction::Reply(m) && m@ == "Unknown message type: "@ + t@
        },
    }
}

/// A query invocation is answered with the HLTB result page for its query:
/// the string `query` field when there is one, else the query-string `q`;
/// without either it is answered that the query is missing.
pub proof fn law_query_invocation_answers_its_query(rq: LambdaRequest, a: LambdaAction)
    requires
        routes_to(rq, a),
        rq.rq_type matches Some(t) && t@ == "query"@,
    ensures
        rq.query matches Some(q) ==> (a matches LambdaAction::Query(v) && v@ == q@),
        rq.query is None ==> (rq.query_string_q matches Some(q) ==> (a matches LambdaAction::Query(v)
            && v@ == q@)),
        rq.query is None && rq.query_string_q is None ==> (a matches LambdaAction::Reply(m) && m@
            == "'query' property is missing"@),
{
    reveal_strlit("query");
    reveal_strlit("register_webhook");
    reveal_strlit("remove_webhook");
    assert("query"@ != "register_webhook"@ && "query"@ != "remove_webhook"@) by {
        assert("query"@.len() != "register_webhook"@.len());
        assert("query"@[0] != "remove_webhook"@[0]);
    }
}

/// An invocation without a type is a Telegram update; a webhook registration
/// registers the invocation's URL; a removal removes the webhook.
pub proof fn law_other_invocations(rq: LambdaRequest, a: LambdaAction)
    requires
        routes_to(rq, a),
    ensures
        rq.rq_type is None ==> a is TelegramUpdate,
        rq.rq_type matches Some(t) && t@ == "register_webhook"@ ==> (rq.url matches Some(u) ==> (
        a matches LambdaAction::RegisterWebhook(v) && v@ == u@)),
        rq.rq_type matches Some(t) && t@ == "remove_webhook"@ ==> a is RemoveWebhook,
{
    reveal_strlit("register_webhook");
    reveal_strlit("remove_webhook");
    assert("register_webhook"@ != "remove_webhook"@) by {
        assert("register_webhook"@[2] != "remove_webhook"@[2]);
    }
}

/// Decides how a Lambda invocation is answered.
pub fn route_request(rq: &LambdaRequest) -> (a: LambdaAction)
    ensures
        routes_to(*rq, a),
{
    match &rq.rq_type {
        None => LambdaAction::TelegramUpdate,
        Some(t) => {
            if string_of(t.as_str()) == string_of("register_webhook") {
                match &rq.url {
                    None => LambdaAction::Reply(string_of("'url' property is missing")),
                    Some(url) => LambdaAction::RegisterWebhook(string_of(url.as_str())),
                }
            } else if string_of(t.as_str()) == string_of("remove_webhook") {
                LambdaAction::RemoveWebhook
            } else if string_of(t.as_str()) == string_of("query") {
                match extract_query(rq) {
                    None => LambdaAction::Reply(string_of("'query' property is missing")),
                    Some(q) => LambdaAction::Query(string_of(q)),
                }
            } else {
                let mut m = string_of("Unknown message type: ");
                m.append(t.as_str());
                LambdaAction::Reply(m)
            }
        },
    }
}

/// The HTML page that answers a query sent through Lambda.
pub open spec fn query_result_page_spec(
    initial_msg: Seq<char>,
    final_msg: Seq<char>,
    initial_ms: nat,
    total_ms: nat,
) -> Seq<char> {
    "\n<html>\n<head>\n<title>HLTB Query Result</title>\n</head>\n<body>\n<h1>Initial Message</h1>\n<pre>"@
        + initial_msg + "</pre>\n<br/>\n<h1>Final Message</h1>\n<pre>"@ + final_msg
        + "</pre>\n\n<hr>\n<p><small>initial: "@ + decimal(initial_ms) + "ms; total: "@ + decimal(
        total_ms,
    ) + "ms</small></p>\n</html>\n"@
}

/// The HTML page that shows both messages of a query and how long each took.
pub fn query_result_page(initial_msg: &str, final_msg: &str, initial_ms: u128, total_ms: u128) -> (page:
    String)
    ensures
        page@ == query_result_page_spec(initial_msg@, final_msg@, initial_ms as nat, total_ms as nat),
{
    let mut page = string_of(
        "\n<html>\n<head>\n<title>HLTB Query Result</title>\n</head>\n<body>\n<h1>Initial Message</h1>\n<pre>",
    );
    page.append(initial_msg);
    page.append("</pre>\n<br/>\n<h1>Final Message</h1>\n<pre>");
    page.append(final_msg);
    page.append("</pre>\n\n<hr>\n<p><small>initial: ");
    push_decimal(&mut page, initial_ms);
    page.append("ms; total: ");
    push_decimal(&mut page, total_ms);
    page.append("ms</small></p>\n</html>\n");
    page
}

/// Whether the process serves invocations through the AWS Lambda runtime: it
/// does when the runtime has set either `AWS_LAMBDA_RUNTIME_API` or
/// `AWS_EXECUTION_ENV`; the values are those of the two variables, `None`
/// when unset. Otherwise an invocation is handled directly.
pub fn should_use_aws_runtime(runtime_api: &Option<String>, execution_env: &Option<String>) -> (b: bool)
    ensures
        b == (runtime_api is Some || execution_env is Some),
{
    runtime_api.is_some() || execution_env.is_some()
}

} // verus!
