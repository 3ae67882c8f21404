//! The request-handling path: plan one provider call from an inbound body
//! and the configuration, decide the route, and map each outcome of the
//! outbound call to the uniform caller-visible response.

use vstd::prelude::*;

use crate::config::Config;
use crate::json::escape_chars;
use crate::json::escape_spec;
use crate::json::lemma_escape_round_trip;
use crate::json::lemma_parse_escaped;
use crate::json::parse_string_spec;
use crate::request::parse_request;
use crate::request::parse_request_spec;
use crate::text::chars_to_string;
use crate::text::str_eq;
use crate::text::str_to_chars;

verus! {

/// The provider's record-creation endpoint for a zone.
pub open spec fn dns_record_url_spec(zone_id: Seq<char>) -> Seq<char> {
    "https://api.cloudflare.com/client/v4/zones/"@ + zone_id + "/dns_records"@
}

/// Builds the provider URL that creates DNS records in the given zone.
pub fn create_dns_record_url(zone_id: &str) -> (r: String)
    ensures
        r@ == dns_record_url_spec(zone_id@),
{
    let mut r = String::from_str("https://api.cloudflare.com/client/v4/zones/");
    r.append(zone_id);
    r.append("/dns_records");
    r
}

/// The fully-qualified record name: the requested label, one dot, the zone.
pub open spec fn fqn_spec(name: Seq<char>, zone_name: Seq<char>) -> Seq<char> {
    name + "."@ + zone_name
}

/// Joins the requested label and the configured zone name with one dot.
pub fn fully_qualified_name(name: &str, zone_name: &str) -> (r: String)
    ensures
        r@ == fqn_spec(name@, zone_name@),
{
    let mut r = String::from_str(name);
    r.append(".");
    r.append(zone_name);
    r
}

/// The outbound JSON body: an `A` record for `name` pointing at `content`,
/// with the fixed policy fields (ttl 1, priority 10, proxied), keys in
/// sorted order, string values escaped.
pub open spec fn dns_record_body_spec(name: Seq<char>, content: Seq<char>) -> Seq<char> {
    "{\"content\":\""@ + escape_spec(content) + "\",\"name\":\""@ + escape_spec(name)
        + "\",\"priority\":10,\"proxied\":true,\"ttl\":1,\"type\":\"A\"}"@
}

/// Builds the outbound JSON body for one record.
pub fn create_dns_record_body(name: &str, content: &str) -> (r: String)
    ensures
        r@ == dns_record_body_spec(name@, content@),
{
    let mut r = String::from_str("{\"content\":\"");
    let content_chars = str_to_chars(content);
    let escaped_content = chars_to_string(&escape_chars(&content_chars));
    r.append(escaped_content.as_str());
    r.append("\",\"name\":\"");
    let name_chars = str_to_chars(name);
    let escaped_name = chars_to_string(&escape_chars(&name_chars));
    r.append(escaped_name.as_str());
    r.append("\",\"priority\":10,\"proxied\":true,\"ttl\":1,\"type\":\"A\"}");
    r
}

/// One planned call to the provider: `POST url` with `body`, sent with the
/// client's fixed headers.  Ephemeral: it exists for one request only.
pub struct OutboundRequest {
    pub url: String,
    pub body: String,
}

/// The provider call owed for one inbound body under one configuration: its
/// URL and body, or `None` for bodies the request grammar rejects.  Handling
/// keeps no state, so this is a function of the configuration and the body
/// alone: an identical request repeated plans an identical, independent
/// call, and nothing is deduplicated.
pub open spec fn plan_spec(
    zone_id: Seq<char>,
    zone_name: Seq<char>,
    content: Seq<char>,
    body: Seq<char>,
) -> Option<(Seq<char>, Seq<char>)> {
    match parse_request_spec(body) {
        Some(n) => Some(
            (dns_record_url_spec(zone_id), dns_record_body_spec(fqn_spec(n, zone_name), content)),
        ),
        None => None,
    }
}

/// Plans the provider call for one inbound body: parses the requested name,
/// qualifies it with the configured zone, and composes the provider URL and
/// JSON body.  Returns `None` exactly on the bodies the request grammar
/// rejects; no outbound call is then to be made.
pub fn plan_dns_record(config: &Config, body: &str) -> (r: Option<OutboundRequest>)
    ensures
        match r {
            Some(req) => plan_spec(config.zone_id@, config.zone_name@, config.content@, body@)
                == Some((req.url@, req.body@)),
            None => plan_spec(config.zone_id@, config.zone_name@, config.content@, body@) is None,
        },
        r is Some <==> parse_request_spec(body@) is Some,
{
    match parse_request(body) {
        None => None,
        Some(name) => {
            let f = fully_qualified_name(name.as_str(), config.zone_name.as_str());
            Some(
                OutboundRequest {
                    url: create_dns_record_url(config.zone_id.as_str()),
                    body: create_dns_record_body(f.as_str(), config.content.as_str()),
                },
            )
        },
    }
}

/// What became of one outbound call, as the network edge reports it.
pub enum DispatchOutcome {
    /// The provider answered.  Its status and raw body are recorded for
    /// operators only and are not forwarded to the caller.
    Answered { status: u16, body: String },
    /// The connection, TLS session, or timeout failed; `detail` is recorded
    /// for operators only.
    TransportFailed { detail: String },
}

/// A caller-visible HTTP response.
pub struct Response {
    pub status: u16,
    pub body: String,
}

/// The body every successfully dispatched request reports.
pub open spec fn ok_body_spec() -> Seq<char> {
    "{\"status\":\"ok\"}"@
}

/// The generic body a transport failure reports.
pub open spec fn error_body_spec() -> Seq<char> {
    "{\"status\":\"error\"}"@
}

/// The body a rejected inbound request reports.
pub open spec fn bad_request_body_spec() -> Seq<char> {
    "{\"status\":\"bad request\"}"@
}

/// Maps the outcome of the outbound call to the caller's response: any
/// provider answer, whatever its status, is reported as plain success; a
/// transport failure is reported as a fixed generic internal error, so the
/// caller-visible body never depends on, nor holds, the failure's detail.
pub fn dispatch_response(outcome: &DispatchOutcome) -> (r: Response)
    ensures
        outcome is Answered ==> r.status == 200 && r.body@ == ok_body_spec(),
        outcome is TransportFailed ==> r.status == 500 && r.body@ == error_body_spec(),
{
    match outcome {
        DispatchOutcome::Answered { .. } => Response {
            status: 200,
            body: String::from_str("{\"status\":\"ok\"}"),
        },
        DispatchOutcome::TransportFailed { .. } => Response {
            status: 500,
            body: String::from_str("{\"status\":\"error\"}"),
        },
    }
}

/// The response for an inbound body the request grammar rejects; no
/// outbound call is made for it.
pub fn bad_request_response() -> (r: Response)
    ensures
        r.status == 400 && r.body@ == bad_request_body_spec(),
{
    Response { status: 400, body: String::from_str("{\"status\":\"bad request\"}") }
}

/// The response for any route the service does not serve.
pub fn not_found_response() -> (r: Response)
    ensures
        r.status == 404 && r.body@.len() == 0,
{
    Response { status: 404, body: String::new() }
}

/// Which handler an inbound request line reaches.
#[derive(Clone, Copy, Debug, PartialEq, Eq, Structural)]
pub enum RouteDecision {
    CreateDnsRecord,
    NotFound,
}

/// The service's single route: `POST /api/v1/dns_records`.  Every other
/// method or path, whatever its body, is not found.
pub fn route(method: &str, path: &str) -> (r: RouteDecision)
    ensures
        r == (if method@ == "POST"@ && path@ == "/api/v1/dns_records"@ {
            RouteDecision::CreateDnsRecord
        } else {
            RouteDecision::NotFound
        }),
{
    if str_eq(method, "POST") && str_eq(path, "/api/v1/dns_records") {
        RouteDecision::CreateDnsRecord
    } else {
        RouteDecision::NotFound
    }
}

/// The name slot of the outbound body decodes to the fully-qualified name
/// exactly: one label, one dot, one zone — encoded once, neither doubled
/// nor re-encoded.
pub proof fn lemma_outbound_name_round_trip(name: Seq<char>, zone: Seq<char>)
    ensures
        parse_string_spec(escape_spec(fqn_spec(name, zone)) + seq!['"'], 0) == Some(
            (name + "."@ + zone, escape_spec(fqn_spec(name, zone)).len() as int + 1),
        ),
{
    lemma_escape_round_trip(fqn_spec(name, zone), Seq::<char>::empty());
    assert(escape_spec(fqn_spec(name, zone)) + seq!['"'] + Seq::<char>::empty() =~= escape_spec(
        fqn_spec(name, zone),
    ) + seq!['"']);
}

/// Where the name value starts inside the outbound body for this content.
pub open spec fn body_name_slot(content: Seq<char>) -> int {
    12 + escape_spec(content).len() as int + 10
}

/// Parsing the name slot of the built outbound body yields precisely the
/// fully-qualified name `name + "." + zone`: the body carries it exactly
/// once, with no double concatenation and no double encoding.
pub proof fn lemma_outbound_body_name(name: Seq<char>, zone: Seq<char>, content: Seq<char>)
    ensures
        ({
            let f = fqn_spec(name, zone);
            let body = dns_record_body_spec(f, content);
            parse_string_spec(body, body_name_slot(content)) == Some(
                (name + "."@ + zone, body_name_slot(content) + escape_spec(f).len() + 1),
            )
        }),
{
    reveal_strlit("{\"content\":\"");
    reveal_strlit("\",\"name\":\"");
    reveal_strlit("\",\"priority\":10,\"proxied\":true,\"ttl\":1,\"type\":\"A\"}");
    let f = fqn_spec(name, zone);
    let body = dns_record_body_spec(f, content);
    let pre = "{\"content\":\""@;
    let mid = "\",\"name\":\""@;
    let suf = "\",\"priority\":10,\"proxied\":true,\"ttl\":1,\"type\":\"A\"}"@;
    assert(pre.len() == 12);
    assert(mid.len() == 10);
    assert(suf[0] == '"');
    let pos = body_name_slot(content);
    assert(body.skip(pos) =~= escape_spec(f) + seq!['"'] + suf.skip(1));
    lemma_parse_escaped(body, pos, f, suf.skip(1));
}

} // verus!
