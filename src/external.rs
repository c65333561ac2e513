//! Declarations of the outside types and functions the harness relies on,
//! with the contracts that are assumed of them.

use vstd::prelude::*;
use crate::loader::LoadedRule;

verus! {

#[verifier::external_type_specification]
#[verifier::external_body]
pub struct ExRule(sigma_rust::Rule);

#[verifier::external_type_specification]
#[verifier::external_body]
pub struct ExEvent(sigma_rust::Event);

#[verifier::external_type_specification]
#[verifier::external_body]
pub struct ExJsonValue(serde_json::Value);

#[verifier::external_type_specification]
#[verifier::external_body]
pub struct ExJsonError(serde_json::Error);

#[verifier::external_type_specification]
#[verifier::external_body]
pub struct ExInstant(std::time::Instant);

/// Whether sigma_rust's YAML rule parser accepts the given rule text.
pub uninterp spec fn yaml_rule_accepted(yaml: Seq<char>) -> bool;

/// Whether sigma_rust's JSON event parser accepts the given event text.
pub uninterp spec fn json_event_accepted(json: Seq<char>) -> bool;

/// Relies on sigma_rust::event_from_json: it succeeds exactly on the texts
/// that its deserializer accepts, which depends on the text alone.
pub assume_specification[ sigma_rust::event_from_json ](json: &str) -> (r: Result<
    sigma_rust::Event,
    serde_json::Error,
>)
    ensures
        r is Ok <==> json_event_accepted(json@),
;

/// Relies on sigma_rust::Rule::is_match; nothing is assumed of its answer.
pub assume_specification[ sigma_rust::Rule::is_match ](
    rule: &sigma_rust::Rule,
    event: &sigma_rust::Event,
) -> bool;

/// Relies on std::time::Instant::now; nothing is assumed of the reading.
pub assume_specification[ std::time::Instant::now ]() -> std::time::Instant;

/// Relies on std::time::Instant::elapsed; nothing is assumed of the span.
pub assume_specification[ std::time::Instant::elapsed ](
    instant: &std::time::Instant,
) -> core::time::Duration;

/// Relies on core::time::Duration::as_nanos; nothing is assumed of the count.
pub assume_specification[ core::time::Duration::as_nanos ](
    duration: &core::time::Duration,
) -> u128;

/// Relies on sigma_rust::rule_from_yaml: it succeeds exactly on the texts
/// that its deserializer accepts. A refusal is handed on as the Debug text
/// of the parser's error, and an accepted rule together with its title.
#[verifier::external_body]
pub(crate) fn compile_rule(yaml: &str) -> (r: Result<LoadedRule, String>)
    ensures
        r is Ok <==> yaml_rule_accepted(yaml@),
{
    match sigma_rust::rule_from_yaml(yaml) {
        Ok(rule) => Ok(LoadedRule { title: rule.title.clone(), rule }),
        Err(e) => Err(format!("{:?}", e)),
    }
}

} // verus!
