//! The evaluation engine: timed passes of every loaded rule over one event.

use vstd::prelude::*;
use vstd::string::to_string_from_display_ensures;
use crate::external::json_event_accepted;
use crate::loader::LoadedRule;

verus! {

/// One rule's classification within one pass, and the time its match took.
pub struct RuleOutcome {
    pub title: String,
    pub matched: bool,
    pub elapsed_nanos: u128,
}

/// One pass over the rule set against one event.
pub struct RunResult {
    /// The pass's ordinal, counted from 1.
    pub run_number: usize,
    /// One outcome per rule, in rule-set order.
    pub outcomes: Vec<RuleOutcome>,
    /// The sum of the outcomes' times, saturating at `u128::MAX`.
    pub total_nanos: u128,
}

/// A log record that cannot be turned into an event.
pub enum AdaptError {
    InvalidRecord,
}

/// The sum of the outcomes' times.
pub open spec fn elapsed_sum(outcomes: Seq<RuleOutcome>) -> int
    decreases outcomes.len(),
{
    if outcomes.len() == 0 {
        0
    } else {
        elapsed_sum(outcomes.drop_last()) + outcomes.last().elapsed_nanos
    }
}

/// `x`, saturated to the range of `u128`.
pub open spec fn saturate(x: int) -> u128 {
    if x <= u128::MAX {
        x as u128
    } else {
        u128::MAX
    }
}

/// The outcomes name the rules one for one, in rule-set order.
pub open spec fn outcomes_follow(outcomes: Seq<RuleOutcome>, rules: Seq<LoadedRule>) -> bool {
    &&& outcomes.len() == rules.len()
    &&& forall|i: int| 0 <= i < outcomes.len() ==> (#[trigger] outcomes[i]).title == rules[i].title
}

/// `run` is the pass numbered `run_number` over `rules`.
pub open spec fn is_pass_of(run: RunResult, rules: Seq<LoadedRule>, run_number: int) -> bool {
    &&& run.run_number == run_number
    &&& outcomes_follow(run.outcomes@, rules)
    &&& run.total_nanos == saturate(elapsed_sum(run.outcomes@))
}

/// `runs` are the passes numbered 1 to `run_count` over `rules`, in order.
pub open spec fn are_passes_of(runs: Seq<RunResult>, rules: Seq<LoadedRule>, run_count: int) -> bool {
    &&& runs.len() == run_count
    &&& forall|i: int| 0 <= i < runs.len() ==> is_pass_of(#[trigger] runs[i], rules, i + 1)
}

/// Some text form of `record` is one that the event parser does, or does
/// not, accept, as `accepted` says.
pub open spec fn record_text_accepted(record: serde_json::Value, accepted: bool) -> bool {
    exists|text: String|
        to_string_from_display_ensures::<serde_json::Value>(&record, text)
            && #[trigger] json_event_accepted(text@) == accepted
}

/// The total time of a pass: the sum of its outcomes' times, saturating.
pub fn total_elapsed(outcomes: &Vec<RuleOutcome>) -> (r: u128)
    ensures
        r == saturate(elapsed_sum(outcomes@)),
{
    let mut total: u128 = 0;
    let mut i: usize = 0;
    while i < outcomes.len()
        invariant
            0 <= i <= outcomes@.len(),
            total == saturate(elapsed_sum(outcomes@.subrange(0, i as int))),
        decreases outcomes@.len() - i,
    {
        proof {
            lemma_elapsed_sum_nonnegative(outcomes@.subrange(0, i as int));
        }
        total = add_saturating(
            total,
            outcomes[i].elapsed_nanos,
            Ghost(elapsed_sum(outcomes@.subrange(0, i as int))),
        );
        assert(outcomes@.subrange(0, i + 1).drop_last() =~= outcomes@.subrange(0, i as int));
        i = i + 1;
    }
    assert(outcomes@.subrange(0, outcomes@.len() as int) =~= outcomes@);
    total
}

proof fn lemma_elapsed_sum_nonnegative(outcomes: Seq<RuleOutcome>)
    ensures
        elapsed_sum(outcomes) >= 0,
    decreases outcomes.len(),
{
    if outcomes.len() > 0 {
        lemma_elapsed_sum_nonnegative(outcomes.drop_last());
    }
}

fn add_saturating(total: u128, more: u128, Ghost(sum): Ghost<int>) -> (r: u128)
    requires
        sum >= 0,
        total == saturate(sum),
    ensures
        r == saturate(sum + more),
{
    if total > u128::MAX - more {
        u128::MAX
    } else {
        total + more
    }
}

/// One pass: every rule is matched against the event once, in order, and
/// the time of each match alone is recorded, whatever its answer.
pub fn run_pass(rules: &Vec<LoadedRule>, event: &sigma_rust::Event, run_number: usize) -> (r:
    RunResult)
    ensures
        is_pass_of(r, rules@, run_number as int),
{
    let mut outcomes: Vec<RuleOutcome> = Vec::new();
    let mut total: u128 = 0;
    let mut i: usize = 0;
    while i < rules.len()
        invariant
            0 <= i <= rules@.len(),
            outcomes_follow(outcomes@, rules@.subrange(0, i as int)),
            total == saturate(elapsed_sum(outcomes@)),
        decreases rules@.len() - i,
    {
        let rule = &rules[i];
        let start = std::time::Instant::now();
        let matched = rule.rule.is_match(event);
        let elapsed_nanos = start.elapsed().as_nanos();
        let outcome = RuleOutcome { title: rule.title.clone(), matched, elapsed_nanos };
        proof {
            let next = outcomes@.push(outcome);
            assert(next.drop_last() =~= outcomes@);
        }
        proof {
            lemma_elapsed_sum_nonnegative(outcomes@);
        }
        total = add_saturating(total, elapsed_nanos, Ghost(elapsed_sum(outcomes@)));
        outcomes.push(outcome);
        i = i + 1;
    }
    assert(rules@.subrange(0, rules@.len() as int) =~= rules@);
    RunResult { run_number, outcomes, total_nanos: total }
}

/// `run_count` independent passes over the rule set against one event,
/// numbered from 1.
pub fn evaluate(rules: &Vec<LoadedRule>, event: &sigma_rust::Event, run_count: usize) -> (r: Vec<
    RunResult,
>)
    ensures
        are_passes_of(r@, rules@, run_count as int),
{
    let mut runs: Vec<RunResult> = Vec::new();
    let mut i: usize = 0;
    while i < run_count
        invariant
            0 <= i <= run_count,
            are_passes_of(runs@, rules@, i as int),
        decreases run_count - i,
    {
        let run = run_pass(rules, event, i + 1);
        runs.push(run);
        i = i + 1;
    }
    runs
}

/// Turns the text of a log record into an event.
pub fn adapt_text(text: &str) -> (r: Result<sigma_rust::Event, AdaptError>)
    ensures
        r is Ok <==> json_event_accepted(text@),
{
    match sigma_rust::event_from_json(text) {
        Ok(event) => Ok(event),
        Err(_) => Err(AdaptError::InvalidRecord),
    }
}

/// Turns a log record into an event, through the record's JSON text.
pub fn adapt(record: &serde_json::Value) -> (r: Result<sigma_rust::Event, AdaptError>)
    ensures
        record_text_accepted(*record, r is Ok),
{
    let text = record.to_string();
    let r = adapt_text(text.as_str());
    assert(json_event_accepted(text@) == r is Ok);
    r
}

/// Adapts one log record once and runs `run_count` passes against it; a
/// record that cannot be adapted is reported, not evaluated.
pub fn evaluate_record(record: &serde_json::Value, rules: &Vec<LoadedRule>, run_count: usize) -> (r:
    Result<Vec<RunResult>, AdaptError>)
    ensures
        record_text_accepted(*record, r is Ok),
        r matches Ok(runs) ==> are_passes_of(runs@, rules@, run_count as int),
{
    match adapt(record) {
        Ok(event) => Ok(evaluate(rules, &event, run_count)),
        Err(e) => Err(e),
    }
}

/// Evaluates each log record on its own, in order: one result per record.
pub fn evaluate_records(records: &Vec<serde_json::Value>, rules: &Vec<LoadedRule>, run_count: usize) -> (r:
    Vec<Result<Vec<RunResult>, AdaptError>>)
    ensures
        r@.len() == records@.len(),
        forall|i: int|
            0 <= i < r@.len() ==> {
                &&& record_text_accepted(records@[i], #[trigger] r@[i] is Ok)
                &&& r@[i] matches Ok(runs) ==> are_passes_of(runs@, rules@, run_count as int)
            },
{
    let mut results: Vec<Result<Vec<RunResult>, AdaptError>> = Vec::new();
    let mut i: usize = 0;
    while i < records.len()
        invariant
            0 <= i <= records@.len(),
            results@.len() == i,
            forall|k: int|
                0 <= k < i ==> {
                    &&& record_text_accepted(records@[k], #[trigger] results@[k] is Ok)
                    &&& results@[k] matches Ok(runs) ==> are_passes_of(
                        runs@,
                        rules@,
                        run_count as int,
                    )
                },
        decreases records@.len() - i,
    {
        let result = evaluate_record(&records[i], rules, run_count);
        results.push(result);
        i = i + 1;
    }
    results
}

} // verus!
