//! Reports of single passes: the load summary, the pass's totals, and the
//! matched (and, on request, unmatched) rules sorted by title.

use vstd::prelude::*;
use crate::engine::{are_passes_of, is_pass_of, RuleOutcome, RunResult};
use crate::loader::{LoadFailure, LoadedRule, RuleLoads};
use crate::order::{lemma_title_le_total, lemma_title_le_transitive, title_le, title_le_exec};

verus! {

/// A rule as a report lists it.
pub struct RuleEntry {
    pub rule_title: String,
    pub time_taken_micro: u128,
}

/// What a report holds and how it is to be written out.
pub struct RenderOptions {
    /// List each rule with its time, rather than its title alone.
    pub timed: bool,
    /// List the unmatched rules as well as the matched ones.
    pub include_unmatched: bool,
    /// Keep the load diagnostics, rather than the counts alone.
    pub include_errors: bool,
    /// Write the report pretty-printed rather than compact.
    pub pretty: bool,
}

/// The report of one pass.
pub struct Report {
    pub rule_load: RuleLoads,
    pub run_number: usize,
    pub time_taken_milli: u128,
    pub time_taken_micro: u128,
    pub matched_rule_count: usize,
    pub matched_rules: Vec<RuleEntry>,
    pub unmatched_rules: Vec<RuleEntry>,
}

pub open spec fn entry_of(outcome: RuleOutcome) -> RuleEntry {
    RuleEntry { rule_title: outcome.title, time_taken_micro: outcome.elapsed_nanos / 1000 }
}

/// The entries of the outcomes whose classification is `matched`, in order.
pub open spec fn entries_with(outcomes: Seq<RuleOutcome>, matched: bool) -> Seq<RuleEntry>
    decreases outcomes.len(),
{
    if outcomes.len() == 0 {
        Seq::empty()
    } else {
        let rest = entries_with(outcomes.drop_last(), matched);
        if outcomes.last().matched == matched {
            rest.push(entry_of(outcomes.last()))
        } else {
            rest
        }
    }
}

/// How many entries at the front of `s` sort no later than `x`.
pub open spec fn leading_le(s: Seq<RuleEntry>, x: RuleEntry) -> nat
    decreases s.len(),
{
    if s.len() == 0 {
        0
    } else if title_le(s[0].rule_title@, x.rule_title@) {
        1 + leading_le(s.drop_first(), x)
    } else {
        0
    }
}

/// `x` inserted into `s` after every entry in front that sorts no later.
pub open spec fn insert_by_title(s: Seq<RuleEntry>, x: RuleEntry) -> Seq<RuleEntry> {
    s.insert(leading_le(s, x) as int, x)
}

/// The entries sorted by title; entries with equal titles keep their order.
pub open spec fn sort_by_title(s: Seq<RuleEntry>) -> Seq<RuleEntry>
    decreases s.len(),
{
    if s.len() == 0 {
        s
    } else {
        insert_by_title(sort_by_title(s.drop_last()), s.last())
    }
}

pub open spec fn sorted_by_title(s: Seq<RuleEntry>) -> bool {
    forall|i: int, j: int|
        0 <= i < j < s.len() ==> title_le(#[trigger] s[i].rule_title@, #[trigger] s[j].rule_title@)
}

proof fn lemma_leading_le(s: Seq<RuleEntry>, x: RuleEntry)
    ensures
        leading_le(s, x) <= s.len(),
        forall|k: int| 0 <= k < leading_le(s, x) ==> title_le(#[trigger] s[k].rule_title@, x.rule_title@),
        leading_le(s, x) < s.len() ==> !title_le(s[leading_le(s, x) as int].rule_title@, x.rule_title@),
    decreases s.len(),
{
    if s.len() > 0 && title_le(s[0].rule_title@, x.rule_title@) {
        let t = s.drop_first();
        lemma_leading_le(t, x);
        assert forall|k: int| 0 <= k < leading_le(s, x) implies title_le(
            #[trigger] s[k].rule_title@,
            x.rule_title@,
        ) by {
            if k > 0 {
                assert(s[k] == t[k - 1]);
            }
        }
    }
}

proof fn lemma_insert_keeps_sorted(s: Seq<RuleEntry>, x: RuleEntry)
    requires
        sorted_by_title(s),
    ensures
        sorted_by_title(insert_by_title(s, x)),
        insert_by_title(s, x).to_multiset() =~= s.to_multiset().insert(x),
        insert_by_title(s, x).len() == s.len() + 1,
{
    lemma_leading_le(s, x);
    let p = leading_le(s, x) as int;
    let t = insert_by_title(s, x);
    if p < s.len() {
        lemma_title_le_total(s[p].rule_title@, x.rule_title@);
    }
    assert forall|i: int, j: int| 0 <= i < j < t.len() implies title_le(
        #[trigger] t[i].rule_title@,
        #[trigger] t[j].rule_title@,
    ) by {
        if j < p {
            assert(t[i] == s[i] && t[j] == s[j]);
        } else if j == p {
            assert(t[i] == s[i]);
        } else if i == p {
            assert(t[j] == s[j - 1]);
            if j - 1 > p {
                lemma_title_le_transitive(x.rule_title@, s[p].rule_title@, s[j - 1].rule_title@);
            }
        } else if i < p {
            assert(t[i] == s[i] && t[j] == s[j - 1]);
        } else {
            assert(t[i] == s[i - 1] && t[j] == s[j - 1]);
        }
    }
    assert(t.remove(p) =~= s);
    broadcast use vstd::seq_lib::group_to_multiset_ensures;
    assert(t[p] == x);
    assert(t.to_multiset().count(x) > 0);
}

/// Sorting yields entries in title order.
pub proof fn lemma_sort_is_sorted(s: Seq<RuleEntry>)
    ensures
        sorted_by_title(sort_by_title(s)),
        sort_by_title(s).to_multiset() =~= s.to_multiset(),
        sort_by_title(s).len() == s.len(),
    decreases s.len(),
{
    broadcast use vstd::seq_lib::group_to_multiset_ensures;
    if s.len() > 0 {
        let rest = s.drop_last();
        lemma_sort_is_sorted(rest);
        lemma_insert_keeps_sorted(sort_by_title(rest), s.last());
        assert(rest.push(s.last()) =~= s);
    }
}

/// Sorting entries that are already in title order leaves them as they are.
pub proof fn lemma_sort_of_sorted(s: Seq<RuleEntry>)
    requires
        sorted_by_title(s),
    ensures
        sort_by_title(s) == s,
    decreases s.len(),
{
    if s.len() > 0 {
        let rest = s.drop_last();
        assert(sorted_by_title(rest)) by {
            assert forall|i: int, j: int| 0 <= i < j < rest.len() implies title_le(
                #[trigger] rest[i].rule_title@,
                #[trigger] rest[j].rule_title@,
            ) by {
                assert(rest[i] == s[i] && rest[j] == s[j]);
            }
        }
        lemma_sort_of_sorted(rest);
        let x = s.last();
        lemma_leading_le(rest, x);
        if leading_le(rest, x) < rest.len() {
            let p = leading_le(rest, x) as int;
            if p == s.len() - 1 {
            } else {
                assert(rest[p] == s[p]);
                assert(title_le(s[p].rule_title@, s[s.len() - 1].rule_title@));
            }
        }
        assert(rest.insert(rest.len() as int, x) =~= s);
    }
}

/// Sorting twice gives what sorting once gives: the listed order of a
/// report's rules does not change when the same pass is reported again.
pub proof fn lemma_sort_idempotent(s: Seq<RuleEntry>)
    ensures
        sort_by_title(sort_by_title(s)) == sort_by_title(s),
{
    lemma_sort_is_sorted(s);
    lemma_sort_of_sorted(sort_by_title(s));
}

/// Every outcome is listed once, as matched or as unmatched, and the matched
/// entries are at most as many as the rules evaluated.
pub proof fn lemma_entries_partition(outcomes: Seq<RuleOutcome>)
    ensures
        entries_with(outcomes, true).len() + entries_with(outcomes, false).len() == outcomes.len(),
        entries_with(outcomes, true).len() <= outcomes.len(),
    decreases outcomes.len(),
{
    if outcomes.len() > 0 {
        lemma_entries_partition(outcomes.drop_last());
    }
}

impl RuleEntry {
    pub fn copy(&self) -> (r: RuleEntry)
        ensures
            r == *self,
    {
        RuleEntry { rule_title: self.rule_title.clone(), time_taken_micro: self.time_taken_micro }
    }
}

/// Inserts `x` after every entry in front that sorts no later.
pub fn insert_entry(v: &mut Vec<RuleEntry>, x: RuleEntry)
    ensures
        final(v)@ == insert_by_title(old(v)@, x),
{
    let mut j: usize = 0;
    proof {
        assert(v@.subrange(0, v@.len() as int) =~= v@);
    }
    while j < v.len() && title_le_exec(&v[j].rule_title, &x.rule_title)
        invariant
            0 <= j <= v@.len(),
            leading_le(v@, x) == j + leading_le(v@.subrange(j as int, v@.len() as int), x),
        decreases v@.len() - j,
    {
        assert(v@.subrange(j as int, v@.len() as int).drop_first() =~= v@.subrange(
            j + 1,
            v@.len() as int,
        ));
        j = j + 1;
    }
    v.insert(j, x);
}

/// The entries sorted by title; entries with equal titles keep their order.
pub fn sort_entries(v: &Vec<RuleEntry>) -> (r: Vec<RuleEntry>)
    ensures
        r@ == sort_by_title(v@),
        sorted_by_title(r@),
        r@.to_multiset() == v@.to_multiset(),
{
    let mut out: Vec<RuleEntry> = Vec::new();
    let mut i: usize = 0;
    while i < v.len()
        invariant
            0 <= i <= v@.len(),
            out@ == sort_by_title(v@.subrange(0, i as int)),
        decreases v@.len() - i,
    {
        proof {
            lemma_sort_is_sorted(v@.subrange(0, i as int));
        }
        insert_entry(&mut out, v[i].copy());
        assert(v@.subrange(0, i + 1).drop_last() =~= v@.subrange(0, i as int));
        i = i + 1;
    }
    assert(v@.subrange(0, v@.len() as int) =~= v@);
    proof {
        lemma_sort_is_sorted(v@);
    }
    out
}

/// The entries of the outcomes whose classification is `matched`, in order.
pub fn select_entries(outcomes: &Vec<RuleOutcome>, matched: bool) -> (r: Vec<RuleEntry>)
    ensures
        r@ == entries_with(outcomes@, matched),
{
    let mut r: Vec<RuleEntry> = Vec::new();
    let mut i: usize = 0;
    while i < outcomes.len()
        invariant
            0 <= i <= outcomes@.len(),
            r@ == entries_with(outcomes@.subrange(0, i as int), matched),
        decreases outcomes@.len() - i,
    {
        let o = &outcomes[i];
        if o.matched == matched {
            r.push(RuleEntry { rule_title: o.title.clone(), time_taken_micro: o.elapsed_nanos / 1000 });
        }
        assert(outcomes@.subrange(0, i + 1).drop_last() =~= outcomes@.subrange(0, i as int));
        i = i + 1;
    }
    assert(outcomes@.subrange(0, outcomes@.len() as int) =~= outcomes@);
    r
}

impl LoadFailure {
    pub fn copy(&self) -> (r: LoadFailure)
        ensures
            r == *self,
    {
        LoadFailure { path: self.path.clone(), reason: self.reason.clone() }
    }
}

/// `shown` is `loads` as a report shows it: the counts and the load time,
/// and the diagnostics only when they are asked for.
pub open spec fn shows_loads(shown: RuleLoads, loads: RuleLoads, include_errors: bool) -> bool {
    &&& shown.total == loads.total
    &&& shown.successful == loads.successful
    &&& shown.failed == loads.failed
    &&& shown.load_time_milli == loads.load_time_milli
    &&& shown.errors@ == if include_errors {
        loads.errors@
    } else {
        Seq::empty()
    }
}

/// The load summary as a report shows it.
pub fn summarize_loads(loads: &RuleLoads, include_errors: bool) -> (r: RuleLoads)
    ensures
        shows_loads(r, *loads, include_errors),
{
    let mut errors: Vec<LoadFailure> = Vec::new();
    if include_errors {
        let mut i: usize = 0;
        while i < loads.errors.len()
            invariant
                0 <= i <= loads.errors@.len(),
                errors@ == loads.errors@.subrange(0, i as int),
            decreases loads.errors@.len() - i,
        {
            errors.push(loads.errors[i].copy());
            assert(errors@ =~= loads.errors@.subrange(0, i + 1));
            i = i + 1;
        }
        assert(errors@ =~= loads.errors@);
    }
    RuleLoads {
        total: loads.total,
        successful: loads.successful,
        failed: loads.failed,
        load_time_milli: loads.load_time_milli,
        errors,
    }
}

/// `report` is the report of `run` under `options`.
pub open spec fn is_report_of(
    report: Report,
    loads: RuleLoads,
    run: RunResult,
    options: RenderOptions,
) -> bool {
    &&& shows_loads(report.rule_load, loads, options.include_errors)
    &&& report.run_number == run.run_number
    &&& report.time_taken_milli == run.total_nanos / 1_000_000
    &&& report.time_taken_micro == run.total_nanos / 1000
    &&& report.matched_rules@ == sort_by_title(entries_with(run.outcomes@, true))
    &&& report.unmatched_rules@ == if options.include_unmatched {
        sort_by_title(entries_with(run.outcomes@, false))
    } else {
        Seq::empty()
    }
    &&& report.matched_rule_count == report.matched_rules@.len()
}

/// The report of one pass. The matched rules are listed sorted by title,
/// and so are the unmatched ones when they are asked for; the pass itself
/// is left as it was.
pub fn render(loads: &RuleLoads, run: &RunResult, options: &RenderOptions) -> (r: Report)
    ensures
        is_report_of(r, *loads, *run, *options),
        sorted_by_title(r.matched_rules@),
        sorted_by_title(r.unmatched_rules@),
        options.include_unmatched ==> r.matched_rules@.len() + r.unmatched_rules@.len()
            == run.outcomes@.len(),
        r.matched_rules@.len() <= run.outcomes@.len(),
{
    let rule_load = summarize_loads(loads, options.include_errors);
    let matched = select_entries(&run.outcomes, true);
    let matched_rules = sort_entries(&matched);
    let unmatched_rules = if options.include_unmatched {
        let unmatched = select_entries(&run.outcomes, false);
        sort_entries(&unmatched)
    } else {
        Vec::new()
    };
    proof {
        lemma_entries_partition(run.outcomes@);
        lemma_sort_is_sorted(entries_with(run.outcomes@, true));
        lemma_sort_is_sorted(entries_with(run.outcomes@, false));
    }
    Report {
        rule_load,
        run_number: run.run_number,
        time_taken_milli: run.total_nanos / 1_000_000,
        time_taken_micro: run.total_nanos / 1000,
        matched_rule_count: matched_rules.len(),
        matched_rules,
        unmatched_rules,
    }
}

/// One report per pass, in the order of the passes.
pub fn render_all(loads: &RuleLoads, runs: &Vec<RunResult>, options: &RenderOptions) -> (r: Vec<
    Report,
>)
    ensures
        r@.len() == runs@.len(),
        forall|i: int| 0 <= i < r@.len() ==> is_report_of(#[trigger] r@[i], *loads, runs@[i], *options),
{
    let mut reports: Vec<Report> = Vec::new();
    let mut i: usize = 0;
    while i < runs.len()
        invariant
            0 <= i <= runs@.len(),
            reports@.len() == i,
            forall|k: int| 0 <= k < i ==> is_report_of(#[trigger] reports@[k], *loads, runs@[k], *options),
        decreases runs@.len() - i,
    {
        reports.push(render(loads, &runs[i], options));
        i = i + 1;
    }
    reports
}

/// The reports of the `run_count` passes over one record are exactly
/// `run_count` in number, and the `i`-th of them carries run number `i + 1`.
pub proof fn lemma_reports_numbered(
    loads: RuleLoads,
    rules: Seq<LoadedRule>,
    run_count: int,
    options: RenderOptions,
    runs: Seq<RunResult>,
    reports: Seq<Report>,
)
    requires
        are_passes_of(runs, rules, run_count),
        reports.len() == runs.len(),
        forall|i: int| 0 <= i < reports.len() ==> is_report_of(#[trigger] reports[i], loads, runs[i], options),
    ensures
        reports.len() == run_count,
        forall|i: int| 0 <= i < reports.len() ==> (#[trigger] reports[i]).run_number == i + 1,
        forall|i: int, j: int|
            0 <= i < j < reports.len() ==> #[trigger] reports[i].run_number != #[trigger] reports[j].run_number,
{
    assert forall|i: int| 0 <= i < reports.len() implies (#[trigger] reports[i]).run_number == i + 1 by {
        assert(is_report_of(reports[i], loads, runs[i], options));
        assert(is_pass_of(runs[i], rules, i + 1));
    }
}

} // verus!
