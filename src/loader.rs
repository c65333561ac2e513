//! Rule corpus loading: which walked files are rule sources, and how the
//! compilation of each source is accounted for in the load report.

use vstd::prelude::*;
use crate::external::{compile_rule, yaml_rule_accepted};

verus! {

/// One file met while walking the rule corpus.
pub struct FileEntry {
    pub path: String,
    /// The file name's extension, when it has one that is valid text.
    pub extension: Option<String>,
}

/// A rule source file and its full contents.
pub struct RuleSource {
    pub path: String,
    pub contents: String,
}

/// A compiled rule, with the title that reports show for it.
pub struct LoadedRule {
    pub title: String,
    pub rule: sigma_rust::Rule,
}

/// A rule source that failed to compile, and the compiler's reason.
pub struct LoadFailure {
    pub path: String,
    pub reason: String,
}

/// Summary of loading a rule corpus.
pub struct RuleLoads {
    pub total: usize,
    pub successful: usize,
    pub failed: usize,
    pub load_time_milli: u128,
    pub errors: Vec<LoadFailure>,
}

/// `c` is the ASCII letter `lower`, in either case.
pub open spec fn letter_ignoring_case(c: char, lower: char) -> bool {
    c == lower || ('A' <= c <= 'Z' && c as u32 + 32 == lower as u32)
}

/// `s` spells `word` (given in lower case) up to the case of its letters.
pub open spec fn spells_ignoring_case(s: Seq<char>, word: Seq<char>) -> bool {
    s.len() == word.len() && forall|i: int| 0 <= i < s.len() ==> letter_ignoring_case(
        #[trigger] s[i],
        word[i],
    )
}

/// The extensions of rule source files: `yml` and `yaml`, in any case.
pub open spec fn is_rule_extension_spec(ext: Seq<char>) -> bool {
    spells_ignoring_case(ext, seq!['y', 'm', 'l']) || spells_ignoring_case(
        ext,
        seq!['y', 'a', 'm', 'l'],
    )
}

pub open spec fn has_rule_extension(entry: FileEntry) -> bool {
    match entry.extension {
        Some(ext) => is_rule_extension_spec(ext@),
        None => false,
    }
}

/// The paths of the rule source files among walked entries, in walk order.
pub open spec fn rule_file_paths(entries: Seq<FileEntry>) -> Seq<String>
    decreases entries.len(),
{
    if entries.len() == 0 {
        Seq::empty()
    } else {
        let rest = rule_file_paths(entries.drop_last());
        if has_rule_extension(entries.last()) {
            rest.push(entries.last().path)
        } else {
            rest
        }
    }
}

/// How many of the sources compile.
pub open spec fn accepted_count(sources: Seq<RuleSource>) -> nat
    decreases sources.len(),
{
    if sources.len() == 0 {
        0
    } else {
        accepted_count(sources.drop_last()) + if yaml_rule_accepted(sources.last().contents@) {
            1nat
        } else {
            0nat
        }
    }
}

/// The paths of the sources that fail to compile, in order.
pub open spec fn rejected_paths(sources: Seq<RuleSource>) -> Seq<String>
    decreases sources.len(),
{
    if sources.len() == 0 {
        Seq::empty()
    } else {
        let rest = rejected_paths(sources.drop_last());
        if yaml_rule_accepted(sources.last().contents@) {
            rest
        } else {
            rest.push(sources.last().path)
        }
    }
}

impl RuleLoads {
    /// The counts agree with each other and with the diagnostics.
    pub open spec fn wf(&self) -> bool {
        &&& self.total == self.successful + self.failed
        &&& self.failed == self.errors@.len()
    }

    pub open spec fn failed_paths(&self) -> Seq<String> {
        self.errors@.map_values(|f: LoadFailure| f.path)
    }

    /// A report of nothing loaded yet.
    pub fn new() -> (r: RuleLoads)
        ensures
            r.wf(),
            r.total == 0,
            r.successful == 0,
            r.load_time_milli == 0,
            r.errors@.len() == 0,
    {
        RuleLoads { total: 0, successful: 0, failed: 0, load_time_milli: 0, errors: Vec::new() }
    }

    /// Accounts for one compiled source: a rule joins `rules`, a failure
    /// joins the diagnostics under the source's path.
    pub fn record_outcome(
        &mut self,
        rules: &mut Vec<LoadedRule>,
        path: &String,
        outcome: Result<LoadedRule, String>,
    )
        requires
            old(self).wf(),
            old(self).total < usize::MAX,
        ensures
            final(self).wf(),
            final(self).total == old(self).total + 1,
            final(self).load_time_milli == old(self).load_time_milli,
            match outcome {
                Ok(rule) => {
                    &&& final(self).successful == old(self).successful + 1
                    &&& final(self).errors@ == old(self).errors@
                    &&& final(rules)@ == old(rules)@.push(rule)
                },
                Err(reason) => {
                    &&& final(self).successful == old(self).successful
                    &&& final(self).errors@ == old(self).errors@.push(
                        LoadFailure { path: *path, reason },
                    )
                    &&& final(rules)@ == old(rules)@
                },
            },
    {
        self.total = self.total + 1;
        match outcome {
            Ok(rule) => {
                self.successful = self.successful + 1;
                rules.push(rule);
            },
            Err(reason) => {
                self.failed = self.failed + 1;
                self.errors.push(LoadFailure { path: path.clone(), reason });
            },
        }
    }
}

/// Whether a file extension marks a rule source: `yml` or `yaml`, in any case.
pub fn is_rule_extension(ext: &str) -> (r: bool)
    ensures
        r == is_rule_extension_spec(ext@),
{
    let n = ext.unicode_len();
    if n != 3 && n != 4 {
        return false;
    }
    let word: &str = if n == 3 {
        "yml"
    } else {
        "yaml"
    };
    proof {
        reveal_strlit("yml");
        reveal_strlit("yaml");
    }
    let mut i: usize = 0;
    while i < n
        invariant
            n == ext@.len(),
            n == word@.len(),
            n == 3 ==> word@ == seq!['y', 'm', 'l'],
            n == 4 ==> word@ == seq!['y', 'a', 'm', 'l'],
            0 <= i <= n,
            forall|k: int| 0 <= k < i ==> letter_ignoring_case(#[trigger] ext@[k], word@[k]),
        decreases n - i,
    {
        let c = ext.get_char(i);
        let w = word.get_char(i);
        let same = c == w || ('A' <= c && c <= 'Z' && (c as u32) + 32 == w as u32);
        if !same {
            assert(!spells_ignoring_case(ext@, word@));
            return false;
        }
        i = i + 1;
    }
    assert(spells_ignoring_case(ext@, word@));
    true
}

/// The paths of the rule source files among the walked entries, in walk
/// order; every other entry is passed over and not counted.
pub fn select_rule_files(entries: &Vec<FileEntry>) -> (r: Vec<String>)
    ensures
        r@ == rule_file_paths(entries@),
{
    let mut r: Vec<String> = Vec::new();
    let mut i: usize = 0;
    while i < entries.len()
        invariant
            0 <= i <= entries@.len(),
            r@ == rule_file_paths(entries@.subrange(0, i as int)),
        decreases entries@.len() - i,
    {
        let entry = &entries[i];
        let qualifies = match &entry.extension {
            Some(ext) => is_rule_extension(ext.as_str()),
            None => false,
        };
        if qualifies {
            r.push(entry.path.clone());
        }
        assert(entries@.subrange(0, i + 1).drop_last() =~= entries@.subrange(0, i as int));
        i = i + 1;
    }
    assert(entries@.subrange(0, entries@.len() as int) =~= entries@);
    r
}

/// Compiles every source in order. Compiled rules keep the order of their
/// sources; a source that fails to compile is recorded under its path and
/// loading goes on. The load time is the time since `started`.
pub fn load_rules(sources: &Vec<RuleSource>, started: &std::time::Instant) -> (r: (
    Vec<LoadedRule>,
    RuleLoads,
))
    ensures
        r.1.wf(),
        r.1.total == sources@.len(),
        r.1.successful == accepted_count(sources@),
        r.0@.len() == r.1.successful,
        r.1.failed_paths() == rejected_paths(sources@),
{
    let mut loads = RuleLoads::new();
    let mut rules: Vec<LoadedRule> = Vec::new();
    let mut i: usize = 0;
    while i < sources.len()
        invariant
            0 <= i <= sources@.len(),
            loads.wf(),
            loads.total == i,
            loads.successful == accepted_count(sources@.subrange(0, i as int)),
            rules@.len() == loads.successful,
            loads.failed_paths() == rejected_paths(sources@.subrange(0, i as int)),
        decreases sources@.len() - i,
    {
        let source = &sources[i];
        let outcome = compile_rule(source.contents.as_str());
        loads.record_outcome(&mut rules, &source.path, outcome);
        assert(sources@.subrange(0, i + 1).drop_last() =~= sources@.subrange(0, i as int));
        assert(loads.failed_paths() =~= rejected_paths(sources@.subrange(0, i + 1)));
        i = i + 1;
    }
    assert(sources@.subrange(0, sources@.len() as int) =~= sources@);
    let nanos = started.elapsed().as_nanos();
    loads.load_time_milli = nanos / 1_000_000;
    (rules, loads)
}

/// A corpus whose walk meets no file with a rule extension has no rule
/// source: its load report counts nothing and its rule set is empty.
pub proof fn lemma_no_rule_files_no_sources(entries: Seq<FileEntry>)
    requires
        forall|i: int| 0 <= i < entries.len() ==> !has_rule_extension(#[trigger] entries[i]),
    ensures
        rule_file_paths(entries).len() == 0,
    decreases entries.len(),
{
    if entries.len() > 0 {
        let rest = entries.drop_last();
        assert forall|i: int| 0 <= i < rest.len() implies !has_rule_extension(
            #[trigger] rest[i],
        ) by {
            assert(rest[i] == entries[i]);
        }
        lemma_no_rule_files_no_sources(rest);
        assert(!has_rule_extension(entries[entries.len() - 1]));
    }
}

} // verus!
