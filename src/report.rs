//! Aggregation of the per-language sample sets of one benchmark into a
//! report: the languages that produced samples, their statistics, a baseline
//! language and each language's speed relative to it.

use vstd::prelude::*;
use crate::discovery::{name_le, name_le_exec, same_text};
use crate::stats::{Summary, reduce};

verus! {

/// The samples measured for one language.
#[derive(Clone, Debug)]
pub struct LanguageSamples {
    pub language: String,
    pub samples: Vec<u64>,
}

impl View for LanguageSamples {
    type V = (Seq<char>, Seq<u64>);

    open spec fn view(&self) -> (Seq<char>, Seq<u64>) {
        (self.language@, self.samples@)
    }
}

/// The result of one language: its samples and their statistics.
#[derive(Clone, Debug)]
pub struct LanguageResult {
    pub language: String,
    pub samples: Vec<u64>,
    pub summary: Summary,
}

impl View for LanguageResult {
    type V = (Seq<char>, Seq<u64>);

    open spec fn view(&self) -> (Seq<char>, Seq<u64>) {
        (self.language@, self.samples@)
    }
}

impl LanguageResult {
    /// A result has samples, and its statistics are theirs.
    pub open spec fn wf(&self) -> bool {
        self.samples@.len() > 0 && self.summary == Summary::of(self.samples@)
    }

    /// The result of a language, or `None` when it has no sample.
    pub fn from_samples(language: String, samples: Vec<u64>) -> (r: Option<LanguageResult>)
        ensures
            samples@.len() == 0 ==> r is None,
            samples@.len() > 0 ==> r is Some && r.unwrap().wf() && r.unwrap().language == language
                && r.unwrap().samples@ == samples@,
    {
        if samples.len() == 0 {
            None
        } else {
            let summary = reduce(&samples);
            Some(LanguageResult { language, samples, summary })
        }
    }
}

/// The speed of a language relative to the baseline: the ratio of its median
/// to the baseline median.
#[derive(Clone, Copy, Debug, PartialEq, Eq, Structural)]
pub struct Relative {
    pub median: u64,
    pub baseline: u64,
}

impl Relative {
    /// The ratio is at most one: the language runs at or above baseline speed.
    pub fn at_or_above_baseline(&self) -> (r: bool)
        ensures
            r == (self.median <= self.baseline),
    {
        self.median <= self.baseline
    }

    /// The ratio in thousandths, rounded down; `None` for a zero baseline.
    pub fn thousandths(&self) -> (r: Option<u128>)
        ensures
            self.baseline == 0 ==> r is None,
            self.baseline > 0 ==> r == Some(((self.median as int * 1000) / self.baseline as int) as u128),
    {
        if self.baseline == 0 {
            None
        } else {
            Some((self.median as u128 * 1000) / self.baseline as u128)
        }
    }
}

/// A language whose median equals the baseline median has the ratio one.
pub proof fn lemma_equal_medians_ratio_one(median: u64, baseline: u64)
    requires
        median == baseline,
        baseline > 0,
    ensures
        (median as int * 1000) / baseline as int == 1000,
{
    assert((baseline as int * 1000) / baseline as int == 1000) by (nonlinear_arith)
        requires
            baseline > 0,
    ;
}

/// The sample sets that are not empty, in order.
pub open spec fn kept(m: Seq<(Seq<char>, Seq<u64>)>) -> Seq<(Seq<char>, Seq<u64>)>
    decreases m.len(),
{
    if m.len() == 0 {
        Seq::empty()
    } else {
        let rest = kept(m.drop_last());
        if m.last().1.len() > 0 {
            rest.push(m.last())
        } else {
            rest
        }
    }
}

/// A report keeps no language whose sample set is empty: every kept sample
/// set has samples, and nothing is kept when no language has any.
pub proof fn lemma_empty_sample_sets_left_out(m: Seq<(Seq<char>, Seq<u64>)>)
    ensures
        forall|i: int| 0 <= i < kept(m).len() ==> (#[trigger] kept(m)[i]).1.len() > 0,
        (forall|i: int| 0 <= i < m.len() ==> (#[trigger] m[i]).1.len() == 0) ==> kept(m).len() == 0,
    decreases m.len(),
{
    if m.len() > 0 {
        lemma_empty_sample_sets_left_out(m.drop_last());
        let rest = kept(m.drop_last());
        assert forall|i: int| 0 <= i < kept(m).len() implies (#[trigger] kept(m)[i]).1.len() > 0 by {
            if i < rest.len() {
                assert(kept(m)[i] == rest[i]);
            }
        }
        if forall|i: int| 0 <= i < m.len() ==> (#[trigger] m[i]).1.len() == 0 {
            assert forall|i: int| 0 <= i < m.drop_last().len() implies (#[trigger] m.drop_last()[i]).1.len() == 0 by {
                assert(m.drop_last()[i] == m[i]);
            }
            assert(m.last() == m[m.len() - 1]);
        }
    }
}

/// The language tags of a sequence of sample sets.
pub open spec fn languages(m: Seq<(Seq<char>, Seq<u64>)>) -> Seq<Seq<char>> {
    m.map_values(|x: (Seq<char>, Seq<u64>)| x.0)
}

/// The first position of `tag`, or -1.
pub open spec fn first_index(tags: Seq<Seq<char>>, tag: Seq<char>) -> int
    decreases tags.len(),
{
    if tags.len() == 0 {
        -1
    } else {
        let k = first_index(tags.drop_last(), tag);
        if k >= 0 {
            k
        } else if tags.last() == tag {
            tags.len() - 1
        } else {
            -1
        }
    }
}

/// The position of the first tag that no other tag precedes in name order.
pub open spec fn least_index(tags: Seq<Seq<char>>) -> int
    decreases tags.len(),
{
    if tags.len() <= 1 {
        0
    } else {
        let k = least_index(tags.drop_last());
        if name_le(tags[k], tags.last()) {
            k
        } else {
            tags.len() - 1
        }
    }
}

/// The position of the baseline: the preferred language when present, else
/// the least tag in name order; -1 when there is no language at all.
pub open spec fn baseline_index(tags: Seq<Seq<char>>, preferred: Seq<char>) -> int {
    if first_index(tags, preferred) >= 0 {
        first_index(tags, preferred)
    } else if tags.len() > 0 {
        least_index(tags)
    } else {
        -1
    }
}

proof fn lemma_first_index_bounds(tags: Seq<Seq<char>>, tag: Seq<char>)
    ensures
        -1 <= first_index(tags, tag) < tags.len(),
        first_index(tags, tag) >= 0 ==> tags[first_index(tags, tag)] == tag,
    decreases tags.len(),
{
    if tags.len() > 0 {
        lemma_first_index_bounds(tags.drop_last(), tag);
    }
}

proof fn lemma_least_index_bounds(tags: Seq<Seq<char>>)
    ensures
        tags.len() > 0 ==> 0 <= least_index(tags) < tags.len(),
    decreases tags.len(),
{
    if tags.len() > 1 {
        lemma_least_index_bounds(tags.drop_last());
    }
}

/// The report of one benchmark.
#[derive(Clone, Debug)]
pub struct BenchmarkReport {
    pub benchmark: String,
    /// One result per language that produced samples, in input order.
    pub results: Vec<LanguageResult>,
    /// The baseline language; `None` exactly when no language produced a sample.
    pub baseline: Option<String>,
    /// The speed of each result relative to the baseline, position by position.
    pub relatives: Vec<Relative>,
}

/// The views of a sequence of sample sets.
pub open spec fn samples_view(m: Seq<LanguageSamples>) -> Seq<(Seq<char>, Seq<u64>)> {
    m.map_values(|x: LanguageSamples| x@)
}

/// The views of a sequence of results.
pub open spec fn results_view(m: Seq<LanguageResult>) -> Seq<(Seq<char>, Seq<u64>)> {
    m.map_values(|x: LanguageResult| x@)
}

/// The results of the languages that produced samples, in input order.
pub fn keep_measured(measured: &Vec<LanguageSamples>) -> (r: Vec<LanguageResult>)
    ensures
        results_view(r@) == kept(samples_view(measured@)),
        forall|i: int| 0 <= i < r@.len() ==> (#[trigger] r@[i]).wf(),
{
    let mut out: Vec<LanguageResult> = Vec::new();
    let mut i: usize = 0;
    proof {
        assert(samples_view(measured@.subrange(0, 0)) =~= Seq::<(Seq<char>, Seq<u64>)>::empty());
        assert(results_view(out@) =~= Seq::<(Seq<char>, Seq<u64>)>::empty());
    }
    while i < measured.len()
        invariant
            i <= measured.len(),
            results_view(out@) == kept(samples_view(measured@.subrange(0, i as int))),
            forall|k: int| 0 <= k < out@.len() ==> (#[trigger] out@[k]).wf(),
        decreases measured.len() - i,
    {
        let ghost before = out@;
        proof {
            assert(samples_view(measured@.subrange(0, i + 1)).drop_last() =~= samples_view(
                measured@.subrange(0, i as int),
            ));
            assert(samples_view(measured@.subrange(0, i + 1)).last() == measured@[i as int]@);
        }
        let entry = &measured[i];
        let samples = entry.samples.clone();
        proof {
            assert(samples@ =~= entry.samples@);
        }
        match LanguageResult::from_samples(entry.language.clone(), samples) {
            Some(res) => {
                out.push(res);
                proof {
                    assert(results_view(out@) =~= results_view(before).push(entry@));
                }
            },
            None => {},
        }
        i += 1;
    }
    proof {
        assert(measured@.subrange(0, measured@.len() as int) =~= measured@);
    }
    out
}

/// The baseline position among the results, if there is any result.
pub fn choose_baseline(results: &Vec<LanguageResult>, preferred: &str) -> (r: Option<usize>)
    ensures
        match r {
            Some(b) => b as int == baseline_index(languages(results_view(results@)), preferred@),
            None => baseline_index(languages(results_view(results@)), preferred@) == -1,
        },
{
    let ghost tags = languages(results_view(results@));
    let mut first: Option<usize> = None;
    let mut least: usize = 0;
    let mut i: usize = 0;
    while i < results.len()
        invariant
            tags == languages(results_view(results@)),
            tags.len() == results@.len(),
            i <= results@.len(),
            match first {
                Some(f) => f as int == first_index(tags.subrange(0, i as int), preferred@),
                None => first_index(tags.subrange(0, i as int), preferred@) == -1,
            },
            i > 0 ==> least == least_index(tags.subrange(0, i as int)),
            i > 0 ==> least < i,
        decreases results.len() - i,
    {
        let ghost sub = tags.subrange(0, i as int);
        let ghost next = tags.subrange(0, i + 1);
        proof {
            assert(next.drop_last() =~= sub);
            assert(next.last() == results@[i as int].language@);
            assert(tags[i as int] == results@[i as int].language@);
            lemma_first_index_bounds(sub, preferred@);
        }
        if first.is_none() && same_text(results[i].language.as_str(), preferred) {
            first = Some(i);
        }
        if i == 0 {
            least = 0;
        } else {
            proof {
                assert(next[least as int] == tags[least as int]);
                assert(tags[least as int] == results@[least as int].language@);
            }
            if !name_le_exec(results[least].language.as_str(), results[i].language.as_str()) {
                least = i;
            }
        }
        i += 1;
    }
    proof {
        assert(tags.subrange(0, results@.len() as int) =~= tags);
    }
    match first {
        Some(f) => Some(f),
        None => if results.len() > 0 {
            Some(least)
        } else {
            None
        },
    }
}

/// The relative speed of every result against the baseline at `base`.
pub fn relative_speeds(results: &Vec<LanguageResult>, base: usize) -> (r: Vec<Relative>)
    requires
        base < results@.len(),
    ensures
        r@.len() == results@.len(),
        forall|i: int|
            0 <= i < r@.len() ==> #[trigger] r@[i] == (Relative {
                median: results@[i].summary.median,
                baseline: results@[base as int].summary.median,
            }),
{
    let baseline = results[base].summary.median;
    let mut out: Vec<Relative> = Vec::new();
    let mut i: usize = 0;
    while i < results.len()
        invariant
            i <= results@.len(),
            out@.len() == i,
            baseline == results@[base as int].summary.median,
            forall|k: int|
                0 <= k < i ==> #[trigger] out@[k] == (Relative {
                    median: results@[k].summary.median,
                    baseline,
                }),
        decreases results.len() - i,
    {
        out.push(Relative { median: results[i].summary.median, baseline });
        i += 1;
    }
    out
}

/// The baseline position of a report built from these sample sets.
pub open spec fn report_baseline(m: Seq<(Seq<char>, Seq<u64>)>, preferred: Seq<char>) -> int {
    baseline_index(languages(kept(m)), preferred)
}

/// The report of one benchmark: languages without samples are left out; the
/// baseline is `preferred` when it has results, else the least language tag
/// in name order; each result's median is set against the baseline median.
pub fn aggregate(benchmark: String, measured: &Vec<LanguageSamples>, preferred: &str) -> (r:
    BenchmarkReport)
    ensures
        r.benchmark == benchmark,
        results_view(r.results@) == kept(samples_view(measured@)),
        forall|i: int| 0 <= i < r.results@.len() ==> (#[trigger] r.results@[i]).wf(),
        r.relatives@.len() == r.results@.len(),
        (r.baseline is None) == (r.results@.len() == 0),
        (report_baseline(samples_view(measured@), preferred@) < 0) == (r.baseline is None),
        r.baseline is Some ==> r.baseline.unwrap()@ == languages(
            kept(samples_view(measured@)),
        )[report_baseline(samples_view(measured@), preferred@)],
        r.baseline is Some ==> forall|i: int|
            0 <= i < r.relatives@.len() ==> #[trigger] r.relatives@[i] == (Relative {
                median: r.results@[i].summary.median,
                baseline: r.results@[report_baseline(
                    samples_view(measured@),
                    preferred@,
                )].summary.median,
            }),
{
    let results = keep_measured(measured);
    let ghost tags = languages(results_view(results@));
    proof {
        assert(results_view(results@).len() == results@.len());
        lemma_first_index_bounds(tags, preferred@);
        lemma_least_index_bounds(tags);
        assert(tags.len() == results@.len());
    }
    match choose_baseline(&results, preferred) {
        None => BenchmarkReport { benchmark, results, baseline: None, relatives: Vec::new() },
        Some(base) => {
            let relatives = relative_speeds(&results, base);
            proof {
                assert(tags[base as int] == results@[base as int].language@);
            }
            let baseline = Some(results[base].language.clone());
            BenchmarkReport { benchmark, results, baseline, relatives }
        },
    }
}

} // verus!
