//! Folding generation results into per-skill evidence buckets.
use vstd::prelude::*;
use crate::models::{texts, AggregatedSkill, CommitForAnalysis, LLMAnalysisResult, SkillOccurrence};
use crate::taxonomy::{category_of, underscored, SkillTaxonomy};
use crate::rating::confidences_valid;
use crate::summary::{all_signals, count_tags, count_views, docs_sum, lowercase_signals, quality_sum, quality_totals, tag_counts, testing_sum};

verus! {

/// One skill mention of one result, with what the bucket keeps of it.
pub struct MentionView {
    pub key: Seq<char>,
    pub name: Seq<char>,
    pub label: Seq<char>,
    pub sha: Seq<char>,
    pub repository: Seq<char>,
    pub timestamp: i64,
    pub evidence: Seq<Seq<char>>,
    pub signal: Seq<char>,
    pub confidence: u32,
    pub lines: u32,
    pub complexity: u8,
    pub quality: u8,
}

/// What an occurrence holds, as mathematical values.
pub struct OccurrenceView {
    pub sha: Seq<char>,
    pub repository: Seq<char>,
    pub timestamp: i64,
    pub evidence: Seq<Seq<char>>,
    pub signal: Seq<char>,
    pub confidence: u32,
    pub lines: u32,
}

pub open spec fn occurrence_view(o: SkillOccurrence) -> OccurrenceView {
    OccurrenceView {
        sha: o.commit_sha@,
        repository: o.repository@,
        timestamp: o.timestamp,
        evidence: texts(o.evidence@),
        signal: o.proficiency_signal@,
        confidence: o.confidence,
        lines: o.lines_changed,
    }
}

pub open spec fn mention_occurrence(m: MentionView) -> OccurrenceView {
    OccurrenceView {
        sha: m.sha,
        repository: m.repository,
        timestamp: m.timestamp,
        evidence: m.evidence,
        signal: m.signal,
        confidence: m.confidence,
        lines: m.lines,
    }
}

/// Lines changed by a commit, held to what a `u32` can count.
pub open spec fn commit_lines(c: CommitForAnalysis) -> u32 {
    if c.stats.additions + c.stats.deletions > u32::MAX { u32::MAX } else { (c.stats.additions + c.stats.deletions) as u32 }
}

/// The mentions of the skills of `p`'s result, keyed under `tax`.
pub open spec fn pair_mentions(p: (LLMAnalysisResult, CommitForAnalysis), tax: SkillTaxonomy) -> Seq<MentionView> {
    p.0.skills@.map_values(|s: crate::models::ExtractedSkill| MentionView {
        key: tax.normal_form(s.name@),
        name: s.name@,
        label: s.category@,
        sha: p.1.sha@,
        repository: p.1.repository@,
        timestamp: p.1.committed_at,
        evidence: texts(s.evidence@),
        signal: s.proficiency_level@,
        confidence: if s.confidence > 1000 { 1000 } else { s.confidence },
        lines: commit_lines(p.1),
        complexity: p.0.complexity_assessment.overall_score,
        quality: p.0.quality_assessment.code_quality,
    })
}

/// All mentions of all results, in order.
pub open spec fn all_mentions(ps: Seq<(LLMAnalysisResult, CommitForAnalysis)>, tax: SkillTaxonomy) -> Seq<MentionView>
    decreases ps.len(),
{
    if ps.len() == 0 {
        Seq::empty()
    } else {
        all_mentions(ps.drop_last(), tax) + pair_mentions(ps.last(), tax)
    }
}

pub open spec fn keyed(ms: Seq<MentionView>, k: Seq<char>) -> Seq<MentionView> {
    ms.filter(|m: MentionView| m.key == k)
}

pub open spec fn lines_total(ms: Seq<MentionView>) -> nat
    decreases ms.len(),
{
    if ms.len() == 0 { 0 } else { lines_total(ms.drop_last()) + ms.last().lines as nat }
}

/// `b` is the bucket of key `k` over mentions `ms`; its skill is the one
/// that the first mention of `k` gives under `tax`, in the category its label names.
pub open spec fn is_bucket(k: Seq<char>, b: AggregatedSkill, ms: Seq<MentionView>, tax: SkillTaxonomy) -> bool {
    &&& b.occurrences@.map_values(|o: SkillOccurrence| occurrence_view(o)) == keyed(ms, k).map_values(|m: MentionView| mention_occurrence(m))
    &&& b.complexity_scores@ == keyed(ms, k).map_values(|m: MentionView| m.complexity)
    &&& b.quality_scores@ == keyed(ms, k).map_values(|m: MentionView| m.quality)
    &&& b.total_lines == (if lines_total(keyed(ms, k)) > u32::MAX { u32::MAX as nat } else { lines_total(keyed(ms, k)) })
    &&& b.skill.id@ == underscored(k)
    &&& keyed(ms, k).len() > 0 ==> tax.skill_for(keyed(ms, k)[0].name, category_of(keyed(ms, k)[0].label), b.skill)
}

/// Some bucket of `r` has key `k`.
pub open spec fn has_bucket(r: Seq<(String, AggregatedSkill)>, k: Seq<char>) -> bool {
    exists|j: int| 0 <= j < r.len() && (#[trigger] r[j]).0@ == k
}

/// `r` holds one bucket per distinct key of `ms`, in order of first mention.
pub open spec fn buckets_of(r: Seq<(String, AggregatedSkill)>, ms: Seq<MentionView>, tax: SkillTaxonomy) -> bool {
    &&& (forall|j: int| 0 <= j < r.len() ==> is_bucket((#[trigger] r[j]).0@, r[j].1, ms, tax))
    &&& (forall|a: int, b: int| 0 <= a < b < r.len() ==> (#[trigger] r[a]).0@ != (#[trigger] r[b]).0@)
    &&& (forall|i: int| 0 <= i < ms.len() ==> has_bucket(r, (#[trigger] ms[i]).key))
    &&& (forall|j: int| 0 <= j < r.len() ==> keyed(ms, (#[trigger] r[j]).0@).len() > 0)
}

proof fn lemma_keyed_push(ms: Seq<MentionView>, m: MentionView, k: Seq<char>)
    ensures
        keyed(ms.push(m), k) == (if m.key == k { keyed(ms, k).push(m) } else { keyed(ms, k) }),
{
    assert(ms.push(m).drop_last() =~= ms);
    reveal_with_fuel(Seq::filter, 1);
}

proof fn lemma_keyed_none(ms: Seq<MentionView>, k: Seq<char>)
    requires
        forall|i: int| 0 <= i < ms.len() ==> (#[trigger] ms[i]).key != k,
    ensures
        keyed(ms, k).len() == 0,
    decreases ms.len(),
{
    if ms.len() > 0 {
        assert forall|i: int| 0 <= i < ms.drop_last().len() implies (#[trigger] ms.drop_last()[i]).key != k by {
            assert(ms.drop_last()[i] == ms[i]);
        }
        lemma_keyed_none(ms.drop_last(), k);
        assert(ms.drop_last().push(ms.last()) =~= ms);
        lemma_keyed_push(ms.drop_last(), ms.last(), k);
    }
}

proof fn lemma_keyed_absent(ms: Seq<MentionView>, k: Seq<char>, r: Seq<(String, AggregatedSkill)>, tax: SkillTaxonomy)
    requires
        buckets_of(r, ms, tax),
        forall|y: int| 0 <= y < r.len() ==> (#[trigger] r[y]).0@ != k,
    ensures
        keyed(ms, k).len() == 0,
{
    assert forall|i: int| 0 <= i < ms.len() implies (#[trigger] ms[i]).key != k by {
        assert(has_bucket(r, ms[i].key));
        let j = choose|j: int| 0 <= j < r.len() && (#[trigger] r[j]).0@ == ms[i].key;
        assert(r[j].0@ != k);
    }
    lemma_keyed_none(ms, k);
}

proof fn lemma_lines_push(ms: Seq<MentionView>, m: MentionView)
    ensures
        lines_total(ms.push(m)) == lines_total(ms) + m.lines,
{
    assert(ms.push(m).drop_last() =~= ms);
}

proof fn lemma_bucket_other(k: Seq<char>, b: AggregatedSkill, ms: Seq<MentionView>, m: MentionView, tax: SkillTaxonomy)
    requires
        is_bucket(k, b, ms, tax),
        m.key != k,
    ensures
        is_bucket(k, b, ms.push(m), tax),
{
    lemma_keyed_push(ms, m, k);
}

proof fn lemma_buckets_update(r: Seq<(String, AggregatedSkill)>, ms: Seq<MentionView>, m: MentionView, x: int, nb: (String, AggregatedSkill), tax: SkillTaxonomy)
    requires
        buckets_of(r, ms, tax),
        0 <= x < r.len(),
        nb.0@ == r[x].0@,
        m.key == r[x].0@,
        is_bucket(nb.0@, nb.1, ms.push(m), tax),
    ensures
        buckets_of(r.update(x, nb), ms.push(m), tax),
{
    let r2 = r.update(x, nb);
    let ms2 = ms.push(m);
    assert forall|j: int| 0 <= j < r2.len() implies is_bucket((#[trigger] r2[j]).0@, r2[j].1, ms2, tax) by {
        if j != x {
            assert(r[j].0@ != r[x].0@);
            lemma_bucket_other(r[j].0@, r[j].1, ms, m, tax);
        }
    }
    assert forall|i: int| 0 <= i < ms2.len() implies has_bucket(r2, (#[trigger] ms2[i]).key) by {
        if i < ms.len() {
            assert(ms2[i] == ms[i]);
            let j = choose|j: int| 0 <= j < r.len() && (#[trigger] r[j]).0@ == ms[i].key;
            assert(r2[j].0@ == r[j].0@);
        } else {
            assert(r2[x].0@ == ms2[i].key);
        }
    }
    assert forall|j: int| 0 <= j < r2.len() implies keyed(ms2, (#[trigger] r2[j]).0@).len() > 0 by {
        lemma_keyed_push(ms, m, r[j].0@);
        assert(r2[j].0@ == r[j].0@);
    }
    assert forall|a: int, b: int| 0 <= a < b < r2.len() implies (#[trigger] r2[a]).0@ != (#[trigger] r2[b]).0@ by {
        assert(r2[a].0@ == r[a].0@ && r2[b].0@ == r[b].0@);
    }
}

proof fn lemma_buckets_push(r: Seq<(String, AggregatedSkill)>, ms: Seq<MentionView>, m: MentionView, nb: (String, AggregatedSkill), tax: SkillTaxonomy)
    requires
        buckets_of(r, ms, tax),
        forall|y: int| 0 <= y < r.len() ==> (#[trigger] r[y]).0@ != m.key,
        nb.0@ == m.key,
        is_bucket(nb.0@, nb.1, ms.push(m), tax),
    ensures
        buckets_of(r.push(nb), ms.push(m), tax),
{
    let r2 = r.push(nb);
    let ms2 = ms.push(m);
    assert forall|j: int| 0 <= j < r2.len() implies is_bucket((#[trigger] r2[j]).0@, r2[j].1, ms2, tax) by {
        if j < r.len() {
            assert(r2[j] == r[j]);
            lemma_bucket_other(r[j].0@, r[j].1, ms, m, tax);
        }
    }
    assert forall|i: int| 0 <= i < ms2.len() implies has_bucket(r2, (#[trigger] ms2[i]).key) by {
        if i < ms.len() {
            assert(ms2[i] == ms[i]);
            let j = choose|j: int| 0 <= j < r.len() && (#[trigger] r[j]).0@ == ms[i].key;
            assert(r2[j] == r[j]);
        } else {
            assert(r2[r.len() as int].0@ == ms2[i].key);
        }
    }
    assert forall|j: int| 0 <= j < r2.len() implies keyed(ms2, (#[trigger] r2[j]).0@).len() > 0 by {
        if j < r.len() {
            assert(r2[j] == r[j]);
            lemma_keyed_push(ms, m, r[j].0@);
        } else {
            lemma_keyed_push(ms, m, m.key);
            assert(r2[j] == nb);
        }
    }
    assert forall|a: int, b: int| 0 <= a < b < r2.len() implies (#[trigger] r2[a]).0@ != (#[trigger] r2[b]).0@ by {
        if b < r.len() {
            assert(r2[a] == r[a] && r2[b] == r[b]);
        } else {
            assert(r2[a] == r[a]);
        }
    }
}

/// Copies of every text in `v`, in order.
pub fn copy_strings(v: &Vec<String>) -> (r: Vec<String>)
    ensures
        texts(r@) == texts(v@),
{
    let mut out: Vec<String> = Vec::new();
    let mut i: usize = 0;
    while i < v.len()
        invariant
            i <= v@.len(),
            texts(out@) == texts(v@).take(i as int),
        decreases v.len() - i,
    {
        let c = v[i].clone();
        assert(c@ == v@[i as int]@);
        let ghost prev = out@;
        out.push(c);
        assert(texts(out@) =~= texts(prev).push(c@));
        i = i + 1;
        assert(texts(out@) =~= texts(v@).take(i as int));
    }
    assert(texts(v@).take(i as int) =~= texts(v@));
    out
}

/// Aggregates skill mentions against the skill taxonomy.
pub struct SkillExtractor {
    pub taxonomy: SkillTaxonomy,
}

impl SkillExtractor {
    pub fn new() -> (r: SkillExtractor)
        ensures
            r.taxonomy.wf(),
    {
        SkillExtractor { taxonomy: SkillTaxonomy::new() }
    }

    /// Each lowercase domain tag of the results with the number of times it was reported.
    pub fn extract_domain_signals(&self, analyses: &Vec<LLMAnalysisResult>) -> (r: Vec<(String, u32)>)
        ensures
            count_views(r@) == tag_counts(all_signals(analyses@)),
    {
        let tags = lowercase_signals(analyses);
        count_tags(&tags)
    }

    /// Means over the results of test coverage (thousandths), documentation
    /// marks and code-quality marks (both in thousandths of a mark); zeros
    /// without results.
    pub fn compute_average_quality(&self, analyses: &Vec<LLMAnalysisResult>) -> (r: (u32, u32, u32))
        ensures
            analyses@.len() == 0 ==> r == (0u32, 0u32, 0u32),
            analyses@.len() > 0 ==> r.0 == testing_sum(analyses@) / analyses@.len()
                && r.1 == docs_sum(analyses@) * 1000 / analyses@.len()
                && r.2 == quality_sum(analyses@) * 1000 / analyses@.len(),
    {
        if analyses.len() == 0 {
            return (0, 0, 0);
        }
        let totals = quality_totals(analyses);
        let n = analyses.len() as u128;
        proof {
            vstd::arithmetic::div_mod::lemma_div_is_ordered(totals.0 as int, (u32::MAX as nat * n) as int, n as int);
            vstd::arithmetic::div_mod::lemma_div_by_multiple(u32::MAX as int, n as int);
            vstd::arithmetic::div_mod::lemma_div_is_ordered((totals.1 * 1000) as int, (255000 * n) as int, n as int);
            vstd::arithmetic::div_mod::lemma_div_by_multiple(255000, n as int);
            vstd::arithmetic::div_mod::lemma_div_is_ordered((totals.2 * 1000) as int, (255000 * n) as int, n as int);
        }
        ((totals.0 / n) as u32, (totals.1 * 1000 / n) as u32, (totals.2 * 1000 / n) as u32)
    }

    /// One evidence bucket per normalised skill name, in order of first
    /// mention: each mention adds an occurrence from its commit, the commit's
    /// lines changed, and the result's complexity and quality marks. A
    /// reported confidence above one counts as one.
    pub fn aggregate_skills(&self, analyses: &Vec<(LLMAnalysisResult, CommitForAnalysis)>) -> (r: Vec<(String, AggregatedSkill)>)
        requires
            self.taxonomy.wf(),
        ensures
            buckets_of(r@, all_mentions(analyses@, self.taxonomy), self.taxonomy),
            forall|j: int| 0 <= j < r@.len() ==> confidences_valid(#[trigger] r@[j].1.occurrences@),
    {
        let ghost tax = self.taxonomy;
        let mut out: Vec<(String, AggregatedSkill)> = Vec::new();
        let ghost mut ms: Seq<MentionView> = Seq::empty();
        let mut i: usize = 0;
        while i < analyses.len()
            invariant
                tax == self.taxonomy,
                tax.wf(),
                i <= analyses@.len(),
                ms == all_mentions(analyses@.take(i as int), tax),
                buckets_of(out@, ms, tax),
                forall|j: int| 0 <= j < out@.len() ==> confidences_valid(#[trigger] out@[j].1.occurrences@),
            decreases analyses.len() - i,
        {
            let analysis = &analyses[i].0;
            let commit = &analyses[i].1;
            let lines: u32 = if commit.stats.additions as u64 + commit.stats.deletions as u64 > u32::MAX as u64 {
                u32::MAX
            } else {
                commit.stats.additions + commit.stats.deletions
            };
            let ghost pm = pair_mentions(analyses@[i as int], tax);
            proof {
                assert(analyses@.take(i + 1).drop_last() =~= analyses@.take(i as int));
                assert(analyses@.take(i + 1).last() == analyses@[i as int]);
                assert(pm.take(0) =~= Seq::<MentionView>::empty());
                assert(ms + pm.take(0) =~= ms);
            }
            let mut s: usize = 0;
            while s < analysis.skills.len()
                invariant
                    tax == self.taxonomy,
                    tax.wf(),
                    i < analyses@.len(),
                    analysis == analyses@[i as int].0,
                    commit == analyses@[i as int].1,
                    lines == commit_lines(*commit),
                    pm == pair_mentions(analyses@[i as int], tax),
                    s <= analysis.skills@.len(),
                    buckets_of(out@, ms + pm.take(s as int), tax),
                    forall|j: int| 0 <= j < out@.len() ==> confidences_valid(#[trigger] out@[j].1.occurrences@),
                    ms == all_mentions(analyses@.take(i as int), tax),
                decreases analysis.skills.len() - s,
            {
                let extracted = &analysis.skills[s];
                let key = self.taxonomy.normalize_skill_name(extracted.name.as_str());
                let ghost before = ms + pm.take(s as int);
                let ghost m = pm[s as int];
                let ghost after = before.push(m);
                proof {
                    assert(pm.take(s + 1) =~= pm.take(s as int).push(m));
                    assert(ms + pm.take(s + 1) =~= after);
                    assert(m.key == key@);
                }
                let occurrence = SkillOccurrence {
                    commit_sha: commit.sha.clone(),
                    repository: commit.repository.clone(),
                    timestamp: commit.committed_at,
                    evidence: copy_strings(&extracted.evidence),
                    proficiency_signal: extracted.proficiency_level.clone(),
                    confidence: if extracted.confidence > 1000 { 1000 } else { extracted.confidence },
                    lines_changed: lines,
                };
                assert(occurrence_view(occurrence) == mention_occurrence(m));
                let mut found: Option<usize> = None;
                let mut j: usize = 0;
                while j < out.len()
                    invariant
                        j <= out@.len(),
                        found matches Some(x) ==> x < out@.len() && out@[x as int].0@ == key@,
                        found is None ==> forall|y: int| 0 <= y < j ==> (#[trigger] out@[y]).0@ != key@,
                    decreases out.len() - j,
                {
                    if found.is_none() && crate::text::same_text(out[j].0.as_str(), key.as_str()) {
                        found = Some(j);
                    }
                    j = j + 1;
                }
                let ghost prev = out@;
                match found {
                    Some(x) => {
                        let (k, mut b) = out.remove(x);
                        proof {
                            lemma_keyed_push(before, m, k@);
                        }
                        let ghost old_b = b;
                        b.occurrences.push(occurrence);
                        b.complexity_scores.push(analysis.complexity_assessment.overall_score);
                        b.quality_scores.push(analysis.quality_assessment.code_quality);
                        b.total_lines = if b.total_lines as u64 + lines as u64 > u32::MAX as u64 {
                            u32::MAX
                        } else {
                            b.total_lines + lines
                        };
                        proof {
                            assert(after.drop_last() =~= before);
                            assert(keyed(after, k@).drop_last() =~= keyed(before, k@));
                            assert(b.occurrences@.map_values(|o: SkillOccurrence| occurrence_view(o))
                                =~= old_b.occurrences@.map_values(|o: SkillOccurrence| occurrence_view(o)).push(occurrence_view(occurrence)));
                            assert(b.complexity_scores@ =~= old_b.complexity_scores@.push(analysis.complexity_assessment.overall_score));
                            assert(b.quality_scores@ =~= old_b.quality_scores@.push(analysis.quality_assessment.code_quality));
                            assert(keyed(after, k@).map_values(|m: MentionView| mention_occurrence(m))
                                =~= keyed(before, k@).map_values(|m: MentionView| mention_occurrence(m)).push(mention_occurrence(m)));
                            assert(keyed(after, k@).map_values(|m: MentionView| m.complexity)
                                =~= keyed(before, k@).map_values(|m: MentionView| m.complexity).push(m.complexity));
                            assert(keyed(after, k@).map_values(|m: MentionView| m.quality)
                                =~= keyed(before, k@).map_values(|m: MentionView| m.quality).push(m.quality));
                            lemma_lines_push(keyed(before, k@), m);
                            assert(keyed(before, k@).len() > 0);
                            assert(keyed(after, k@)[0] == keyed(before, k@)[0]);
                        }
                        assert(confidences_valid(b.occurrences@)) by {
                            assert(confidences_valid(prev[x as int].1.occurrences@));
                            assert forall|y: int| 0 <= y < b.occurrences@.len() implies (#[trigger] b.occurrences@[y]).confidence <= 1000 by {
                                if y < old_b.occurrences@.len() {
                                    assert(b.occurrences@[y] == old_b.occurrences@[y]);
                                }
                            }
                        }
                        out.insert(x, (k, b));
                        proof {
                            assert forall|j: int| 0 <= j < out@.len() implies confidences_valid(#[trigger] out@[j].1.occurrences@) by {
                                if j != x {
                                    assert(out@[j] == prev[j]);
                                }
                            }
                            assert(out@ =~= prev.update(x as int, out@[x as int]));
                            lemma_buckets_update(prev, before, m, x as int, out@[x as int], tax);
                        }
                    },
                    None => {
                        let category = self.taxonomy.categorize(extracted.category.as_str());
                        let skill = self.taxonomy.get_or_create_skill(extracted.name.as_str(), category);
                        let mut b = AggregatedSkill::new(skill);
                        b.occurrences.push(occurrence);
                        b.complexity_scores.push(analysis.complexity_assessment.overall_score);
                        b.quality_scores.push(analysis.quality_assessment.code_quality);
                        b.total_lines = lines;
                        proof {
                            lemma_keyed_push(before, m, key@);
                            assert(keyed(before, key@) =~= Seq::<MentionView>::empty()) by {
                                lemma_keyed_absent(before, key@, prev, tax);
                            }
                            assert(keyed(after, key@) =~= seq![m]);
                            assert(b.occurrences@.map_values(|o: SkillOccurrence| occurrence_view(o)) =~= seq![occurrence_view(occurrence)]);
                            assert(keyed(after, key@).map_values(|m: MentionView| mention_occurrence(m)) =~= seq![mention_occurrence(m)]);
                            assert(b.complexity_scores@ =~= keyed(after, key@).map_values(|m: MentionView| m.complexity));
                            assert(b.quality_scores@ =~= keyed(after, key@).map_values(|m: MentionView| m.quality));
                            lemma_lines_push(Seq::<MentionView>::empty(), m);
                            assert(Seq::<MentionView>::empty().push(m) =~= seq![m]);
                        }
                        assert(confidences_valid(b.occurrences@)) by {
                            assert(b.occurrences@.len() == 1);
                        }
                        out.push((key, b));
                        proof {
                            assert forall|j: int| 0 <= j < out@.len() implies confidences_valid(#[trigger] out@[j].1.occurrences@) by {
                                if j < prev.len() {
                                    assert(out@[j] == prev[j]);
                                }
                            }
                            lemma_buckets_push(prev, before, m, out@[prev.len() as int], tax);
                        }
                    },
                }
                s = s + 1;
            }
            proof {
                assert(pm.take(s as int) =~= pm);
                ms = ms + pm;
            }
            i = i + 1;
        }
        proof {
            assert(analyses@.take(i as int) =~= analyses@);
        }
        out
    }
}

impl Default for SkillExtractor {
    fn default() -> (r: SkillExtractor)
        ensures
            r.taxonomy.wf(),
    {
        SkillExtractor::new()
    }
}

} // verus!
